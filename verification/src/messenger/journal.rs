//! Durable inbox journal.
//!
//! The journal is a list of packets. A chat or group message was persisted to
//! its recipient's inbox under the number it carries. A delivered
//! acknowledgement is a tombstone: the copy of that user was delivered. A sync
//! marker holds the highest number that was assigned to a user; it is written
//! when the journal is compacted, so numbers never fall even after delivered
//! entries are dropped.

use crate::collections::StrMap;
use crate::messenger::codec::{Packet, PacketView};
use crate::messenger::inbox::{
    dedup_key, empty_inbox, filed_in, higher, in_order, insert_by_seq, lemma_filter_in_order,
    lemma_insert_by_seq, other_than, packet_views, recipient_of, waiting_as_is, within, Inbox,
    InboxView, StoredView,
};
use crate::messenger::wire::{SyncComplete, SyncCompleteView};
use vstd::prelude::*;

verus! {

/// File name of the journal.
pub const JOURNAL_FILE: &'static str = "inbox.wal";

/// The inbox, an empty one where there is none.
pub open spec fn or_empty(o: Option<InboxView>) -> InboxView {
    match o {
        Some(v) => v,
        None => empty_inbox(),
    }
}

/// What one journal entry does to the inbox of a user.
pub open spec fn replay_step(
    o: Option<InboxView>,
    user: Seq<char>,
    p: PacketView,
) -> Option<InboxView> {
    match p {
        PacketView::SyncComplete(s) => if s.user_id == user {
            let v = or_empty(o);
            Some(InboxView { next_seq: higher(v.next_seq, s.latest_seq), ..v })
        } else {
            o
        },
        PacketView::DeliveredAck(a) => if a.from_user == user && o is Some {
            Some(InboxView { pending: o->0.pending.filter(other_than(a.message_id)), ..o->0 })
        } else {
            o
        },
        _ => if p.recipient() == Some(user) {
            Some(filed_in(or_empty(o), p.dedup_key()->0, p))
        } else {
            o
        },
    }
}

/// What some journal entries do to the inbox of a user.
pub open spec fn replay_from(
    o: Option<InboxView>,
    user: Seq<char>,
    entries: Seq<PacketView>,
) -> Option<InboxView>
    decreases entries.len(),
{
    if entries.len() == 0 {
        o
    } else {
        replay_step(replay_from(o, user, entries.drop_last()), user, entries.last())
    }
}

/// The inbox of a user after a journal was replayed.
pub open spec fn replayed(user: Seq<char>, entries: Seq<PacketView>) -> Option<InboxView> {
    replay_from(None, user, entries)
}

/// The inbox of a user.
pub open spec fn inbox_at(m: Map<Seq<char>, Inbox>, user: Seq<char>) -> Option<InboxView> {
    if m.contains_key(user) {
        Some(m[user]@)
    } else {
        None
    }
}

/// Every inbox is sound.
pub open spec fn sound(m: Map<Seq<char>, Inbox>) -> bool {
    forall|u: Seq<char>| m.contains_key(u) ==> (#[trigger] m[u]).wf()
}

/// Applies one journal entry.
fn replay_entry(inboxes: &mut StrMap<Inbox>, pkt: &Packet)
    requires
        old(inboxes).wf(),
        sound(old(inboxes)@),
    ensures
        final(inboxes).wf(),
        sound(final(inboxes)@),
        forall|u: Seq<char>| #[trigger]
            inbox_at(final(inboxes)@, u) == replay_step(inbox_at(old(inboxes)@, u), u, pkt@),
{
    match pkt {
        Packet::SyncComplete(s) => {
            let mut inbox = match inboxes.remove(s.user_id.as_str()) {
                Some(i) => i,
                None => Inbox::new(),
            };
            let ghost was = inbox@;
            if s.latest_seq > inbox.next_seq {
                inbox.next_seq = s.latest_seq;
            }
            proof {
                assert forall|i: int| 0 <= i < inbox@.pending.len() implies (
                #[trigger] inbox@.pending[i]).seq <= inbox.next_seq by {
                    assert(was.pending[i].seq <= was.next_seq);
                }
            }
            let _ = inboxes.insert(s.user_id.clone(), inbox);
        },
        Packet::DeliveredAck(a) => {
            match inboxes.remove(a.from_user.as_str()) {
                Some(i) => {
                    let mut inbox = i;
                    inbox.forget(a.message_id.as_str());
                    let _ = inboxes.insert(a.from_user.clone(), inbox);
                },
                None => {
                    assert(inboxes@ =~= old(inboxes)@);
                },
            }
        },
        _ => {
            match (recipient_of(pkt), dedup_key(pkt)) {
                (Some(user), Some(key)) => {
                    let mut inbox = match inboxes.remove(user) {
                        Some(i) => i,
                        None => Inbox::new(),
                    };
                    inbox.file_in(key, pkt.clone());
                    let _ = inboxes.insert(user.to_string(), inbox);
                },
                _ => {},
            }
        },
    }
}

/// Folds journal entries into the inboxes they left behind.
pub fn replay(entries: &Vec<Packet>) -> (inboxes: StrMap<Inbox>)
    ensures
        inboxes.wf(),
        sound(inboxes@),
        forall|u: Seq<char>| #[trigger]
            inbox_at(inboxes@, u) == replayed(u, packet_views(entries@)),
{
    let ghost all = packet_views(entries@);
    let mut inboxes: StrMap<Inbox> = StrMap::new();
    let mut i: usize = 0;
    assert(all.take(0) =~= Seq::<PacketView>::empty());
    while i < entries.len()
        invariant
            all == packet_views(entries@),
            i <= all.len(),
            inboxes.wf(),
            sound(inboxes@),
            forall|u: Seq<char>| #[trigger]
                inbox_at(inboxes@, u) == replayed(u, all.take(i as int)),
        decreases all.len() - i,
    {
        let ghost was = inboxes@;
        replay_entry(&mut inboxes, &entries[i]);
        proof {
            let t = all.take(i as int + 1);
            assert(t.drop_last() =~= all.take(i as int));
            assert(t.last() == entries@[i as int]@);
            assert forall|u: Seq<char>| #[trigger] inbox_at(inboxes@, u) == replayed(u, t) by {
                assert(inbox_at(was, u) == replayed(u, all.take(i as int)));
            }
        }
        i += 1;
    }
    assert(all.take(i as int) =~= all);
    inboxes
}

/// What the frames of a journal were decoded to; nothing stands for a frame that
/// could not be decoded.
pub open spec fn decoded_views(v: Seq<Option<Packet>>) -> Seq<Option<PacketView>> {
    Seq::new(
        v.len(),
        |i: int|
            match v[i] {
                Some(p) => Some(p@),
                None => None,
            },
    )
}

/// The entries of a journal up to the first that could not be decoded.
pub open spec fn readable(decoded: Seq<Option<PacketView>>) -> Seq<PacketView>
    decreases decoded.len(),
{
    if decoded.len() == 0 {
        Seq::empty()
    } else {
        match decoded[0] {
            Some(p) => seq![p] + readable(decoded.skip(1)),
            None => Seq::empty(),
        }
    }
}

/// What is readable of entries that could all be decoded, and of those that
/// follow up to one that could not.
proof fn lemma_readable(decoded: Seq<Option<PacketView>>, n: int, entries: Seq<PacketView>)
    requires
        0 <= n <= decoded.len(),
        entries.len() == n,
        forall|i: int| 0 <= i < n ==> decoded[i] == Some(#[trigger] entries[i]),
        n == decoded.len() || decoded[n] is None,
    ensures
        readable(decoded) == entries,
    decreases n,
{
    if n > 0 {
        let rest = entries.skip(1);
        assert forall|i: int| 0 <= i < n - 1 implies decoded.skip(1)[i] == Some(
            #[trigger] rest[i],
        ) by {
            assert(decoded[i + 1] == Some(entries[i + 1]));
        }
        lemma_readable(decoded.skip(1), n - 1, rest);
        assert(decoded[0] == Some(entries[0]));
        assert(seq![entries[0]] + rest =~= entries);
    } else {
        assert(entries =~= Seq::<PacketView>::empty());
    }
}

/// Folds the frames of a journal, as they were decoded, into the inboxes they
/// left behind. The first that could not be decoded ends the journal: it was
/// torn, and so is what follows.
pub fn replay_decoded(decoded: Vec<Option<Packet>>) -> (inboxes: StrMap<Inbox>)
    ensures
        inboxes.wf(),
        sound(inboxes@),
        forall|u: Seq<char>| #[trigger]
            inbox_at(inboxes@, u) == replayed(u, readable(decoded_views(decoded@))),
{
    let ghost all = decoded_views(decoded@);
    let mut entries: Vec<Packet> = Vec::new();
    let mut i: usize = 0;
    while i < decoded.len()
        invariant
            all == decoded_views(decoded@),
            i <= decoded@.len(),
            entries@.len() == i,
            forall|j: int|
                0 <= j < i ==> all[j] == Some(#[trigger] packet_views(entries@)[j]),
        decreases decoded@.len() - i,
    {
        let ghost before = packet_views(entries@);
        match &decoded[i] {
            Some(p) => {
                entries.push(p.clone());
                assert(packet_views(entries@) =~= before.push(p@));
            },
            None => {
                proof {
                    assert(all[i as int] is None);
                    lemma_readable(all, i as int, packet_views(entries@));
                }
                return replay(&entries);
            },
        }
        i += 1;
    }
    proof {
        lemma_readable(all, i as int, packet_views(entries@));
    }
    replay(&entries)
}

/// What follows a torn entry changes nothing, and what comes before it is
/// replayed whole.
pub proof fn law_torn_tail_is_dropped(
    entries: Seq<PacketView>,
    tail: Seq<Option<PacketView>>,
)
    ensures
        readable(
            Seq::new(entries.len(), |i: int| Some(entries[i])) + seq![None] + tail,
        ) == entries,
        readable(Seq::new(entries.len(), |i: int| Some(entries[i]))) == entries,
{
    let whole = Seq::new(entries.len(), |i: int| Some(entries[i]));
    lemma_readable(whole + seq![None] + tail, entries.len() as int, entries);
    lemma_readable(whole, entries.len() as int, entries);
}

/// The marker of the highest number assigned to a user.
pub open spec fn high_water_mark(user: Seq<char>, next_seq: u64) -> PacketView {
    PacketView::SyncComplete(
        SyncCompleteView { delivered: 0, latest_seq: next_seq, user_id: user },
    )
}

/// The packets of some messages.
pub open spec fn packets_of(s: Seq<StoredView>) -> Seq<PacketView> {
    Seq::new(s.len(), |i: int| s[i].packet)
}

/// What is left of one inbox in a compacted journal.
pub open spec fn compact_inbox(user: Seq<char>, v: InboxView) -> Seq<PacketView> {
    seq![high_water_mark(user, v.next_seq)] + packets_of(v.pending)
}

/// What is left of some inboxes in a compacted journal.
pub open spec fn compact_inboxes(s: Seq<(String, Inbox)>) -> Seq<PacketView>
    decreases s.len(),
{
    if s.len() == 0 {
        Seq::empty()
    } else {
        compact_inboxes(s.drop_last()) + compact_inbox(s.last().0@, s.last().1@)
    }
}

/// The entries of a compacted journal: for each user the highest number and the
/// pending messages.
pub fn compact(inboxes: &StrMap<Inbox>) -> (entries: Vec<Packet>)
    ensures
        packet_views(entries@) == compact_inboxes(inboxes.entries@),
{
    let ghost all = inboxes.entries@;
    let mut out: Vec<Packet> = Vec::new();
    let mut i: usize = 0;
    assert(all.take(0) =~= Seq::<(String, Inbox)>::empty());
    assert(packet_views(out@) =~= Seq::<PacketView>::empty());
    while i < inboxes.entries.len()
        invariant
            all == inboxes.entries@,
            i <= all.len(),
            packet_views(out@) == compact_inboxes(all.take(i as int)),
        decreases all.len() - i,
    {
        let user = &inboxes.entries[i].0;
        let inbox = &inboxes.entries[i].1;
        let ghost before = out@;
        out.push(
            Packet::SyncComplete(
                SyncComplete { delivered: 0, latest_seq: inbox.next_seq, user_id: user.clone() },
            ),
        );
        let ghost pend = inbox@.pending;
        let mut j: usize = 0;
        assert(packet_views(out@) =~= packet_views(before) + (seq![
            high_water_mark(user@, inbox.next_seq),
        ] + packets_of(pend.take(0))));
        while j < inbox.pending.len()
            invariant
                pend == inbox@.pending,
                j <= pend.len(),
                packet_views(out@) == packet_views(before) + (seq![
                    high_water_mark(user@, inbox.next_seq),
                ] + packets_of(pend.take(j as int))),
            decreases pend.len() - j,
        {
            let ghost was = out@;
            out.push(inbox.pending[j].packet.clone());
            proof {
                assert(packet_views(out@) =~= packet_views(was).push(pend[j as int].packet));
                assert(packets_of(pend.take(j as int + 1)) =~= packets_of(
                    pend.take(j as int),
                ).push(pend[j as int].packet));
                assert(packet_views(out@) =~= packet_views(before) + (seq![
                    high_water_mark(user@, inbox.next_seq),
                ] + packets_of(pend.take(j as int + 1))));
            }
            j += 1;
        }
        proof {
            assert(pend.take(j as int) =~= pend);
            let t = all.take(i as int + 1);
            assert(t.drop_last() =~= all.take(i as int));
            assert(t.last() == all[i as int]);
        }
        i += 1;
    }
    assert(all.take(i as int) =~= all);
    out
}

/// Replaying goes on where it stopped.
proof fn lemma_replay_append(
    o: Option<InboxView>,
    user: Seq<char>,
    a: Seq<PacketView>,
    b: Seq<PacketView>,
)
    ensures
        replay_from(o, user, a + b) == replay_from(replay_from(o, user, a), user, b),
    decreases b.len(),
{
    if b.len() == 0 {
        assert(a + b =~= a);
    } else {
        lemma_replay_append(o, user, a, b.drop_last());
        assert((a + b).drop_last() =~= a + b.drop_last());
        assert((a + b).last() == b.last());
    }
}

/// Numbers never fall while a journal is replayed.
pub proof fn law_numbers_never_fall(user: Seq<char>, entries: Seq<PacketView>, p: PacketView)
    ensures
        replayed(user, entries) matches Some(v) ==> {
            &&& replayed(user, entries.push(p)) matches Some(w)
            &&& w.next_seq >= v.next_seq
        },
{
    assert(entries.push(p).drop_last() =~= entries);
}

/// The number of a user is at least every mark and every pending number of
/// that user in the journal.
pub proof fn law_number_covers_journal(user: Seq<char>, entries: Seq<PacketView>, i: int)
    requires
        0 <= i < entries.len(),
    ensures
        entries[i] matches PacketView::SyncComplete(s) ==> (s.user_id == user ==> {
            &&& replayed(user, entries) matches Some(v)
            &&& v.next_seq >= s.latest_seq
        }),
        replayed(user, entries) matches Some(v) ==> within(v.pending, v.next_seq) && in_order(
            v.pending,
        ),
    decreases entries.len(),
{
    lemma_replay_is_sound(user, entries);
    let d = entries.drop_last();
    if i < d.len() {
        law_number_covers_journal(user, d, i);
        assert(d[i] == entries[i]);
    }
}

/// What every replayed inbox keeps: its messages wait in order under the
/// numbers they carry, all for this user, each key once, and each key seen.
pub open spec fn tidy(user: Seq<char>, v: InboxView) -> bool {
    &&& in_order(v.pending)
    &&& within(v.pending, v.next_seq)
    &&& forall|x: StoredView| #[trigger]
        v.pending.contains(x) ==> x == waiting_as_is(x.packet) && x.packet.recipient() == Some(user)
            && v.seen.contains(x.packet.dedup_key()->0)
    &&& forall|i: int, j: int|
        0 <= i < j < v.pending.len() ==> (#[trigger] v.pending[i]).packet.dedup_key() != (
        #[trigger] v.pending[j]).packet.dedup_key()
}

/// Putting a message with a new key in its place keeps the keys distinct.
proof fn lemma_insert_keeps_distinct(s: Seq<StoredView>, m: StoredView)
    requires
        forall|i: int, j: int|
            0 <= i < j < s.len() ==> (#[trigger] s[i]).packet.dedup_key() != (
            #[trigger] s[j]).packet.dedup_key(),
        forall|i: int|
            0 <= i < s.len() ==> (#[trigger] s[i]).packet.dedup_key() != m.packet.dedup_key(),
    ensures
        ({
            let r = insert_by_seq(s, m);
            forall|i: int, j: int|
                0 <= i < j < r.len() ==> (#[trigger] r[i]).packet.dedup_key() != (
                #[trigger] r[j]).packet.dedup_key()
        }),
        forall|x: StoredView| #[trigger]
            insert_by_seq(s, m).contains(x) ==> s.contains(x) || x == m,
    decreases s.len(),
{
    let r = insert_by_seq(s, m);
    if s.len() > 0 && s.last().seq > m.seq {
        let d = s.drop_last();
        assert forall|i: int, j: int| 0 <= i < j < d.len() implies (
        #[trigger] d[i]).packet.dedup_key() != (#[trigger] d[j]).packet.dedup_key() by {
            assert(s[i].packet.dedup_key() != s[j].packet.dedup_key());
        }
        lemma_insert_keeps_distinct(d, m);
        let e = insert_by_seq(d, m);
        assert(r == e.push(s.last()));
        assert forall|i: int, j: int| 0 <= i < j < r.len() implies (
        #[trigger] r[i]).packet.dedup_key() != (#[trigger] r[j]).packet.dedup_key() by {
            if j < e.len() {
                assert(r[i] == e[i] && r[j] == e[j]);
            } else {
                assert(e.contains(e[i]));
                if d.contains(e[i]) {
                    let k = d.index_of(e[i]);
                    assert(s[k].packet.dedup_key() != s[s.len() - 1].packet.dedup_key());
                } else {
                    assert(s[s.len() - 1].packet.dedup_key() != m.packet.dedup_key());
                }
            }
        }
        assert forall|x: StoredView| #[trigger] r.contains(x) implies s.contains(x) || x == m by {
            let k = r.index_of(x);
            if k < e.len() {
                assert(e[k] == x);
                assert(e.contains(x));
                if d.contains(x) {
                    assert(s[d.index_of(x)] == x);
                }
            } else {
                assert(s[s.len() - 1] == x);
            }
        }
    } else {
        assert forall|x: StoredView| #[trigger] r.contains(x) implies s.contains(x) || x == m by {
            let k = r.index_of(x);
            if k < s.len() {
                assert(s[k] == x);
            }
        }
    }
}

/// Leaving messages out keeps the keys distinct.
proof fn lemma_filter_keeps_distinct(s: Seq<StoredView>, p: spec_fn(StoredView) -> bool)
    requires
        forall|i: int, j: int|
            0 <= i < j < s.len() ==> (#[trigger] s[i]).packet.dedup_key() != (
            #[trigger] s[j]).packet.dedup_key(),
    ensures
        ({
            let r = s.filter(p);
            forall|i: int, j: int|
                0 <= i < j < r.len() ==> (#[trigger] r[i]).packet.dedup_key() != (
                #[trigger] r[j]).packet.dedup_key()
        }),
        forall|x: StoredView| #[trigger] s.filter(p).contains(x) ==> s.contains(x) && p(x),
    decreases s.len(),
{
    reveal(Seq::filter);
    if s.len() > 0 {
        let d = s.drop_last();
        assert forall|i: int, j: int| 0 <= i < j < d.len() implies (
        #[trigger] d[i]).packet.dedup_key() != (#[trigger] d[j]).packet.dedup_key() by {
            assert(s[i].packet.dedup_key() != s[j].packet.dedup_key());
        }
        lemma_filter_keeps_distinct(d, p);
        let e = d.filter(p);
        let r = s.filter(p);
        assert forall|i: int, j: int| 0 <= i < j < r.len() implies (
        #[trigger] r[i]).packet.dedup_key() != (#[trigger] r[j]).packet.dedup_key() by {
            if j < e.len() {
                assert(r[i] == e[i] && r[j] == e[j]);
            } else {
                assert(r[i] == e[i]);
                assert(e.contains(e[i]));
                let k = d.index_of(e[i]);
                assert(s[k].packet.dedup_key() != s[s.len() - 1].packet.dedup_key());
            }
        }
        assert forall|x: StoredView| #[trigger] r.contains(x) implies s.contains(x) && p(x) by {
            let k = r.index_of(x);
            if k < e.len() {
                assert(e[k] == x);
                assert(e.contains(x));
                assert(s[d.index_of(x)] == x);
            } else {
                assert(s[s.len() - 1] == x);
            }
        }
    }
}

/// Replayed inboxes are tidy.
proof fn lemma_replay_is_sound(user: Seq<char>, entries: Seq<PacketView>)
    ensures
        replayed(user, entries) matches Some(v) ==> tidy(user, v),
    decreases entries.len(),
{
    if entries.len() > 0 {
        let d = entries.drop_last();
        lemma_replay_is_sound(user, d);
        let o = replayed(user, d);
        let p = entries.last();
        let v = or_empty(o);
        assert(tidy(user, v));
        match p {
            PacketView::SyncComplete(s) => {
                if s.user_id == user {
                    let w = replayed(user, entries)->0;
                    assert(w.pending == v.pending);
                    assert forall|i: int| 0 <= i < w.pending.len() implies (
                    #[trigger] w.pending[i]).seq <= w.next_seq by {
                        assert(v.pending[i].seq <= v.next_seq);
                    }
                }
            },
            PacketView::DeliveredAck(a) => {
                if a.from_user == user && o is Some {
                    let f = other_than(a.message_id);
                    lemma_filter_in_order(v.pending, f);
                    lemma_filter_keeps_distinct(v.pending, f);
                    let w = replayed(user, entries)->0;
                    assert(w.pending == v.pending.filter(f));
                    assert forall|i: int| 0 <= i < w.pending.len() implies (
                    #[trigger] w.pending[i]).seq <= w.next_seq by {
                        assert(v.pending.filter(f).contains(w.pending[i]));
                        assert(v.pending.contains(w.pending[i]));
                    }
                }
            },
            _ => {
                if p.recipient() == Some(user) && !v.seen.contains(p.dedup_key()->0) {
                    let m = waiting_as_is(p);
                    lemma_insert_by_seq(v.pending, m);
                    assert forall|i: int| 0 <= i < v.pending.len() implies (
                    #[trigger] v.pending[i]).packet.dedup_key() != m.packet.dedup_key() by {
                        assert(v.pending.contains(v.pending[i]));
                        assert(v.pending[i].packet.dedup_key() is Some);
                    }
                    lemma_insert_keeps_distinct(v.pending, m);
                    let w = replayed(user, entries)->0;
                    assert(w == filed_in(v, p.dedup_key()->0, p));
                    assert forall|x: StoredView| #[trigger] w.pending.contains(x) implies x
                        == waiting_as_is(x.packet) && x.packet.recipient() == Some(user)
                        && w.seen.contains(x.packet.dedup_key()->0) by {
                        if v.pending.contains(x) {
                        }
                    }
                    assert forall|i: int| 0 <= i < w.pending.len() implies (
                    #[trigger] w.pending[i]).seq <= w.next_seq by {
                        assert(w.pending.contains(w.pending[i]));
                        if v.pending.contains(w.pending[i]) {
                            let k = v.pending.index_of(w.pending[i]);
                            assert(v.pending[k].seq <= v.next_seq);
                        }
                    }
                }
            },
        }
    }
}

/// A message that was persisted and never acknowledged is pending after a
/// restart: no entry that follows takes it away.
pub proof fn law_unacknowledged_message_survives(
    user: Seq<char>,
    entries: Seq<PacketView>,
    i: int,
)
    requires
        0 <= i < entries.len(),
        entries[i].recipient() == Some(user),
        forall|j: int|
            0 <= j < i ==> !((#[trigger] entries[j]).recipient() == Some(user)
                && entries[j].dedup_key() == entries[i].dedup_key()),
        forall|j: int|
            i < j < entries.len() ==> !(#[trigger] entries[j] matches PacketView::DeliveredAck(a)
                && a.from_user == user && Some(a.message_id) == entries[i].message_id()),
    ensures
        replayed(user, entries) matches Some(v) && v.pending.contains(waiting_as_is(entries[i])),
    decreases entries.len(),
{
    let d = entries.drop_last();
    let p = entries.last();
    let x = waiting_as_is(entries[i]);
    lemma_replay_is_sound(user, d);
    if i < d.len() {
        assert(d[i] == entries[i]);
        assert forall|j: int| 0 <= j < i implies !((#[trigger] d[j]).recipient() == Some(user)
            && d[j].dedup_key() == d[i].dedup_key()) by {
            assert(d[j] == entries[j]);
        }
        assert forall|j: int| i < j < d.len() implies !(
        #[trigger] d[j] matches PacketView::DeliveredAck(a) && a.from_user == user && Some(
            a.message_id,
        ) == d[i].message_id()) by {
            assert(d[j] == entries[j]);
        }
        law_unacknowledged_message_survives(user, d, i);
        let v = replayed(user, d)->0;
        match p {
            PacketView::DeliveredAck(a) => {
                if a.from_user == user {
                    assert(entries[entries.len() - 1] == p);
                    lemma_filter_in_order(v.pending, other_than(a.message_id));
                    assert(v.pending.filter(other_than(a.message_id)).contains(x));
                }
            },
            PacketView::SyncComplete(_) => {},
            _ => {
                if p.recipient() == Some(user) && !v.seen.contains(p.dedup_key()->0) {
                    lemma_insert_by_seq(v.pending, waiting_as_is(p));
                    assert(insert_by_seq(v.pending, waiting_as_is(p)).contains(x));
                }
            },
        }
    } else {
        let v = or_empty(replayed(user, d));
        lemma_seen_only_stored(user, d, p.dedup_key()->0);
        assert(!v.seen.contains(p.dedup_key()->0)) by {
            if v.seen.contains(p.dedup_key()->0) {
                let j = choose|j: int|
                    0 <= j < d.len() && (#[trigger] d[j]).recipient() == Some(user)
                        && d[j].dedup_key() == Some(p.dedup_key()->0);
                assert(entries[j] == d[j]);
            }
        }
        assert(tidy(user, v));
        lemma_insert_by_seq(v.pending, x);
        assert(insert_by_seq(v.pending, x).contains(x));
    }
}

/// Only the keys of stored messages are seen.
proof fn lemma_seen_only_stored(user: Seq<char>, entries: Seq<PacketView>, key: Seq<char>)
    ensures
        or_empty(replayed(user, entries)).seen.contains(key) ==> exists|j: int|
            0 <= j < entries.len() && (#[trigger] entries[j]).recipient() == Some(user)
                && entries[j].dedup_key() == Some(key),
    decreases entries.len(),
{
    if entries.len() > 0 {
        let d = entries.drop_last();
        lemma_seen_only_stored(user, d, key);
        let v = or_empty(replayed(user, d));
        if or_empty(replayed(user, entries)).seen.contains(key) {
            if v.seen.contains(key) {
                let j = choose|j: int|
                    0 <= j < d.len() && (#[trigger] d[j]).recipient() == Some(user)
                        && d[j].dedup_key() == Some(key);
                assert(entries[j] == d[j]);
            } else {
                assert(entries[entries.len() - 1].recipient() == Some(user));
            }
        }
    }
}

/// A message that was acknowledged last is not pending after a restart.
pub proof fn law_acknowledged_message_is_gone(
    user: Seq<char>,
    entries: Seq<PacketView>,
    message_id: Seq<char>,
)
    requires
        entries.len() > 0,
        entries.last() matches PacketView::DeliveredAck(a) && a.from_user == user && a.message_id
            == message_id,
    ensures
        replayed(user, entries) matches Some(v) ==> forall|x: StoredView| #[trigger]
            v.pending.contains(x) ==> x.packet.message_id() != Some(message_id),
{
    let d = entries.drop_last();
    lemma_replay_is_sound(user, d);
    if replayed(user, d) is Some {
        lemma_filter_in_order(replayed(user, d)->0.pending, other_than(message_id));
    }
}

/// The keys of pending messages.
pub open spec fn pending_keys(s: Seq<StoredView>) -> Set<Seq<char>>
    decreases s.len(),
{
    if s.len() == 0 {
        Set::empty()
    } else {
        pending_keys(s.drop_last()).insert(s.last().packet.dedup_key()->0)
    }
}

/// What compaction leaves of an inbox: the number and the pending messages
/// with their keys.
pub open spec fn compacted(v: InboxView) -> InboxView {
    InboxView { seen: pending_keys(v.pending), ..v }
}

/// Only the keys of pending messages are pending keys.
proof fn lemma_pending_keys(s: Seq<StoredView>, key: Seq<char>)
    ensures
        pending_keys(s).contains(key) ==> exists|i: int|
            0 <= i < s.len() && (#[trigger] s[i]).packet.dedup_key()->0 == key,
    decreases s.len(),
{
    if s.len() > 0 {
        let d = s.drop_last();
        lemma_pending_keys(d, key);
        if pending_keys(s).contains(key) {
            if pending_keys(d).contains(key) {
                let i = choose|i: int|
                    0 <= i < d.len() && (#[trigger] d[i]).packet.dedup_key()->0 == key;
                assert(s[i] == d[i]);
            } else {
                assert(s[s.len() - 1].packet.dedup_key()->0 == key);
            }
        }
    }
}

/// Replaying what is left of an inbox.
proof fn lemma_replay_pending(user: Seq<char>, v: InboxView, n: int)
    requires
        tidy(user, v),
        0 <= n <= v.pending.len(),
    ensures
        replay_from(
            Some(InboxView { pending: Seq::empty(), seen: Set::empty(), ..v }),
            user,
            packets_of(v.pending.take(n)),
        ) == Some(compacted(InboxView { pending: v.pending.take(n), ..v })),
    decreases n,
{
    let start = InboxView { pending: Seq::empty(), seen: Set::empty(), ..v };
    if n == 0 {
        assert(packets_of(v.pending.take(0)) =~= Seq::<PacketView>::empty());
        assert(v.pending.take(0) =~= Seq::<StoredView>::empty());
        assert(compacted(InboxView { pending: v.pending.take(0), ..v }) =~= start);
    } else {
        lemma_replay_pending(user, v, n - 1);
        let a = v.pending.take(n - 1);
        let b = v.pending.take(n);
        let m = v.pending[n - 1];
        assert(v.pending.contains(m));
        assert(packets_of(b).drop_last() =~= packets_of(a));
        assert(packets_of(b).last() == m.packet);
        assert(b.drop_last() =~= a);
        assert(b =~= a.push(m));
        let w = compacted(InboxView { pending: a, ..v });
        let key = m.packet.dedup_key()->0;
        assert(!w.seen.contains(key)) by {
            lemma_pending_keys(a, key);
            if w.seen.contains(key) {
                let i = choose|i: int|
                    0 <= i < a.len() && (#[trigger] a[i]).packet.dedup_key()->0 == key;
                assert(a[i] == v.pending[i]);
                assert(v.pending.contains(v.pending[i]));
                assert(v.pending[i].packet.dedup_key() != v.pending[n - 1].packet.dedup_key());
            }
        }
        assert(m.seq <= v.next_seq);
        assert(insert_by_seq(a, waiting_as_is(m.packet)) == a.push(m)) by {
            if a.len() > 0 {
                assert(v.pending[n - 2].seq <= v.pending[n - 1].seq);
                assert(a.last() == v.pending[n - 2]);
            }
        }
        assert(filed_in(w, key, m.packet) =~= compacted(InboxView { pending: b, ..v }));
    }
}

/// Entries for one user leave another user's inbox alone.
proof fn lemma_replay_others(
    o: Option<InboxView>,
    user: Seq<char>,
    other: Seq<char>,
    v: InboxView,
    n: int,
)
    requires
        user != other,
        tidy(other, v),
        0 <= n <= v.pending.len(),
    ensures
        replay_from(o, user, packets_of(v.pending.take(n))) == o,
    decreases n,
{
    if n == 0 {
        assert(packets_of(v.pending.take(0)) =~= Seq::<PacketView>::empty());
    } else {
        lemma_replay_others(o, user, other, v, n - 1);
        let b = packets_of(v.pending.take(n));
        assert(b.drop_last() =~= packets_of(v.pending.take(n - 1)));
        assert(v.pending.contains(v.pending[n - 1]));
        assert(b.last() == v.pending[n - 1].packet);
    }
}

/// Replaying what compaction wrote for one user.
proof fn lemma_replay_compact_inbox(
    o: Option<InboxView>,
    user: Seq<char>,
    other: Seq<char>,
    v: InboxView,
)
    requires
        tidy(other, v),
        user == other ==> o is None,
    ensures
        replay_from(o, user, compact_inbox(other, v)) == (if user == other {
            Some(compacted(v))
        } else {
            o
        }),
{
    let head = seq![high_water_mark(other, v.next_seq)];
    let n = v.pending.len() as int;
    lemma_replay_append(o, user, head, packets_of(v.pending));
    assert(v.pending.take(n) =~= v.pending);
    assert(head.drop_last() =~= Seq::<PacketView>::empty());
    assert(head.last() == high_water_mark(other, v.next_seq));
    let after_head = replay_from(o, user, head);
    assert(after_head == replay_step(replay_from(o, user, head.drop_last()), user, head.last()));
    if user == other {
        assert(after_head->0 =~= (InboxView { pending: Seq::empty(), seen: Set::empty(), ..v }));
        lemma_replay_pending(user, v, n);
        assert(compacted(InboxView { pending: v.pending, ..v }) =~= compacted(v));
    } else {
        lemma_replay_others(after_head, user, other, v, n);
    }
}

/// Compaction loses nothing that matters: replaying a compacted journal gives
/// every user the same number and the same pending messages.
pub proof fn law_compaction_keeps_state(s: Seq<(String, Inbox)>, user: Seq<char>)
    requires
        forall|i: int, j: int| 0 <= i < j < s.len() ==> (#[trigger] s[i]).0@ != (#[trigger] s[j]).0@,
        forall|i: int| 0 <= i < s.len() ==> tidy((#[trigger] s[i]).0@, s[i].1@),
    ensures
        (exists|i: int|
            0 <= i < s.len() && (#[trigger] s[i]).0@ == user && replayed(user, compact_inboxes(s))
                == Some(compacted(s[i].1@))) || ((forall|i: int|
            0 <= i < s.len() ==> (#[trigger] s[i]).0@ != user) && replayed(
            user,
            compact_inboxes(s),
        ) is None),
    decreases s.len(),
{
    if s.len() > 0 {
        let d = s.drop_last();
        let n = d.len() as int;
        assert forall|i: int, j: int| 0 <= i < j < d.len() implies (#[trigger] d[i]).0@ != (
        #[trigger] d[j]).0@ by {
            assert(s[i].0@ != s[j].0@);
        }
        assert forall|i: int| 0 <= i < d.len() implies tidy((#[trigger] d[i]).0@, d[i].1@) by {
            assert(d[i] == s[i]);
        }
        law_compaction_keeps_state(d, user);
        let o = replayed(user, compact_inboxes(d));
        lemma_replay_append(None, user, compact_inboxes(d), compact_inbox(s[n].0@, s[n].1@));
        if user == s[n].0@ {
            if o is Some {
                let i = choose|i: int|
                    0 <= i < d.len() && (#[trigger] d[i]).0@ == user && o == Some(
                        compacted(d[i].1@),
                    );
                assert(s[i].0@ != s[n].0@);
            }
            lemma_replay_compact_inbox(o, user, s[n].0@, s[n].1@);
            assert(s[n].0@ == user && replayed(user, compact_inboxes(s)) == Some(
                compacted(s[n].1@),
            ));
        } else {
            lemma_replay_compact_inbox(o, user, s[n].0@, s[n].1@);
            if o is Some {
                let i = choose|i: int|
                    0 <= i < d.len() && (#[trigger] d[i]).0@ == user && o == Some(
                        compacted(d[i].1@),
                    );
                assert(s[i] == d[i]);
                assert(s[i].0@ == user && replayed(user, compact_inboxes(s)) == Some(
                    compacted(s[i].1@),
                ));
            } else {
                assert forall|i: int| 0 <= i < s.len() implies (#[trigger] s[i]).0@ != user by {
                    if i < n {
                        assert(d[i] == s[i]);
                        assert(d[i].0@ != user);
                    }
                }
            }
        }
    }
}

/// Every inbox that a replay leaves behind is one that compaction keeps.
pub proof fn law_replayed_inboxes_are_tidy(user: Seq<char>, entries: Seq<PacketView>)
    ensures
        replayed(user, entries) matches Some(v) ==> tidy(user, v),
{
    lemma_replay_is_sound(user, entries);
}

/// Nothing is made up: what waits after a replay is an entry of the journal, for
/// that user, as it was written, and not delivered since.
pub proof fn law_replay_makes_nothing_up(user: Seq<char>, entries: Seq<PacketView>, x: StoredView)
    requires
        or_empty(replayed(user, entries)).pending.contains(x),
    ensures
        !x.delivered,
        exists|i: int|
            0 <= i < entries.len() && #[trigger] entries[i] == x.packet && entries[i].recipient()
                == Some(user),
    decreases entries.len(),
{
    if entries.len() > 0 {
        let d = entries.drop_last();
        let last = entries[entries.len() - 1];
        let v = or_empty(replayed(user, d));
        law_replayed_inboxes_are_tidy(user, d);
        law_replayed_inboxes_are_tidy(user, entries);
        if last is DeliveredAck {
            if replayed(user, d) is Some {
                lemma_filter_in_order(v.pending, other_than(last->DeliveredAck_0.message_id));
            }
        } else if !(last is SyncComplete) && last.recipient() == Some(user) {
            lemma_insert_by_seq(v.pending, waiting_as_is(last));
        }
        if v.pending.contains(x) {
            law_replay_makes_nothing_up(user, d, x);
            let i = choose|i: int|
                0 <= i < d.len() && #[trigger] d[i] == x.packet && d[i].recipient() == Some(user);
            assert(entries[i] == x.packet);
        } else {
            assert(entries[entries.len() - 1] == x.packet);
        }
    }
}

/// What one user's entries do is no business of another user: an entry for
/// someone else leaves an inbox as it was.
pub proof fn law_entries_are_for_one_user(
    user: Seq<char>,
    entries: Seq<PacketView>,
    p: PacketView,
)
    requires
        match p {
            PacketView::ChatMessage(m) => m.to_user != user,
            PacketView::GroupMessage(m) => m.to_user != user,
            PacketView::DeliveredAck(a) => a.from_user != user,
            PacketView::SyncComplete(s) => s.user_id != user,
            _ => true,
        },
    ensures
        replayed(user, entries.push(p)) == replayed(user, entries),
{
    assert(entries.push(p).drop_last() =~= entries);
}

/// A mark in the journal raises the highest number to what it says, and changes
/// nothing else; it never lowers it.
pub proof fn law_marks_raise_the_number(user: Seq<char>, entries: Seq<PacketView>, number: u64)
    ensures
        ({
            let v = or_empty(replayed(user, entries));
            let w = replayed(user, entries.push(high_water_mark(user, number)));
            &&& w is Some
            &&& w->0.pending == v.pending
            &&& w->0.seen == v.seen
            &&& w->0.next_seq >= number
            &&& w->0.next_seq >= v.next_seq
            &&& w->0.next_seq == number || w->0.next_seq == v.next_seq
        }),
{
    assert(entries.push(high_water_mark(user, number)).drop_last() =~= entries);
}

} // verus!
