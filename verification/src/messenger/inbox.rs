//! Offline inboxes: sequence numbers, deduplication, replay and handoff.

use crate::collections::StrSet;
use crate::distributed::lemma_filter_step;
use crate::messenger::codec::{Packet, PacketView};
use crate::messenger::wire::{
    chat_views, group_views, ChatMessage, ChatMessageView, GroupMessage, GroupMessageView,
    PeerHandoffUser, PeerHandoffUserView,
};
use crate::text::{concat3, same};
use vstd::prelude::*;

verus! {

impl PacketView {
    /// The sequence number that a stored packet carries.
    pub open spec fn seq(self) -> u64 {
        match self {
            PacketView::ChatMessage(m) => m.seq,
            PacketView::GroupMessage(m) => m.seq,
            _ => 0,
        }
    }

    /// The message that a packet carries, by its id.
    pub open spec fn message_id(self) -> Option<Seq<char>> {
        match self {
            PacketView::ChatMessage(m) => Some(m.message_id),
            PacketView::GroupMessage(m) => Some(m.message_id),
            _ => None,
        }
    }

    /// Whose inbox a packet is stored in.
    pub open spec fn recipient(self) -> Option<Seq<char>> {
        match self {
            PacketView::ChatMessage(m) => Some(m.to_user),
            PacketView::GroupMessage(m) => Some(m.to_user),
            _ => None,
        }
    }

    /// What tells a retry of a packet from a new one: the message id, and for a
    /// group message the member as well.
    pub open spec fn dedup_key(self) -> Option<Seq<char>> {
        match self {
            PacketView::ChatMessage(m) => Some(m.message_id),
            PacketView::GroupMessage(m) => Some(m.message_id + ":"@ + m.to_user),
            _ => None,
        }
    }

    /// The packet with a sequence number in it.
    pub open spec fn with_seq(self, seq: u64) -> PacketView {
        match self {
            PacketView::ChatMessage(m) => PacketView::ChatMessage(ChatMessageView { seq, ..m }),
            PacketView::GroupMessage(m) => PacketView::GroupMessage(GroupMessageView { seq, ..m }),
            p => p,
        }
    }
}

/// The sequence number that a stored packet carries.
pub fn stored_seq_of(pkt: &Packet) -> (n: u64)
    ensures
        n == pkt@.seq(),
{
    match pkt {
        Packet::ChatMessage(m) => m.seq,
        Packet::GroupMessage(m) => m.seq,
        _ => 0,
    }
}

/// Whether a packet carries the message with the given id.
pub fn message_is(pkt: &Packet, message_id: &str) -> (r: bool)
    ensures
        r == (pkt@.message_id() == Some(message_id@)),
{
    match pkt {
        Packet::ChatMessage(m) => same(m.message_id.as_str(), message_id),
        Packet::GroupMessage(m) => same(m.message_id.as_str(), message_id),
        _ => false,
    }
}

/// Whose inbox a packet is stored in.
pub fn recipient_of(pkt: &Packet) -> (r: Option<&str>)
    ensures
        match r {
            Some(u) => pkt@.recipient() == Some(u@),
            None => pkt@.recipient() is None,
        },
{
    match pkt {
        Packet::ChatMessage(m) => Some(m.to_user.as_str()),
        Packet::GroupMessage(m) => Some(m.to_user.as_str()),
        _ => None,
    }
}

/// The key by which retries of a packet are recognised.
pub fn dedup_key(pkt: &Packet) -> (r: Option<String>)
    ensures
        match r {
            Some(k) => pkt@.dedup_key() == Some(k@),
            None => pkt@.dedup_key() is None,
        },
{
    match pkt {
        Packet::ChatMessage(m) => Some(m.message_id.clone()),
        Packet::GroupMessage(m) => Some(group_key(m)),
        _ => None,
    }
}

/// The key by which retries of a group message are recognised.
pub fn group_key(m: &GroupMessage) -> (k: String)
    ensures
        k@ == m@.message_id + ":"@ + m@.to_user,
{
    concat3(m.message_id.as_str(), ":", m.to_user.as_str())
}

/// The packet with a sequence number in it.
pub fn with_seq(pkt: Packet, seq: u64) -> (r: Packet)
    ensures
        r@ == pkt@.with_seq(seq),
{
    match pkt {
        Packet::ChatMessage(mut m) => {
            m.seq = seq;
            Packet::ChatMessage(m)
        },
        Packet::GroupMessage(mut m) => {
            m.seq = seq;
            Packet::GroupMessage(m)
        },
        p => p,
    }
}

/// A message persisted for delivery to one recipient.
pub struct StoredMessage {
    pub seq: u64,
    pub packet: Packet,
    pub delivered: bool,
}

/// What a [`StoredMessage`] holds.
#[verifier::ext_equal]
pub struct StoredView {
    pub seq: u64,
    pub packet: PacketView,
    pub delivered: bool,
}

impl View for StoredMessage {
    type V = StoredView;

    open spec fn view(&self) -> StoredView {
        StoredView { seq: self.seq, packet: self.packet@, delivered: self.delivered }
    }
}

/// The messages by their views.
pub open spec fn stored_views(v: Seq<StoredMessage>) -> Seq<StoredView> {
    Seq::new(v.len(), |i: int| v[i]@)
}

/// The packets by their views.
pub open spec fn packet_views(v: Seq<Packet>) -> Seq<PacketView> {
    Seq::new(v.len(), |i: int| v[i]@)
}

/// The inbox of one user.
pub struct Inbox {
    /// The highest sequence number assigned so far.
    pub next_seq: u64,
    /// Messages in order of their sequence numbers.
    pub pending: Vec<StoredMessage>,
    /// Keys of the messages accepted so far.
    pub seen: StrSet,
}

/// What an [`Inbox`] holds.
#[verifier::ext_equal]
pub struct InboxView {
    pub next_seq: u64,
    pub pending: Seq<StoredView>,
    pub seen: Set<Seq<char>>,
}

impl View for Inbox {
    type V = InboxView;

    open spec fn view(&self) -> InboxView {
        InboxView {
            next_seq: self.next_seq,
            pending: stored_views(self.pending@),
            seen: self.seen@,
        }
    }
}

/// An inbox that nothing was ever sent to.
pub open spec fn empty_inbox() -> InboxView {
    InboxView { next_seq: 0, pending: Seq::empty(), seen: Set::empty() }
}

/// Messages stand in order of their sequence numbers.
pub open spec fn in_order(s: Seq<StoredView>) -> bool {
    forall|i: int, j: int| 0 <= i < j < s.len() ==> (#[trigger] s[i]).seq <= (#[trigger] s[j]).seq
}

/// No message has a sequence number that was not assigned yet.
pub open spec fn within(s: Seq<StoredView>, next_seq: u64) -> bool {
    forall|i: int| 0 <= i < s.len() ==> (#[trigger] s[i]).seq <= next_seq
}

/// The last `n` elements.
pub open spec fn newest<A>(s: Seq<A>, n: nat) -> Seq<A> {
    if s.len() > n {
        s.skip(s.len() - n)
    } else {
        s
    }
}

/// A message that waits under a new sequence number.
pub open spec fn waiting(packet: PacketView, seq: u64) -> StoredView {
    StoredView { seq, packet: packet.with_seq(seq), delivered: false }
}

/// The inbox once a packet was offered under a key: a retry changes nothing, a
/// new one gets the next sequence number, and the oldest messages go where the
/// inbox is full.
pub open spec fn offered(v: InboxView, key: Seq<char>, packet: PacketView, max: nat) -> InboxView {
    if v.seen.contains(key) {
        v
    } else {
        let seq = (v.next_seq + 1) as u64;
        InboxView {
            next_seq: seq,
            pending: newest(v.pending.push(waiting(packet, seq)), max),
            seen: v.seen.insert(key),
        }
    }
}

/// The message, delivered if it is the one that was acknowledged.
pub open spec fn marked(m: StoredView, message_id: Seq<char>) -> StoredView {
    if m.packet.message_id() == Some(message_id) {
        StoredView { delivered: true, ..m }
    } else {
        m
    }
}

/// All messages, delivered where they were acknowledged.
pub open spec fn all_marked(s: Seq<StoredView>, message_id: Seq<char>) -> Seq<StoredView> {
    Seq::new(s.len(), |i: int| marked(s[i], message_id))
}

/// The messages from the first one on that is not delivered.
pub open spec fn drop_delivered(s: Seq<StoredView>) -> Seq<StoredView>
    decreases s.len(),
{
    if s.len() > 0 && s[0].delivered {
        drop_delivered(s.skip(1))
    } else {
        s
    }
}

/// Whether an acknowledgement is news.
pub open spec fn awaits_ack(s: Seq<StoredView>, message_id: Seq<char>) -> bool {
    exists|i: int|
        0 <= i < s.len() && (#[trigger] s[i]).packet.message_id() == Some(message_id)
            && !s[i].delivered
}

/// The inbox once a message was acknowledged.
pub open spec fn acknowledged(v: InboxView, message_id: Seq<char>) -> InboxView {
    InboxView { pending: drop_delivered(all_marked(v.pending, message_id)), ..v }
}

/// Which messages a client that has seen everything up to `after` still needs.
pub open spec fn needed(after: u64) -> spec_fn(StoredView) -> bool {
    |m: StoredView| !m.delivered && m.seq > after
}

/// Which messages are not delivered.
pub open spec fn undelivered() -> spec_fn(StoredView) -> bool {
    |m: StoredView| !m.delivered
}

/// What a client that has seen everything up to `after` still needs, in order.
pub open spec fn replay_of(v: InboxView, after: u64) -> Seq<StoredView> {
    v.pending.filter(needed(after))
}

/// The message put behind all those with a sequence number that is not higher.
pub open spec fn insert_by_seq(s: Seq<StoredView>, m: StoredView) -> Seq<StoredView>
    decreases s.len(),
{
    if s.len() > 0 && s.last().seq > m.seq {
        insert_by_seq(s.drop_last(), m).push(s.last())
    } else {
        s.push(m)
    }
}

/// The messages in order of their sequence numbers; equal ones keep their
/// places.
pub open spec fn sorted_by_seq(s: Seq<StoredView>) -> Seq<StoredView>
    decreases s.len(),
{
    if s.len() == 0 {
        s
    } else {
        insert_by_seq(sorted_by_seq(s.drop_last()), s.last())
    }
}

/// Inserting keeps the order, adds the message and nothing else.
pub proof fn lemma_insert_by_seq(s: Seq<StoredView>, m: StoredView)
    requires
        in_order(s),
    ensures
        in_order(insert_by_seq(s, m)),
        insert_by_seq(s, m).to_multiset() == s.to_multiset().insert(m),
        insert_by_seq(s, m).len() == s.len() + 1,
        forall|x: StoredView| #[trigger]
            insert_by_seq(s, m).contains(x) <==> (s.contains(x) || x == m),
    decreases s.len(),
{
    broadcast use vstd::seq_lib::group_to_multiset_ensures;

    let r = insert_by_seq(s, m);
    if s.len() > 0 && s.last().seq > m.seq {
        let d = s.drop_last();
        assert forall|i: int, j: int| 0 <= i < j < d.len() implies (#[trigger] d[i]).seq <= (
        #[trigger] d[j]).seq by {
            assert(s[i].seq <= s[j].seq);
        }
        lemma_insert_by_seq(d, m);
        let e = insert_by_seq(d, m);
        assert(r == e.push(s.last()));
        assert(s =~= d.push(s.last()));
        assert forall|i: int, j: int| 0 <= i < j < r.len() implies (#[trigger] r[i]).seq <= (
        #[trigger] r[j]).seq by {
            if j == r.len() - 1 {
                assert(e.contains(e[i]));
                assert(r[i] == e[i]);
                if e[i] != m {
                    assert(d.contains(e[i]));
                    let k = d.index_of(e[i]);
                    assert(d[k] == e[i]);
                    assert(s[k].seq <= s[s.len() - 1].seq);
                }
            } else {
                assert(r[i] == e[i] && r[j] == e[j]);
            }
        }
        assert(r.to_multiset() =~= s.to_multiset().insert(m));
        assert forall|x: StoredView| r.contains(x) <==> (s.contains(x) || x == m) by {
            if r.contains(x) {
                let k = r.index_of(x);
                if k < e.len() {
                    assert(e[k] == x);
                    assert(e.contains(x));
                    if d.contains(x) {
                        assert(s[d.index_of(x)] == x);
                    }
                } else {
                    assert(s[s.len() - 1] == x);
                }
            }
            if s.contains(x) {
                let k = s.index_of(x);
                if k < d.len() {
                    assert(d[k] == x);
                    assert(e.contains(x));
                    assert(r[e.index_of(x)] == x);
                } else {
                    assert(r[e.len() as int] == x);
                }
            }
            if x == m {
                assert(e.contains(m));
                assert(r[e.index_of(m)] == m);
            }
        }
    } else {
        assert(r == s.push(m));
        assert forall|i: int, j: int| 0 <= i < j < r.len() implies (#[trigger] r[i]).seq <= (
        #[trigger] r[j]).seq by {
            if j == s.len() {
                if i < s.len() - 1 {
                    assert(s[i].seq <= s[s.len() - 1].seq);
                }
            } else {
                assert(r[i] == s[i] && r[j] == s[j]);
            }
        }
        assert forall|x: StoredView| r.contains(x) <==> (s.contains(x) || x == m) by {
            if s.contains(x) {
                assert(r[s.index_of(x)] == x);
            }
            assert(r[s.len() as int] == m);
        }
    }
}

/// Sorting gives the same messages, in order.
pub proof fn lemma_sorted_by_seq(s: Seq<StoredView>)
    ensures
        in_order(sorted_by_seq(s)),
        sorted_by_seq(s).to_multiset() == s.to_multiset(),
        sorted_by_seq(s).len() == s.len(),
        forall|x: StoredView| #[trigger] sorted_by_seq(s).contains(x) <==> s.contains(x),
        in_order(s) ==> sorted_by_seq(s) == s,
    decreases s.len(),
{
    broadcast use vstd::seq_lib::group_to_multiset_ensures;

    if s.len() > 0 {
        let d = s.drop_last();
        lemma_sorted_by_seq(d);
        lemma_insert_by_seq(sorted_by_seq(d), s.last());
        assert(s =~= d.push(s.last()));
        assert forall|x: StoredView| sorted_by_seq(s).contains(x) <==> s.contains(x) by {
            if s.contains(x) {
                let k = s.index_of(x);
                if k < d.len() {
                    assert(d[k] == x);
                }
            }
            if d.contains(x) {
                assert(s[d.index_of(x)] == x);
            }
            assert(s[s.len() - 1] == s.last());
        }
        if in_order(s) {
            assert forall|i: int, j: int| 0 <= i < j < d.len() implies (#[trigger] d[i]).seq <= (
            #[trigger] d[j]).seq by {
                assert(s[i].seq <= s[j].seq);
            }
            if d.len() > 0 {
                assert(s[d.len() - 1].seq <= s[d.len() as int].seq);
            }
        }
    }
}

/// Puts a message behind all those with a sequence number that is not higher.
fn put_in_order(v: &mut Vec<StoredMessage>, m: StoredMessage)
    ensures
        stored_views(final(v)@) == insert_by_seq(stored_views(old(v)@), m@),
{
    let ghost was = v@;
    let ghost all = stored_views(was);
    let mut i: usize = v.len();
    let ghost mut tail: Seq<StoredView> = Seq::empty();
    assert(all.take(all.len() as int) =~= all);
    assert(insert_by_seq(all, m@) =~= insert_by_seq(all.take(i as int), m@) + tail);
    while i > 0 && v[i - 1].seq > m.seq
        invariant
            v@ == was,
            all == stored_views(was),
            i <= was.len(),
            tail == all.skip(i as int),
            insert_by_seq(all, m@) == insert_by_seq(all.take(i as int), m@) + tail,
        decreases i,
    {
        proof {
            let head = all.take(i as int);
            assert(head.last() == was[i - 1]@);
            assert(head.drop_last() =~= all.take(i - 1));
            tail = all.skip(i - 1);
            assert(insert_by_seq(head, m@) == insert_by_seq(all.take(i - 1), m@).push(
                head.last(),
            ));
            assert(insert_by_seq(all, m@) =~= insert_by_seq(all.take(i - 1), m@) + tail);
        }
        i -= 1;
    }
    proof {
        let head = all.take(i as int);
        if i > 0 {
            assert(head.last() == was[i - 1]@);
        }
        assert(insert_by_seq(head, m@) == head.push(m@));
    }
    let ghost mv = m@;
    v.insert(i, m);
    assert(v@ =~= was.insert(i as int, m));
    assert(stored_views(v@) =~= all.take(i as int).push(mv) + tail);
}

/// Puts messages in order of their sequence numbers; equal ones keep their
/// places.
pub fn sort_by_seq(v: Vec<StoredMessage>) -> (r: Vec<StoredMessage>)
    ensures
        stored_views(r@) == sorted_by_seq(stored_views(v@)),
{
    let ghost all = stored_views(v@);
    let mut rest = v;
    let mut reversed: Vec<StoredMessage> = Vec::new();
    while rest.len() > 0
        invariant
            stored_views(rest@) + stored_views(reversed@).reverse() == all,
        decreases rest@.len(),
    {
        let ghost was = rest@;
        let ghost rev = reversed@;
        match rest.pop() {
            Some(m) => {
                reversed.push(m);
                proof {
                    assert(stored_views(was) =~= stored_views(rest@).push(m@));
                    assert(stored_views(reversed@) =~= stored_views(rev).push(m@));
                    assert(stored_views(reversed@).reverse() =~= seq![m@] + stored_views(
                        rev,
                    ).reverse());
                    assert(stored_views(rest@) + stored_views(reversed@).reverse() =~= all);
                }
            },
            None => {},
        }
    }
    assert(stored_views(reversed@).reverse() =~= all);
    let mut out: Vec<StoredMessage> = Vec::new();
    let ghost mut done: int = 0;
    assert(all.take(0) =~= stored_views(out@));
    while reversed.len() > 0
        invariant
            0 <= done <= all.len(),
            reversed@.len() == all.len() - done,
            stored_views(reversed@).reverse() == all.skip(done),
            stored_views(out@) == sorted_by_seq(all.take(done)),
        decreases reversed@.len(),
    {
        let ghost rev = reversed@;
        match reversed.pop() {
            Some(m) => {
                proof {
                    assert(stored_views(rev).reverse()[0] == m@);
                    assert(all.skip(done)[0] == all[done]);
                    assert(all.take(done + 1).drop_last() =~= all.take(done));
                    assert(stored_views(reversed@).reverse() =~= stored_views(rev).reverse().skip(
                        1,
                    ));
                    assert(all.skip(done).skip(1) =~= all.skip(done + 1));
                    done = done + 1;
                }
                put_in_order(&mut out, m);
            },
            None => {},
        }
    }
    assert(all.take(done) =~= all);
    out
}

impl Inbox {
    /// What every inbox keeps: messages in order, none ahead of the highest
    /// assigned number.
    pub open spec fn wf(&self) -> bool {
        &&& self.seen.wf()
        &&& in_order(self@.pending)
        &&& within(self@.pending, self.next_seq)
    }

    /// An inbox that nothing was ever sent to.
    pub fn new() -> (i: Self)
        ensures
            i.wf(),
            i@ == empty_inbox(),
    {
        let i = Inbox { next_seq: 0, pending: Vec::new(), seen: StrSet::new() };
        assert(i@.pending =~= Seq::<StoredView>::empty());
        i
    }

    /// Persists a packet under a key unless it is a retry. Gives the sequence
    /// number of a new one.
    pub fn store(&mut self, key: &str, packet: Packet, max_inbox: usize) -> (r: Option<u64>)
        requires
            old(self).wf(),
            old(self).next_seq < u64::MAX,
        ensures
            final(self).wf(),
            final(self)@ == offered(old(self)@, key@, packet@, max_inbox as nat),
            r == (if old(self)@.seen.contains(key@) {
                None
            } else {
                Some((old(self).next_seq + 1) as u64)
            }),
    {
        let ghost was = self@;
        if !self.seen.insert(key.to_string()) {
            assert(self@.seen =~= was.seen);
            return None;
        }
        self.next_seq = self.next_seq + 1;
        let seq: u64 = self.next_seq;
        let ghost pv = packet@;
        let packet = with_seq(packet, seq);
        self.pending.push(StoredMessage { seq, packet, delivered: false });
        let ghost full = was.pending.push(waiting(pv, seq));
        assert(self@.pending =~= full);
        let ghost mut gone: int = 0;
        let ghost total = self.pending@.len();
        assert(full.skip(0) =~= full);
        while self.pending.len() > max_inbox
            invariant
                full.len() == total,
                self.pending@.len() == total - gone,
                0 <= gone <= total,
                total > max_inbox ==> gone <= total - max_inbox,
                total <= max_inbox ==> gone == 0,
                self@.pending == full.skip(gone),
                self.next_seq == seq,
                self.seen.wf(),
                self.seen@ == was.seen.insert(key@),
            decreases self.pending@.len(),
        {
            let ghost before = self.pending@;
            let _ = self.pending.remove(0);
            assert(self.pending@ =~= before.skip(1));
            assert(self@.pending =~= stored_views(before).skip(1));
            assert(full.skip(gone).skip(1) =~= full.skip(gone + 1));
            proof {
                gone = gone + 1;
            }
        }
        assert(self@.pending =~= newest(full, max_inbox as nat));
        proof {
            assert forall|i: int, j: int| 0 <= i < j < full.len() implies (#[trigger] full[i]).seq
                <= (#[trigger] full[j]).seq by {
                if j < was.pending.len() {
                    assert(was.pending[i].seq <= was.pending[j].seq);
                }
            }
            assert forall|i: int, j: int| 0 <= i < j < self@.pending.len() implies (
            #[trigger] self@.pending[i]).seq <= (#[trigger] self@.pending[j]).seq by {
                assert(self@.pending[i] == full[i + gone]);
                assert(self@.pending[j] == full[j + gone]);
            }
            assert forall|i: int| 0 <= i < self@.pending.len() implies (
            #[trigger] self@.pending[i]).seq <= seq by {
                assert(self@.pending[i] == full[i + gone]);
                if i + gone < was.pending.len() {
                    assert(was.pending[i + gone].seq <= was.next_seq);
                }
            }
        }
        Some(seq)
    }

    /// Marks a message delivered once the recipient acknowledged it, and drops
    /// the delivered ones at the front. Says whether that was news.
    pub fn mark_delivered(&mut self, message_id: &str) -> (changed: bool)
        requires
            old(self).wf(),
        ensures
            final(self).wf(),
            final(self)@ == acknowledged(old(self)@, message_id@),
            changed == awaits_ack(old(self)@.pending, message_id@),
    {
        let ghost was = self@;
        let ghost id = message_id@;
        let mut changed = false;
        let mut i: usize = 0;
        let n: usize = self.pending.len();
        while i < n
            invariant
                n == was.pending.len(),
                i <= n,
                id == message_id@,
                self.pending@.len() == n,
                self.next_seq == was.next_seq,
                self.seen == old(self).seen,
                forall|j: int|
                    0 <= j < i ==> (#[trigger] self.pending@[j])@ == marked(was.pending[j], id),
                forall|j: int| i <= j < n ==> (#[trigger] self.pending@[j])@ == was.pending[j],
                changed == exists|j: int|
                    0 <= j < i && (#[trigger] was.pending[j]).packet.message_id() == Some(id)
                        && !was.pending[j].delivered,
            decreases n - i,
        {
            if message_is(&self.pending[i].packet, message_id) && !self.pending[i].delivered {
                self.pending[i].delivered = true;
                changed = true;
                assert(was.pending[i as int].packet.message_id() == Some(id));
            }
            assert(self.pending@[i as int]@ == marked(was.pending[i as int], id));
            i += 1;
        }
        let ghost all = all_marked(was.pending, id);
        assert(self@.pending =~= all);
        let ghost mut gone: int = 0;
        assert(all.skip(0) =~= all);
        while self.pending.len() > 0 && self.pending[0].delivered
            invariant
                0 <= gone <= all.len(),
                self@.pending == all.skip(gone),
                drop_delivered(all) == drop_delivered(all.skip(gone)),
                self.next_seq == was.next_seq,
                self.seen == old(self).seen,
            decreases self.pending@.len(),
        {
            let ghost before = self.pending@;
            let _ = self.pending.remove(0);
            assert(self.pending@ =~= before.skip(1));
            assert(self@.pending =~= stored_views(before).skip(1));
            assert(all.skip(gone).skip(1) =~= all.skip(gone + 1));
            assert(all.skip(gone)[0] == before[0]@);
            proof {
                gone = gone + 1;
            }
        }
        assert(all.skip(gone).len() > 0 ==> all.skip(gone)[0] == self.pending@[0]@);
        proof {
            assert forall|i: int, j: int| 0 <= i < j < self@.pending.len() implies (
            #[trigger] self@.pending[i]).seq <= (#[trigger] self@.pending[j]).seq by {
                assert(self@.pending[i].seq == was.pending[i + gone].seq);
                assert(self@.pending[j].seq == was.pending[j + gone].seq);
            }
            assert forall|i: int| 0 <= i < self@.pending.len() implies (
            #[trigger] self@.pending[i]).seq <= self.next_seq by {
                assert(self@.pending[i].seq == was.pending[i + gone].seq);
            }
        }
        changed
    }

    /// What a client that has seen everything up to `after` still needs: the
    /// packets, and the sequence number of the last of them (`after` where
    /// there is none).
    pub fn replay(&self, after: u64) -> (r: (Vec<Packet>, u64))
        ensures
            packet_views((r.0)@) == replay_of(self@, after).map_values(|m: StoredView| m.packet),
            r.1 == (if replay_of(self@, after).len() == 0 {
                after
            } else {
                replay_of(self@, after).last().seq
            }),
    {
        let ghost all = self@.pending;
        let ghost pred = needed(after);
        let mut out: Vec<Packet> = Vec::new();
        let mut latest: u64 = after;
        let mut i: usize = 0;
        proof {
            reveal(Seq::filter);
            assert(all.take(0).filter(pred) =~= Seq::<StoredView>::empty());
        }
        while i < self.pending.len()
            invariant
                all == self@.pending,
                pred == needed(after),
                i <= all.len(),
                packet_views(out@) == all.take(i as int).filter(pred).map_values(
                    |m: StoredView| m.packet,
                ),
                latest == (if all.take(i as int).filter(pred).len() == 0 {
                    after
                } else {
                    all.take(i as int).filter(pred).last().seq
                }),
            decreases all.len() - i,
        {
            let ghost was = out@;
            proof {
                lemma_filter_step(all, pred, i as int);
                assert(all[i as int] == self.pending@[i as int]@);
            }
            if !self.pending[i].delivered && self.pending[i].seq > after {
                out.push(self.pending[i].packet.clone());
                latest = self.pending[i].seq;
                assert(packet_views(out@) =~= packet_views(was).push(all[i as int].packet));
            }
            assert(packet_views(out@) =~= all.take(i as int + 1).filter(pred).map_values(
                |m: StoredView| m.packet,
            ));
            i += 1;
        }
        assert(all.take(all.len() as int) =~= all);
        (out, latest)
    }

    /// The number of messages that are not delivered.
    pub fn pending_count(&self) -> (n: usize)
        ensures
            n == self@.pending.filter(undelivered()).len(),
    {
        let ghost all = self@.pending;
        let ghost pred = undelivered();
        let mut n: usize = 0;
        let mut i: usize = 0;
        proof {
            reveal(Seq::filter);
        }
        while i < self.pending.len()
            invariant
                all == self@.pending,
                pred == undelivered(),
                i <= all.len(),
                n <= i,
                n == all.take(i as int).filter(pred).len(),
            decreases all.len() - i,
        {
            proof {
                lemma_filter_step(all, pred, i as int);
                assert(all[i as int] == self.pending@[i as int]@);
            }
            if !self.pending[i].delivered {
                n += 1;
            }
            i += 1;
        }
        assert(all.take(all.len() as int) =~= all);
        n
    }
}

/// The chat messages that are not delivered, in order.
pub open spec fn chats_of(s: Seq<StoredView>) -> Seq<ChatMessageView>
    decreases s.len(),
{
    if s.len() == 0 {
        Seq::empty()
    } else {
        let rest = chats_of(s.drop_last());
        match s.last().packet {
            PacketView::ChatMessage(m) => if s.last().delivered {
                rest
            } else {
                rest.push(m)
            },
            _ => rest,
        }
    }
}

/// The group messages that are not delivered, in order.
pub open spec fn groups_of(s: Seq<StoredView>) -> Seq<GroupMessageView>
    decreases s.len(),
{
    if s.len() == 0 {
        Seq::empty()
    } else {
        let rest = groups_of(s.drop_last());
        match s.last().packet {
            PacketView::GroupMessage(m) => if s.last().delivered {
                rest
            } else {
                rest.push(m)
            },
            _ => rest,
        }
    }
}

/// The greater of two numbers.
pub open spec fn higher(a: u64, b: u64) -> u64 {
    if a >= b {
        a
    } else {
        b
    }
}

/// A packet that waits under the number it came with.
pub open spec fn waiting_as_is(packet: PacketView) -> StoredView {
    StoredView { seq: packet.seq(), packet, delivered: false }
}

/// The inbox once a message with an assigned number came in from elsewhere,
/// unless its key was seen before.
pub open spec fn taken_in(v: InboxView, key: Seq<char>, packet: PacketView) -> InboxView {
    if v.seen.contains(key) {
        v
    } else {
        InboxView {
            next_seq: higher(v.next_seq, packet.seq()),
            pending: v.pending.push(waiting_as_is(packet)),
            seen: v.seen.insert(key),
        }
    }
}

/// The inbox once some chat messages came in.
pub open spec fn chats_taken_in(v: InboxView, ms: Seq<ChatMessageView>) -> InboxView
    decreases ms.len(),
{
    if ms.len() == 0 {
        v
    } else {
        taken_in(
            chats_taken_in(v, ms.drop_last()),
            ms.last().message_id,
            PacketView::ChatMessage(ms.last()),
        )
    }
}

/// The inbox once some group messages came in.
pub open spec fn groups_taken_in(v: InboxView, ms: Seq<GroupMessageView>) -> InboxView
    decreases ms.len(),
{
    if ms.len() == 0 {
        v
    } else {
        taken_in(
            groups_taken_in(v, ms.drop_last()),
            ms.last().message_id + ":"@ + ms.last().to_user,
            PacketView::GroupMessage(ms.last()),
        )
    }
}

/// Those of some chat messages whose keys are new to an inbox.
pub open spec fn chats_new(v: InboxView, ms: Seq<ChatMessageView>) -> Seq<PacketView>
    decreases ms.len(),
{
    if ms.len() == 0 {
        Seq::empty()
    } else if chats_taken_in(v, ms.drop_last()).seen.contains(ms.last().message_id) {
        chats_new(v, ms.drop_last())
    } else {
        chats_new(v, ms.drop_last()).push(PacketView::ChatMessage(ms.last()))
    }
}

/// Those of some group messages whose keys are new to an inbox.
pub open spec fn groups_new(v: InboxView, ms: Seq<GroupMessageView>) -> Seq<PacketView>
    decreases ms.len(),
{
    if ms.len() == 0 {
        Seq::empty()
    } else if groups_taken_in(v, ms.drop_last()).seen.contains(
        ms.last().message_id + ":"@ + ms.last().to_user,
    ) {
        groups_new(v, ms.drop_last())
    } else {
        groups_new(v, ms.drop_last()).push(PacketView::GroupMessage(ms.last()))
    }
}

/// The messages that an inbox takes in of a handoff.
pub open spec fn handoff_new(v: InboxView, h: PeerHandoffUserView) -> Seq<PacketView> {
    chats_new(v, h.chats) + groups_new(chats_taken_in(v, h.chats), h.groups)
}

/// The inbox with the keys of a handoff added and its number raised.
pub open spec fn keys_taken_in(v: InboxView, next_seq: u64, seen: Seq<Seq<char>>) -> InboxView {
    InboxView {
        next_seq: higher(v.next_seq, next_seq),
        pending: v.pending,
        seen: v.seen.union(seen.to_set()),
    }
}

/// The inbox once a handoff was merged: first the chat messages and the group
/// messages whose keys this inbox has not seen, then the keys that the former
/// home had seen; in order in the end.
pub open spec fn handoff_merged(v: InboxView, h: PeerHandoffUserView) -> InboxView {
    let taken = groups_taken_in(chats_taken_in(v, h.chats), h.groups);
    let r = keys_taken_in(taken, h.next_seq, h.seen);
    InboxView { pending: sorted_by_seq(r.pending), ..r }
}

impl Inbox {
    /// No message is ahead of the highest assigned number.
    spec fn bounded(&self) -> bool {
        &&& self.seen.wf()
        &&& within(self@.pending, self.next_seq)
    }

    /// Takes in a message with an assigned number, unless its key was seen; says
    /// whether it was taken in.
    fn take_in(&mut self, key: String, packet: Packet) -> (fresh: bool)
        requires
            old(self).bounded(),
        ensures
            final(self).bounded(),
            final(self)@ == taken_in(old(self)@, key@, packet@),
            fresh == !old(self)@.seen.contains(key@),
    {
        let ghost was = self@;
        let ghost pv = packet@;
        let seq: u64 = stored_seq_of(&packet);
        if !self.seen.insert(key) {
            assert(self@.seen =~= was.seen);
            return false;
        }
        if seq > self.next_seq {
            self.next_seq = seq;
        }
        self.pending.push(StoredMessage { seq, packet, delivered: false });
        assert(self@.pending =~= was.pending.push(
            StoredView { seq, packet: pv, delivered: false },
        ));
        assert forall|i: int| 0 <= i < self@.pending.len() implies (
        #[trigger] self@.pending[i]).seq <= self.next_seq by {
            if i < was.pending.len() {
                assert(was.pending[i].seq <= was.next_seq);
            }
        }
        true
    }

    /// Merges an inbox that was handed over by a former home node; gives the
    /// messages that were new. Merging the same handoff again changes nothing.
    pub fn merge_handoff(&mut self, h: PeerHandoffUser) -> (fresh: Vec<Packet>)
        requires
            old(self).wf(),
        ensures
            final(self).wf(),
            final(self)@ == handoff_merged(old(self)@, h@),
            packet_views(fresh@) == handoff_new(old(self)@, h@),
    {
        let mut fresh: Vec<Packet> = Vec::new();
        assert(packet_views(fresh@) =~= Seq::<PacketView>::empty());
        let ghost was = self@;
        let ghost hv = h@;
        let mut i: usize = 0;
        assert(hv.chats.take(0) =~= Seq::<ChatMessageView>::empty());
        while i < h.chats.len()
            invariant
                hv == h@,
                i <= h.chats@.len(),
                self.bounded(),
                self@ == chats_taken_in(was, hv.chats.take(i as int)),
                packet_views(fresh@) == chats_new(was, hv.chats.take(i as int)),
            decreases h.chats@.len() - i,
        {
            let m = h.chats[i].clone();
            proof {
                let t = hv.chats.take(i as int + 1);
                assert(t.drop_last() =~= hv.chats.take(i as int));
                assert(t.last() == m@);
            }
            let key = m.message_id.clone();
            let copy = Packet::ChatMessage(m.clone());
            if self.take_in(key, Packet::ChatMessage(m)) {
                let ghost before = packet_views(fresh@);
                fresh.push(copy);
                assert(packet_views(fresh@) =~= before.push(copy@));
            }
            i += 1;
        }
        assert(hv.chats.take(i as int) =~= hv.chats);
        let ghost with_chats = self@;
        let ghost chats_fresh = packet_views(fresh@);
        let mut i: usize = 0;
        assert(hv.groups.take(0) =~= Seq::<GroupMessageView>::empty());
        assert(chats_fresh + groups_new(with_chats, hv.groups.take(0)) =~= chats_fresh);
        while i < h.groups.len()
            invariant
                hv == h@,
                i <= h.groups@.len(),
                self.bounded(),
                self@ == groups_taken_in(with_chats, hv.groups.take(i as int)),
                packet_views(fresh@) == chats_fresh + groups_new(
                    with_chats,
                    hv.groups.take(i as int),
                ),
            decreases h.groups@.len() - i,
        {
            let m = h.groups[i].clone();
            proof {
                let t = hv.groups.take(i as int + 1);
                assert(t.drop_last() =~= hv.groups.take(i as int));
                assert(t.last() == m@);
            }
            let key = group_key(&m);
            let copy = Packet::GroupMessage(m.clone());
            if self.take_in(key, Packet::GroupMessage(m)) {
                let ghost before = packet_views(fresh@);
                fresh.push(copy);
                assert(packet_views(fresh@) =~= before.push(copy@));
                assert(packet_views(fresh@) =~= chats_fresh + groups_new(
                    with_chats,
                    hv.groups.take(i as int + 1),
                ));
            }
            i += 1;
        }
        assert(hv.groups.take(i as int) =~= hv.groups);
        let ghost taken = self@;
        if h.next_seq > self.next_seq {
            self.next_seq = h.next_seq;
        }
        let mut i: usize = 0;
        assert(hv.seen.take(0).to_set() =~= Set::<Seq<char>>::empty());
        assert(self@ =~= keys_taken_in(taken, hv.next_seq, hv.seen.take(0)));
        while i < h.seen.len()
            invariant
                hv == h@,
                i <= h.seen@.len(),
                self.bounded(),
                self@ == keys_taken_in(taken, hv.next_seq, hv.seen.take(i as int)),
            decreases h.seen@.len() - i,
        {
            let ghost before = self@;
            let _ = self.seen.insert(h.seen[i].clone());
            proof {
                let a = hv.seen.take(i as int);
                let b = hv.seen.take(i as int + 1);
                let x = hv.seen[i as int];
                assert(b =~= a.push(x));
                assert forall|q: Seq<char>| b.contains(q) <==> (a.contains(q) || q == x) by {
                    if a.contains(q) {
                        assert(b[a.index_of(q)] == q);
                    }
                    assert(b[i as int] == x);
                }
                assert(self@.seen =~= before.seen.insert(x));
                assert(self@.seen =~= taken.seen.union(b.to_set()));
                assert(self@ =~= keys_taken_in(taken, hv.next_seq, b));
            }
            i += 1;
        }
        assert(hv.seen.take(i as int) =~= hv.seen);
        let ghost unsorted = self@.pending;
        let mut pending: Vec<StoredMessage> = Vec::new();
        std::mem::swap(&mut pending, &mut self.pending);
        self.pending = sort_by_seq(pending);
        proof {
            lemma_sorted_by_seq(unsorted);
            assert forall|i: int| 0 <= i < self@.pending.len() implies (
            #[trigger] self@.pending[i]).seq <= self.next_seq by {
                assert(sorted_by_seq(unsorted).contains(self@.pending[i]));
                assert(unsorted.contains(self@.pending[i]));
            }
        }
        fresh
    }

    /// What a new home node needs of this inbox.
    pub fn build_handoff(&self, user: &str) -> (h: PeerHandoffUser)
        requires
            self.wf(),
        ensures
            h@.user_id == user@,
            h@.next_seq == self.next_seq,
            h@.seen.no_duplicates(),
            h@.seen.to_set() == self@.seen,
            h@.chats == chats_of(self@.pending),
            h@.groups == groups_of(self@.pending),
    {
        let ghost all = self@.pending;
        let mut chats: Vec<ChatMessage> = Vec::new();
        let mut groups: Vec<GroupMessage> = Vec::new();
        let mut i: usize = 0;
        assert(all.take(0) =~= Seq::<StoredView>::empty());
        while i < self.pending.len()
            invariant
                all == self@.pending,
                i <= all.len(),
                chat_views(chats@) == chats_of(all.take(i as int)),
                group_views(groups@) == groups_of(all.take(i as int)),
            decreases all.len() - i,
        {
            let ghost c = chats@;
            let ghost g = groups@;
            proof {
                let t = all.take(i as int + 1);
                assert(t.drop_last() =~= all.take(i as int));
                assert(t.last() == self.pending@[i as int]@);
            }
            if !self.pending[i].delivered {
                match &self.pending[i].packet {
                    Packet::ChatMessage(m) => {
                        chats.push(m.clone());
                        assert(chat_views(chats@) =~= chat_views(c).push(m@));
                    },
                    Packet::GroupMessage(m) => {
                        groups.push(m.clone());
                        assert(group_views(groups@) =~= group_views(g).push(m@));
                    },
                    _ => {},
                }
            }
            i += 1;
        }
        assert(all.take(i as int) =~= all);
        PeerHandoffUser {
            user_id: user.to_string(),
            next_seq: self.next_seq,
            seen: self.seen.to_vec(),
            chats,
            groups,
        }
    }
}

/// The inbox once a message with an assigned number was put in its place,
/// unless its key was seen before.
pub open spec fn filed_in(v: InboxView, key: Seq<char>, packet: PacketView) -> InboxView {
    if v.seen.contains(key) {
        v
    } else {
        InboxView {
            next_seq: higher(v.next_seq, packet.seq()),
            pending: insert_by_seq(v.pending, waiting_as_is(packet)),
            seen: v.seen.insert(key),
        }
    }
}

/// Which messages are other ones than the given one.
pub open spec fn other_than(message_id: Seq<char>) -> spec_fn(StoredView) -> bool {
    |m: StoredView| m.packet.message_id() != Some(message_id)
}

/// Leaving messages out keeps the order.
pub proof fn lemma_filter_in_order(s: Seq<StoredView>, p: spec_fn(StoredView) -> bool)
    requires
        in_order(s),
    ensures
        in_order(s.filter(p)),
        forall|x: StoredView| #[trigger] s.filter(p).contains(x) <==> s.contains(x) && p(x),
    decreases s.len(),
{
    reveal(Seq::filter);
    if s.len() > 0 {
        let d = s.drop_last();
        assert forall|i: int, j: int| 0 <= i < j < d.len() implies (#[trigger] d[i]).seq <= (
        #[trigger] d[j]).seq by {
            assert(s[i].seq <= s[j].seq);
        }
        lemma_filter_in_order(d, p);
        let e = d.filter(p);
        let f = s.filter(p);
        assert forall|x: StoredView| #[trigger] f.contains(x) <==> s.contains(x) && p(x) by {
            if f.contains(x) {
                let k = f.index_of(x);
                if k < e.len() {
                    assert(e[k] == x);
                    assert(e.contains(x));
                    assert(s[d.index_of(x)] == x);
                } else {
                    assert(s[s.len() - 1] == x);
                }
            }
            if s.contains(x) && p(x) {
                let k = s.index_of(x);
                if k < d.len() {
                    assert(d[k] == x);
                    assert(e.contains(x));
                    assert(f[e.index_of(x)] == x);
                } else {
                    assert(f[e.len() as int] == x);
                }
            }
        }
        assert forall|i: int, j: int| 0 <= i < j < f.len() implies (#[trigger] f[i]).seq <= (
        #[trigger] f[j]).seq by {
            if j < e.len() {
                assert(f[i] == e[i] && f[j] == e[j]);
            } else {
                assert(f[i] == e[i]);
                assert(e.contains(e[i]));
                let k = d.index_of(e[i]);
                assert(s[k].seq <= s[s.len() - 1].seq);
            }
        }
    }
}

impl Inbox {
    /// Puts a message with an assigned number in its place, unless its key was
    /// seen.
    pub fn file_in(&mut self, key: String, packet: Packet)
        requires
            old(self).wf(),
        ensures
            final(self).wf(),
            final(self)@ == filed_in(old(self)@, key@, packet@),
    {
        let ghost was = self@;
        let ghost pv = packet@;
        let seq: u64 = stored_seq_of(&packet);
        if !self.seen.insert(key) {
            assert(self@.seen =~= was.seen);
            return ;
        }
        if seq > self.next_seq {
            self.next_seq = seq;
        }
        put_in_order(&mut self.pending, StoredMessage { seq, packet, delivered: false });
        proof {
            lemma_insert_by_seq(was.pending, waiting_as_is(pv));
            assert forall|i: int| 0 <= i < self@.pending.len() implies (
            #[trigger] self@.pending[i]).seq <= self.next_seq by {
                assert(insert_by_seq(was.pending, waiting_as_is(pv)).contains(self@.pending[i]));
            }
        }
    }

    /// Drops a message.
    pub fn forget(&mut self, message_id: &str)
        requires
            old(self).wf(),
        ensures
            final(self).wf(),
            final(self)@ == (InboxView {
                pending: old(self)@.pending.filter(other_than(message_id@)),
                ..old(self)@
            }),
    {
        let ghost was = self@;
        let ghost all = was.pending;
        let ghost pred = other_than(message_id@);
        let ghost mut done: int = 0;
        let mut i: usize = 0;
        proof {
            reveal(Seq::filter);
            assert(all.take(0).filter(pred) =~= Seq::<StoredView>::empty());
            assert(all.take(0).filter(pred) + all.skip(0) =~= all);
        }
        while i < self.pending.len()
            invariant
                pred == other_than(message_id@),
                0 <= done <= all.len(),
                i == all.take(done).filter(pred).len(),
                i <= self.pending@.len(),
                self@.pending == all.take(done).filter(pred) + all.skip(done),
                self.next_seq == was.next_seq,
                self.seen == old(self).seen,
            decreases all.len() - done,
        {
            let ghost before = self.pending@;
            let ghost kept = all.take(done).filter(pred);
            proof {
                lemma_filter_step(all, pred, done);
                assert(stored_views(before)[i as int] == all[done]);
                assert(all.skip(done) =~= seq![all[done]] + all.skip(done + 1));
            }
            if message_is(&self.pending[i].packet, message_id) {
                let _ = self.pending.remove(i);
                assert(self.pending@ =~= before.remove(i as int));
                assert(self@.pending =~= stored_views(before).remove(i as int));
                assert(stored_views(before) =~= kept + all.skip(done));
                assert((kept + all.skip(done)).remove(i as int) =~= kept + all.skip(done + 1));
            } else {
                i += 1;
                assert(self@.pending =~= kept.push(all[done]) + all.skip(done + 1));
            }
            proof {
                done = done + 1;
            }
        }
        proof {
            assert(all.skip(done).len() == 0);
            assert(all.take(done) =~= all);
            assert(self@.pending =~= all.filter(pred));
            lemma_filter_in_order(all, pred);
            assert forall|k: int| 0 <= k < self@.pending.len() implies (
            #[trigger] self@.pending[k]).seq <= self.next_seq by {
                assert(all.filter(pred).contains(self@.pending[k]));
                assert(all.contains(self@.pending[k]));
            }
        }
    }
}

/// Storing the same key again changes nothing: retries are accepted once.
pub proof fn law_retry_changes_nothing(
    v: InboxView,
    key: Seq<char>,
    packet: PacketView,
    retry: PacketView,
    max: nat,
)
    ensures
        offered(offered(v, key, packet, max), key, retry, max) == offered(v, key, packet, max),
{
}

/// A new message gets a number above that of every message in the inbox, and
/// numbers never fall.
pub proof fn law_numbers_rise(v: InboxView, key: Seq<char>, packet: PacketView, max: nat)
    requires
        v.next_seq < u64::MAX,
        within(v.pending, v.next_seq),
    ensures
        offered(v, key, packet, max).next_seq >= v.next_seq,
        !v.seen.contains(key) ==> forall|i: int|
            0 <= i < v.pending.len() ==> (#[trigger] v.pending[i]).seq < offered(
                v,
                key,
                packet,
                max,
            ).next_seq,
{
}

/// What was just stored is what a client that has seen everything before it
/// still needs last.
pub proof fn law_stored_is_replayed(
    v: InboxView,
    key: Seq<char>,
    packet: PacketView,
    max: nat,
    after: u64,
)
    requires
        v.next_seq < u64::MAX,
        !v.seen.contains(key),
        max > 0,
        after <= v.next_seq,
    ensures
        ({
            let r = replay_of(offered(v, key, packet, max), after);
            &&& r.len() > 0
            &&& r.last() == waiting(packet, (v.next_seq + 1) as u64)
        }),
{
    reveal(Seq::filter);
    let p = offered(v, key, packet, max).pending;
    assert(p.last() == waiting(packet, (v.next_seq + 1) as u64));
}

/// Dropping delivered messages from the front leaves the replay as it was.
proof fn lemma_drop_delivered(s: Seq<StoredView>, after: u64)
    ensures
        drop_delivered(s).filter(needed(after)) == s.filter(needed(after)),
    decreases s.len(),
{
    if s.len() > 0 && s[0].delivered {
        let rest = s.skip(1);
        lemma_drop_delivered(rest, after);
        assert(s =~= seq![s[0]] + rest);
        rest.lemma_filter_prepend(s[0], needed(after));
    }
}

/// Which messages are needed and carry another message than the given one.
pub open spec fn needed_besides(after: u64, message_id: Seq<char>) -> spec_fn(StoredView) -> bool {
    |m: StoredView| needed(after)(m) && m.packet.message_id() != Some(message_id)
}

/// Marking a message delivered takes it, and nothing else, out of the replay.
proof fn lemma_all_marked(s: Seq<StoredView>, message_id: Seq<char>, after: u64)
    ensures
        all_marked(s, message_id).filter(needed(after)) == s.filter(
            needed_besides(after, message_id),
        ),
    decreases s.len(),
{
    reveal(Seq::filter);
    if s.len() > 0 {
        lemma_all_marked(s.drop_last(), message_id, after);
        assert(all_marked(s, message_id).drop_last() =~= all_marked(s.drop_last(), message_id));
    }
}

/// An acknowledged message is not replayed again; every other message still
/// is.
pub proof fn law_acknowledgement_ends_replay(v: InboxView, message_id: Seq<char>, after: u64)
    ensures
        replay_of(acknowledged(v, message_id), after) == v.pending.filter(
            needed_besides(after, message_id),
        ),
{
    lemma_drop_delivered(all_marked(v.pending, message_id), after);
    lemma_all_marked(v.pending, message_id, after);
}

/// Acknowledging twice is acknowledging once.
pub proof fn law_second_acknowledgement_is_no_news(v: InboxView, message_id: Seq<char>)
    ensures
        !awaits_ack(acknowledged(v, message_id).pending, message_id),
{
    let s = all_marked(v.pending, message_id);
    lemma_drop_is_suffix(s);
    let d = drop_delivered(s);
    assert forall|i: int| 0 <= i < d.len() implies !((#[trigger] d[i]).packet.message_id()
        == Some(message_id) && !d[i].delivered) by {
        assert(d[i] == s[i + (s.len() - d.len())]);
    }
}

/// Dropping from the front leaves the end.
proof fn lemma_drop_is_suffix(s: Seq<StoredView>)
    ensures
        drop_delivered(s).len() <= s.len(),
        drop_delivered(s) == s.skip(s.len() - drop_delivered(s).len()),
    decreases s.len(),
{
    if s.len() > 0 && s[0].delivered {
        lemma_drop_is_suffix(s.skip(1));
        let d = drop_delivered(s);
        assert(s.skip(1).skip(s.len() - 1 - d.len()) =~= s.skip(s.len() - d.len()));
    } else {
        assert(s.skip(0) =~= s);
    }
}

/// Taking in messages whose keys were all seen changes nothing.
proof fn lemma_nothing_new(
    v: InboxView,
    chats: Seq<ChatMessageView>,
    groups: Seq<GroupMessageView>,
)
    ensures
        (forall|i: int|
            0 <= i < chats.len() ==> v.seen.contains((#[trigger] chats[i]).message_id))
            ==> chats_taken_in(v, chats) == v,
        (forall|i: int|
            0 <= i < groups.len() ==> v.seen.contains(
                (#[trigger] groups[i]).message_id + ":"@ + groups[i].to_user,
            )) ==> groups_taken_in(v, groups) == v,
    decreases chats.len() + groups.len(),
{
    if chats.len() > 0 {
        lemma_nothing_new(v, chats.drop_last(), Seq::empty());
    }
    if groups.len() > 0 {
        lemma_nothing_new(v, Seq::empty(), groups.drop_last());
    }
}

/// What a handoff does to the keys and the number.
proof fn lemma_taken_in(
    v: InboxView,
    chats: Seq<ChatMessageView>,
    groups: Seq<GroupMessageView>,
)
    ensures
        v.seen.subset_of(chats_taken_in(v, chats).seen),
        v.seen.subset_of(groups_taken_in(v, groups).seen),
        forall|i: int|
            0 <= i < chats.len() ==> chats_taken_in(v, chats).seen.contains(
                (#[trigger] chats[i]).message_id,
            ),
        forall|i: int|
            0 <= i < groups.len() ==> groups_taken_in(v, groups).seen.contains(
                (#[trigger] groups[i]).message_id + ":"@ + groups[i].to_user,
            ),
        chats_taken_in(v, chats).next_seq >= v.next_seq,
        groups_taken_in(v, groups).next_seq >= v.next_seq,
    decreases chats.len() + groups.len(),
{
    if chats.len() > 0 {
        let d = chats.drop_last();
        lemma_taken_in(v, d, Seq::empty());
        assert forall|i: int| 0 <= i < chats.len() implies chats_taken_in(v, chats).seen.contains(
            (#[trigger] chats[i]).message_id,
        ) by {
            if i < d.len() {
                assert(d[i] == chats[i]);
            }
        }
    }
    if groups.len() > 0 {
        let d = groups.drop_last();
        lemma_taken_in(v, Seq::empty(), d);
        assert forall|i: int| 0 <= i < groups.len() implies groups_taken_in(
            v,
            groups,
        ).seen.contains((#[trigger] groups[i]).message_id + ":"@ + groups[i].to_user) by {
            if i < d.len() {
                assert(d[i] == groups[i]);
            }
        }
    }
}

/// Merging the same handoff again changes nothing, and the number never falls.
pub proof fn law_handoff_is_idempotent(v: InboxView, h: PeerHandoffUserView)
    ensures
        handoff_merged(handoff_merged(v, h), h) == handoff_merged(v, h),
        handoff_merged(v, h).next_seq >= v.next_seq,
        handoff_merged(v, h).next_seq >= h.next_seq,
        v.seen.subset_of(handoff_merged(v, h).seen),
        h.seen.to_set().subset_of(handoff_merged(v, h).seen),
{
    let c = chats_taken_in(v, h.chats);
    let g = groups_taken_in(c, h.groups);
    let k = keys_taken_in(g, h.next_seq, h.seen);
    lemma_taken_in(v, h.chats, h.groups);
    lemma_taken_in(c, h.chats, h.groups);
    lemma_sorted_by_seq(k.pending);
    let once = handoff_merged(v, h);
    assert forall|i: int| 0 <= i < h.chats.len() implies once.seen.contains(
        (#[trigger] h.chats[i]).message_id,
    ) by {
        assert(c.seen.contains(h.chats[i].message_id));
    }
    lemma_nothing_new(once, h.chats, h.groups);
    let k2 = keys_taken_in(once, h.next_seq, h.seen);
    assert(k2.seen =~= once.seen);
    assert(k2 =~= once);
    lemma_sorted_by_seq(once.pending);
}

/// Whether the message at `i` is the first of its key.
pub open spec fn first_of_key(keys: Seq<Seq<char>>, i: int) -> bool {
    forall|j: int| 0 <= j < i ==> #[trigger] keys[j] != keys[i]
}

/// The keys of chat messages.
pub open spec fn chat_keys(chats: Seq<ChatMessageView>) -> Seq<Seq<char>> {
    Seq::new(chats.len(), |i: int| chats[i].message_id)
}

/// The keys of group messages.
pub open spec fn group_keys(groups: Seq<GroupMessageView>) -> Seq<Seq<char>> {
    Seq::new(groups.len(), |i: int| groups[i].message_id + ":"@ + groups[i].to_user)
}

/// Chat messages as they wait to be delivered.
pub open spec fn chats_waiting(chats: Seq<ChatMessageView>) -> Seq<StoredView> {
    Seq::new(chats.len(), |i: int| waiting_as_is(PacketView::ChatMessage(chats[i])))
}

/// Group messages as they wait to be delivered.
pub open spec fn groups_waiting(groups: Seq<GroupMessageView>) -> Seq<StoredView> {
    Seq::new(groups.len(), |i: int| waiting_as_is(PacketView::GroupMessage(groups[i])))
}

/// What was pending stays pending through a handoff, and a handed over message
/// ends up pending if this inbox had not seen its key, whatever the former home
/// had seen.
pub proof fn law_handoff_keeps_messages(v: InboxView, h: PeerHandoffUserView)
    ensures
        forall|x: StoredView|
            v.pending.contains(x) ==> #[trigger] handoff_merged(v, h).pending.contains(x),
        forall|i: int|
            0 <= i < h.chats.len() && first_of_key(chat_keys(h.chats), i) && !v.seen.contains(
                h.chats[i].message_id,
            ) ==> #[trigger] handoff_merged(v, h).pending.contains(
                waiting_as_is(PacketView::ChatMessage(h.chats[i])),
            ),
        forall|i: int|
            0 <= i < h.groups.len() && first_of_key(group_keys(h.groups), i) && !v.seen.contains(
                group_keys(h.groups)[i],
            ) && !chat_keys(h.chats).contains(group_keys(h.groups)[i])
                ==> #[trigger] handoff_merged(v, h).pending.contains(
                waiting_as_is(PacketView::GroupMessage(h.groups[i])),
            ),
{
    let c = chats_taken_in(v, h.chats);
    let g = groups_taken_in(c, h.groups);
    lemma_taking_in_keeps(v, h.chats, Seq::empty());
    lemma_taking_in_keeps(c, Seq::empty(), h.groups);
    lemma_sorted_by_seq(g.pending);
    assert forall|i: int|
        0 <= i < h.groups.len() && first_of_key(group_keys(h.groups), i) && !v.seen.contains(
            group_keys(h.groups)[i],
        ) && !chat_keys(h.chats).contains(
            group_keys(h.groups)[i],
        ) implies #[trigger] handoff_merged(v, h).pending.contains(
        waiting_as_is(PacketView::GroupMessage(h.groups[i])),
    ) by {
        assert(!c.seen.contains(group_keys(h.groups)[i]));
        assert(g.pending.contains(waiting_as_is(PacketView::GroupMessage(h.groups[i]))));
    }
}

/// Messages as they wait to be delivered.
pub open spec fn all_waiting(packets: Seq<PacketView>) -> Seq<StoredView> {
    Seq::new(packets.len(), |i: int| waiting_as_is(packets[i]))
}

/// What a handoff adds to an inbox is what the inbox takes in of it.
pub proof fn law_handoff_adds_what_is_new(v: InboxView, h: PeerHandoffUserView)
    ensures
        handoff_merged(v, h).pending == sorted_by_seq(v.pending + all_waiting(handoff_new(v, h))),
{
    let c = chats_taken_in(v, h.chats);
    lemma_chats_add_what_is_new(v, h.chats);
    lemma_groups_add_what_is_new(c, h.groups);
    assert(v.pending + all_waiting(handoff_new(v, h)) =~= v.pending + all_waiting(
        chats_new(v, h.chats),
    ) + all_waiting(groups_new(c, h.groups)));
}

/// What chat messages add to an inbox is what is new of them.
proof fn lemma_chats_add_what_is_new(v: InboxView, ms: Seq<ChatMessageView>)
    ensures
        chats_taken_in(v, ms).pending == v.pending + all_waiting(chats_new(v, ms)),
    decreases ms.len(),
{
    if ms.len() > 0 {
        lemma_chats_add_what_is_new(v, ms.drop_last());
    }
    assert(chats_taken_in(v, ms).pending =~= v.pending + all_waiting(chats_new(v, ms)));
}

/// What group messages add to an inbox is what is new of them.
proof fn lemma_groups_add_what_is_new(v: InboxView, ms: Seq<GroupMessageView>)
    ensures
        groups_taken_in(v, ms).pending == v.pending + all_waiting(groups_new(v, ms)),
    decreases ms.len(),
{
    if ms.len() > 0 {
        lemma_groups_add_what_is_new(v, ms.drop_last());
    }
    assert(groups_taken_in(v, ms).pending =~= v.pending + all_waiting(groups_new(v, ms)));
}

/// An inbox that changes its home node loses nothing that was not delivered: a
/// new home that has seen none of the messages, merging what the former home
/// hands over, has each of them pending once, beside its own, in order.
pub proof fn law_handoff_moves_the_inbox(
    former: InboxView,
    h: PeerHandoffUserView,
    v: InboxView,
)
    requires
        h.next_seq == former.next_seq,
        h.seen.to_set() == former.seen,
        h.chats == chats_of(former.pending),
        h.groups == groups_of(former.pending),
        (chat_keys(h.chats) + group_keys(h.groups)).no_duplicates(),
        forall|q: Seq<char>| #[trigger]
            v.seen.contains(q) ==> !(chat_keys(h.chats) + group_keys(h.groups)).contains(q),
    ensures
        handoff_merged(v, h).pending == sorted_by_seq(
            v.pending + chats_waiting(chats_of(former.pending)) + groups_waiting(
                groups_of(former.pending),
            ),
        ),
        handoff_merged(v, h).pending.len() == v.pending.len() + chats_of(former.pending).len()
            + groups_of(former.pending).len(),
        forall|i: int|
            0 <= i < chats_of(former.pending).len() ==> #[trigger] handoff_merged(
                v,
                h,
            ).pending.contains(waiting_as_is(PacketView::ChatMessage(chats_of(former.pending)[i]))),
        forall|i: int|
            0 <= i < groups_of(former.pending).len() ==> #[trigger] handoff_merged(
                v,
                h,
            ).pending.contains(
                waiting_as_is(PacketView::GroupMessage(groups_of(former.pending)[i])),
            ),
{
    let ck = chat_keys(h.chats);
    let gk = group_keys(h.groups);
    let all = ck + gk;
    let c = chats_taken_in(v, h.chats);
    let g = groups_taken_in(c, h.groups);
    assert(ck.no_duplicates()) by {
        assert forall|i: int, j: int| 0 <= i < j < ck.len() implies ck[i] != ck[j] by {
            assert(all[i] != all[j]);
        }
    }
    assert(gk.no_duplicates()) by {
        assert forall|i: int, j: int| 0 <= i < j < gk.len() implies gk[i] != gk[j] by {
            assert(all[ck.len() + i] != all[ck.len() + j]);
        }
    }
    assert forall|i: int| 0 <= i < ck.len() implies !v.seen.contains(#[trigger] ck[i]) by {
        assert(all[i] == ck[i]);
    }
    lemma_fresh_chats(v, h.chats);
    lemma_taking_in_keeps(v, h.chats, Seq::empty());
    assert forall|i: int| 0 <= i < gk.len() implies !c.seen.contains(#[trigger] gk[i]) by {
        assert(all[ck.len() + i] == gk[i]);
        if ck.contains(gk[i]) {
            let j = ck.index_of(gk[i]);
            assert(all[j] == all[ck.len() + i]);
        }
    }
    lemma_fresh_groups(c, h.groups);
    lemma_sorted_by_seq(g.pending);
    assert forall|i: int| 0 <= i < h.chats.len() implies #[trigger] handoff_merged(
        v,
        h,
    ).pending.contains(waiting_as_is(PacketView::ChatMessage(h.chats[i]))) by {
        assert(g.pending[v.pending.len() + i] == waiting_as_is(
            PacketView::ChatMessage(h.chats[i]),
        ));
    }
    assert forall|i: int| 0 <= i < h.groups.len() implies #[trigger] handoff_merged(
        v,
        h,
    ).pending.contains(waiting_as_is(PacketView::GroupMessage(h.groups[i]))) by {
        assert(g.pending[v.pending.len() + h.chats.len() + i] == waiting_as_is(
            PacketView::GroupMessage(h.groups[i]),
        ));
    }
}

/// Chat messages with new keys are all taken in.
proof fn lemma_fresh_chats(v: InboxView, chats: Seq<ChatMessageView>)
    requires
        chat_keys(chats).no_duplicates(),
        forall|i: int| 0 <= i < chats.len() ==> !v.seen.contains(#[trigger] chat_keys(chats)[i]),
    ensures
        chats_taken_in(v, chats).pending == v.pending + chats_waiting(chats),
    decreases chats.len(),
{
    if chats.len() > 0 {
        let d = chats.drop_last();
        let n = d.len() as int;
        let keys = chat_keys(chats);
        assert forall|i: int| 0 <= i < n implies #[trigger] chat_keys(d)[i] == keys[i] by {}
        assert(chat_keys(d).no_duplicates()) by {
            assert forall|i: int, j: int| 0 <= i < j < n implies chat_keys(d)[i] != chat_keys(
                d,
            )[j] by {
                assert(keys[i] != keys[j]);
            }
        }
        assert forall|i: int| 0 <= i < d.len() implies !v.seen.contains(
            #[trigger] chat_keys(d)[i],
        ) by {
            assert(!v.seen.contains(keys[i]));
        }
        lemma_fresh_chats(v, d);
        lemma_taking_in_keeps(v, d, Seq::empty());
        assert(!v.seen.contains(keys[n]));
        if chat_keys(d).contains(keys[n]) {
            let j = chat_keys(d).index_of(keys[n]);
            assert(keys[j] == keys[n]);
        }
        assert(chats_taken_in(v, chats).pending =~= v.pending + chats_waiting(chats));
    } else {
        assert(v.pending + chats_waiting(chats) =~= v.pending);
    }
}

/// Group messages with new keys are all taken in.
proof fn lemma_fresh_groups(v: InboxView, groups: Seq<GroupMessageView>)
    requires
        group_keys(groups).no_duplicates(),
        forall|i: int| 0 <= i < groups.len() ==> !v.seen.contains(#[trigger] group_keys(groups)[i]),
    ensures
        groups_taken_in(v, groups).pending == v.pending + groups_waiting(groups),
    decreases groups.len(),
{
    if groups.len() > 0 {
        let d = groups.drop_last();
        let n = d.len() as int;
        let keys = group_keys(groups);
        assert forall|i: int| 0 <= i < n implies #[trigger] group_keys(d)[i] == keys[i] by {}
        assert(group_keys(d).no_duplicates()) by {
            assert forall|i: int, j: int| 0 <= i < j < n implies group_keys(d)[i] != group_keys(
                d,
            )[j] by {
                assert(keys[i] != keys[j]);
            }
        }
        assert forall|i: int| 0 <= i < d.len() implies !v.seen.contains(
            #[trigger] group_keys(d)[i],
        ) by {
            assert(!v.seen.contains(keys[i]));
        }
        lemma_fresh_groups(v, d);
        lemma_taking_in_keeps(v, Seq::empty(), d);
        assert(!v.seen.contains(keys[n]));
        if group_keys(d).contains(keys[n]) {
            let j = group_keys(d).index_of(keys[n]);
            assert(keys[j] == keys[n]);
        }
        assert(groups_taken_in(v, groups).pending =~= v.pending + groups_waiting(groups));
    } else {
        assert(v.pending + groups_waiting(groups) =~= v.pending);
    }
}

/// Taking in messages keeps those that were there, takes in those whose key is
/// new, and sees no other keys.
proof fn lemma_taking_in_keeps(
    v: InboxView,
    chats: Seq<ChatMessageView>,
    groups: Seq<GroupMessageView>,
)
    ensures
        forall|x: StoredView|
            v.pending.contains(x) ==> #[trigger] chats_taken_in(v, chats).pending.contains(x),
        forall|x: StoredView|
            v.pending.contains(x) ==> #[trigger] groups_taken_in(v, groups).pending.contains(x),
        forall|q: Seq<char>| #[trigger]
            chats_taken_in(v, chats).seen.contains(q) ==> v.seen.contains(q) || chat_keys(
                chats,
            ).contains(q),
        forall|i: int|
            0 <= i < chats.len() && first_of_key(chat_keys(chats), i) && !v.seen.contains(
                chats[i].message_id,
            ) ==> #[trigger] chats_taken_in(v, chats).pending.contains(
                waiting_as_is(PacketView::ChatMessage(chats[i])),
            ),
        forall|q: Seq<char>| #[trigger]
            groups_taken_in(v, groups).seen.contains(q) ==> v.seen.contains(q) || group_keys(
                groups,
            ).contains(q),
        forall|i: int|
            0 <= i < groups.len() && first_of_key(group_keys(groups), i) && !v.seen.contains(
                group_keys(groups)[i],
            ) ==> #[trigger] groups_taken_in(v, groups).pending.contains(
                waiting_as_is(PacketView::GroupMessage(groups[i])),
            ),
    decreases chats.len() + groups.len(),
{
    if chats.len() > 0 {
        let d = chats.drop_last();
        let n = d.len() as int;
        lemma_taking_in_keeps(v, d, Seq::empty());
        let b = chats_taken_in(v, d);
        let a = chats_taken_in(v, chats);
        assert forall|x: StoredView| b.pending.contains(x) implies a.pending.contains(x) by {
            assert(a.pending[b.pending.index_of(x)] == x);
        }
        assert forall|q: Seq<char>| #[trigger] a.seen.contains(q) implies v.seen.contains(q)
            || chat_keys(chats).contains(q) by {
            if chat_keys(d).contains(q) {
                let j = chat_keys(d).index_of(q);
                assert(chat_keys(chats)[j] == q);
            }
            assert(chat_keys(chats)[n] == chats.last().message_id);
        }
        assert forall|i: int|
            0 <= i < chats.len() && first_of_key(chat_keys(chats), i) && !v.seen.contains(
                chats[i].message_id,
            ) implies #[trigger] a.pending.contains(
            waiting_as_is(PacketView::ChatMessage(chats[i])),
        ) by {
            if i < n {
                assert(d[i] == chats[i]);
                assert forall|j: int| 0 <= j < i implies #[trigger] chat_keys(d)[j] != chat_keys(
                    d,
                )[i] by {
                    assert(chat_keys(chats)[j] != chat_keys(chats)[i]);
                }
                assert(b.pending.contains(waiting_as_is(PacketView::ChatMessage(d[i]))));
            } else {
                if chat_keys(d).contains(chats[n].message_id) {
                    let j = chat_keys(d).index_of(chats[n].message_id);
                    assert(chat_keys(chats)[j] == chat_keys(chats)[n]);
                }
                assert(a.pending[b.pending.len() as int] == waiting_as_is(
                    PacketView::ChatMessage(chats[n]),
                ));
            }
        }
    }
    if groups.len() > 0 {
        let d = groups.drop_last();
        lemma_taking_in_keeps(v, Seq::empty(), d);
        let b = groups_taken_in(v, d);
        let a = groups_taken_in(v, groups);
        assert forall|x: StoredView| b.pending.contains(x) implies a.pending.contains(x) by {
            assert(a.pending[b.pending.index_of(x)] == x);
        }
        let n = d.len() as int;
        let keys = group_keys(groups);
        assert forall|q: Seq<char>| #[trigger] a.seen.contains(q) implies v.seen.contains(q)
            || keys.contains(q) by {
            if group_keys(d).contains(q) {
                let j = group_keys(d).index_of(q);
                assert(keys[j] == q);
            }
            assert(keys[n] == groups.last().message_id + ":"@ + groups.last().to_user);
        }
        assert forall|i: int|
            0 <= i < groups.len() && first_of_key(keys, i) && !v.seen.contains(
                keys[i],
            ) implies #[trigger] a.pending.contains(
            waiting_as_is(PacketView::GroupMessage(groups[i])),
        ) by {
            if i < n {
                assert(d[i] == groups[i]);
                assert(group_keys(d)[i] == keys[i]);
                assert forall|j: int| 0 <= j < i implies #[trigger] group_keys(d)[j] != group_keys(
                    d,
                )[i] by {
                    assert(keys[j] != keys[i]);
                }
                assert(b.pending.contains(waiting_as_is(PacketView::GroupMessage(d[i]))));
            } else {
                if group_keys(d).contains(keys[n]) {
                    let j = group_keys(d).index_of(keys[n]);
                    assert(keys[j] == keys[n]);
                }
                assert(a.pending[b.pending.len() as int] == waiting_as_is(
                    PacketView::GroupMessage(groups[n]),
                ));
            }
        }
    }
}

/// Filters that agree on every element give the same.
proof fn lemma_filters_agree(
    s: Seq<StoredView>,
    p: spec_fn(StoredView) -> bool,
    q: spec_fn(StoredView) -> bool,
)
    requires
        forall|i: int| 0 <= i < s.len() ==> p(#[trigger] s[i]) == q(s[i]),
    ensures
        s.filter(p) == s.filter(q),
    decreases s.len(),
{
    reveal(Seq::filter);
    if s.len() > 0 {
        lemma_filters_agree(s.drop_last(), p, q);
        assert(p(s.last()) == q(s.last()));
    }
}

/// What a client still needs is exactly what waits in its inbox: every message
/// that is not delivered and has a number above the last one it has seen, in the
/// order of the inbox, and nothing else.
pub proof fn law_replay_is_what_waits(v: InboxView, after: u64, x: StoredView)
    ensures
        replay_of(v, after) == v.pending.filter(|m: StoredView| !m.delivered && m.seq > after),
        in_order(v.pending) ==> in_order(replay_of(v, after)),
        in_order(v.pending) ==> (replay_of(v, after).contains(x) <==> v.pending.contains(x)
            && !x.delivered && x.seq > after),
{
    lemma_filters_agree(
        v.pending,
        needed(after),
        |m: StoredView| !m.delivered && m.seq > after,
    );
    if in_order(v.pending) {
        lemma_filter_in_order(v.pending, needed(after));
    }
}

/// A new message waits under the next number, with everything that it was sent
/// with; its key is remembered. Of the older messages, the newest stay, as many
/// as there is room for.
pub proof fn law_new_message_waits(v: InboxView, key: Seq<char>, packet: PacketView, max: nat)
    requires
        v.next_seq < u64::MAX,
        max > 0,
    ensures
        ({
            let w = offered(v, key, packet, max);
            let n = w.pending.len() as int;
            let old = v.pending.len() as int;
            &&& w.seen.contains(key)
            &&& forall|q: Seq<char>| q != key ==> (#[trigger] w.seen.contains(q) <==> v.seen.contains(q))
            &&& v.seen.contains(key) ==> w.pending == v.pending && w.next_seq == v.next_seq
            &&& !v.seen.contains(key) ==> {
                &&& w.next_seq == v.next_seq + 1
                &&& n == (if old + 1 < max {
                    old + 1
                } else {
                    max as int
                })
                &&& !w.pending[n - 1].delivered
                &&& w.pending[n - 1].seq == w.next_seq
                &&& packet matches PacketView::ChatMessage(m) ==> w.pending[n - 1].packet
                    == PacketView::ChatMessage(ChatMessageView { seq: w.next_seq, ..m })
                &&& packet matches PacketView::GroupMessage(m) ==> w.pending[n - 1].packet
                    == PacketView::GroupMessage(GroupMessageView { seq: w.next_seq, ..m })
                &&& forall|k: int|
                    0 <= k < n - 1 ==> #[trigger] w.pending[k] == v.pending[old - (n - 1) + k]
            }
        }),
{
}

/// An acknowledgement changes nothing but what is delivered: numbers and keys
/// stay, so that a retry is still known, and of the messages that are left those
/// of other ids are as they were.
pub proof fn law_acknowledgement_keeps_the_rest(v: InboxView, message_id: Seq<char>, x: StoredView)
    ensures
        acknowledged(v, message_id).seen == v.seen,
        acknowledged(v, message_id).next_seq == v.next_seq,
        acknowledged(v, message_id).pending.contains(x) && !x.delivered ==> v.pending.contains(x)
            && x.packet.message_id() != Some(message_id),
        v.pending.contains(x) && !x.delivered && x.packet.message_id() != Some(message_id)
            ==> acknowledged(v, message_id).pending.contains(x),
{
    let s = all_marked(v.pending, message_id);
    let d = drop_delivered(s);
    lemma_drop_is_suffix(s);
    lemma_first_left(s);
    let cut = s.len() - d.len();
    if d.contains(x) && !x.delivered {
        let k = d.index_of(x);
        assert(s[k + cut] == x);
        assert(v.pending[k + cut] == x);
    }
    if v.pending.contains(x) && !x.delivered && x.packet.message_id() != Some(message_id) {
        let k = v.pending.index_of(x);
        assert(s[k] == x);
        assert(k >= cut);
        assert(d[k - cut] == x);
    }
}

/// What is dropped from the front was delivered.
proof fn lemma_first_left(s: Seq<StoredView>)
    ensures
        drop_delivered(s).len() <= s.len(),
        forall|i: int|
            0 <= i < s.len() - drop_delivered(s).len() ==> (#[trigger] s[i]).delivered,
    decreases s.len(),
{
    if s.len() > 0 && s[0].delivered {
        let rest = s.skip(1);
        lemma_first_left(rest);
        assert forall|i: int| 0 <= i < s.len() - drop_delivered(s).len() implies (
        #[trigger] s[i]).delivered by {
            if i > 0 {
                assert(rest[i - 1] == s[i]);
            }
        }
    }
}

/// What a stored packet says of itself: whom it is for, which message it is, under
/// which number, and what tells it from a retry.
pub proof fn law_packets_speak_for_themselves(
    c: ChatMessageView,
    g: GroupMessageView,
    seq: u64,
)
    ensures
        PacketView::ChatMessage(c).recipient() == Some(c.to_user),
        PacketView::GroupMessage(g).recipient() == Some(g.to_user),
        PacketView::ChatMessage(c).message_id() == Some(c.message_id),
        PacketView::GroupMessage(g).message_id() == Some(g.message_id),
        PacketView::ChatMessage(c).with_seq(seq).seq() == seq,
        PacketView::GroupMessage(g).with_seq(seq).seq() == seq,
        PacketView::ChatMessage(c).with_seq(c.seq) == PacketView::ChatMessage(c),
        PacketView::GroupMessage(g).with_seq(g.seq) == PacketView::GroupMessage(g),
        PacketView::ChatMessage(c).with_seq(seq).dedup_key() == PacketView::ChatMessage(
            c,
        ).dedup_key(),
        PacketView::GroupMessage(g).with_seq(seq).dedup_key() == PacketView::GroupMessage(
            g,
        ).dedup_key(),
        c.message_id == g.message_id ==> PacketView::ChatMessage(
            c,
        ).dedup_key() != PacketView::GroupMessage(g).dedup_key(),
{
    reveal_strlit(":");
    assert((g.message_id + ":"@ + g.to_user).len() > g.message_id.len());
}

/// What is handed over of an inbox is exactly what waits in it undelivered, chat
/// messages and copies of group messages, with nothing changed.
pub proof fn law_handoff_holds_what_waits(s: Seq<StoredView>, c: ChatMessageView, g: GroupMessageView)
    ensures
        chats_of(s).contains(c) <==> exists|i: int|
            0 <= i < s.len() && !(#[trigger] s[i]).delivered && s[i].packet
                == PacketView::ChatMessage(c),
        groups_of(s).contains(g) <==> exists|i: int|
            0 <= i < s.len() && !(#[trigger] s[i]).delivered && s[i].packet
                == PacketView::GroupMessage(g),
    decreases s.len(),
{
    if s.len() > 0 {
        let d = s.drop_last();
        law_handoff_holds_what_waits(d, c, g);
        let a = chats_of(d);
        let b = chats_of(s);
        let x = groups_of(d);
        let y = groups_of(s);
        let n = d.len() as int;
        assert(s[n] == s.last());
        if a.contains(c) {
            assert(b[a.index_of(c)] == c);
        }
        if x.contains(g) {
            assert(y[x.index_of(g)] == g);
        }
        if b.contains(c) {
            let k = b.index_of(c);
            if k < a.len() {
                assert(a[k] == c);
                let i = choose|i: int|
                    0 <= i < d.len() && !(#[trigger] d[i]).delivered && d[i].packet
                        == PacketView::ChatMessage(c);
                assert(s[i] == d[i]);
            }
        }
        if y.contains(g) {
            let k = y.index_of(g);
            if k < x.len() {
                assert(x[k] == g);
                let i = choose|i: int|
                    0 <= i < d.len() && !(#[trigger] d[i]).delivered && d[i].packet
                        == PacketView::GroupMessage(g);
                assert(s[i] == d[i]);
            }
        }
        if exists|i: int|
            0 <= i < s.len() && !(#[trigger] s[i]).delivered && s[i].packet
                == PacketView::ChatMessage(c) {
            let i = choose|i: int|
                0 <= i < s.len() && !(#[trigger] s[i]).delivered && s[i].packet
                    == PacketView::ChatMessage(c);
            if i < n {
                assert(d[i] == s[i]);
            } else {
                assert(b[b.len() - 1] == c);
            }
        }
        if exists|i: int|
            0 <= i < s.len() && !(#[trigger] s[i]).delivered && s[i].packet
                == PacketView::GroupMessage(g) {
            let i = choose|i: int|
                0 <= i < s.len() && !(#[trigger] s[i]).delivered && s[i].packet
                    == PacketView::GroupMessage(g);
            if i < n {
                assert(d[i] == s[i]);
            } else {
                assert(y[y.len() - 1] == g);
            }
        }
    }
}

/// A retry is told from a new message by the id: two chat messages with one id
/// are the same message, and two copies of a group message are the same where
/// both the id and the member are.
pub proof fn law_retries_share_the_id(
    a: ChatMessageView,
    b: ChatMessageView,
    g: GroupMessageView,
    h: GroupMessageView,
)
    ensures
        PacketView::ChatMessage(a).dedup_key() == PacketView::ChatMessage(b).dedup_key()
            <==> a.message_id == b.message_id,
        g.to_user == h.to_user ==> (PacketView::GroupMessage(g).dedup_key()
            == PacketView::GroupMessage(h).dedup_key() <==> g.message_id == h.message_id),
        g.message_id == h.message_id ==> (PacketView::GroupMessage(g).dedup_key()
            == PacketView::GroupMessage(h).dedup_key() <==> g.to_user == h.to_user),
{
    let x = g.message_id + ":"@ + g.to_user;
    let y = h.message_id + ":"@ + h.to_user;
    reveal_strlit(":");
    if x == y && g.to_user == h.to_user {
        assert(x.take(g.message_id.len() as int) =~= g.message_id);
        assert(y.take(h.message_id.len() as int) =~= h.message_id);
    }
    if x == y && g.message_id == h.message_id {
        assert(x.skip(g.message_id.len() as int + 1) =~= g.to_user);
        assert(y.skip(h.message_id.len() as int + 1) =~= h.to_user);
    }
}

/// A message that comes in under its own number waits under that number, as it
/// is and undelivered, in the order of the numbers; the next number is never
/// below it. One that came before changes nothing.
pub proof fn law_numbered_message_waits_in_order(
    v: InboxView,
    key: Seq<char>,
    packet: PacketView,
    x: StoredView,
)
    requires
        in_order(v.pending),
        !v.seen.contains(key),
    ensures
        ({
            let f = filed_in(v, key, packet);
            let t = taken_in(v, key, packet);
            let m = StoredView { seq: packet.seq(), packet, delivered: false };
            &&& f.pending.contains(x) <==> v.pending.contains(x) || x == m
            &&& t.pending.contains(x) <==> v.pending.contains(x) || x == m
            &&& in_order(f.pending)
            &&& f.next_seq >= packet.seq() && f.next_seq >= v.next_seq
            &&& t.next_seq >= packet.seq() && t.next_seq >= v.next_seq
            &&& f.next_seq == packet.seq() || f.next_seq == v.next_seq
            &&& t.next_seq == packet.seq() || t.next_seq == v.next_seq
            &&& f.seen.contains(key) && t.seen.contains(key)
            &&& filed_in(f, key, packet) == f
            &&& taken_in(t, key, packet) == t
        }),
{
    let m = waiting_as_is(packet);
    lemma_insert_by_seq(v.pending, m);
    let p = v.pending.push(m);
    assert(p.last() == m);
    if v.pending.contains(x) {
        assert(p[v.pending.index_of(x)] == x);
    }
    if p.contains(x) && x != m {
        let k = p.index_of(x);
        assert(v.pending[k] == x);
    }
}

/// As many messages wait for a user as a client that has seen none would get.
pub proof fn law_pending_is_what_a_new_client_gets(v: InboxView)
    requires
        forall|i: int| 0 <= i < v.pending.len() ==> (#[trigger] v.pending[i]).seq > 0,
    ensures
        v.pending.filter(undelivered()) == replay_of(v, 0),
{
    lemma_filters_agree(v.pending, undelivered(), needed(0));
}

} // verus!
