//! Gateway decisions: routing of chat and group messages, acknowledgements,
//! presence, keys, media, and what each frame leads to.
//!
//! Every function here takes the state it needs and gives the effects to carry
//! out, in order. Sending, timing and locking are left to the caller.

use crate::collections::StrMap;
use crate::messenger::cluster::{
    cluster_wf, elsewhere, home_elsewhere, is_home, is_home_spec, ClusterState,
};
use crate::messenger::codec::{Packet, PacketView};
use crate::messenger::effects::{
    append_effects, effect_views, no_effects, push_effect, Effect, EffectView,
};
use crate::messenger::groups::changed;
use crate::messenger::inbox::{
    acknowledged, awaits_ack, law_new_message_waits, law_second_acknowledgement_is_no_news,
    offered, waiting, with_seq, Inbox, InboxView,
};
use crate::messenger::journal::{inbox_at, or_empty, sound};
use crate::messenger::media::{error_view, proto_error};
use crate::messenger::wire::{
    ChatMessage, ChatMessageView, DeliveredAck, DeliveredAckView, ErrorCode, ReadAck,
    ReadAckView, ServerAck, ServerAckView,
};
use vstd::prelude::*;

verus! {

/// An acknowledgement that the server accepted a message.
pub open spec fn server_ack(message_id: Seq<char>, seq: u64, to_user: Seq<char>) -> PacketView {
    PacketView::ServerAck(ServerAckView { message_id, seq, to_user })
}

/// The inboxes after a packet was offered to one user.
pub open spec fn stored_in(
    before: Map<Seq<char>, Inbox>,
    after: Map<Seq<char>, Inbox>,
    user: Seq<char>,
    key: Seq<char>,
    packet: PacketView,
    max_inbox: nat,
) -> bool {
    forall|u: Seq<char>| #[trigger]
        inbox_at(after, u) == (if u == user {
            Some(offered(or_empty(inbox_at(before, u)), key, packet, max_inbox))
        } else {
            inbox_at(before, u)
        })
}

/// The sequence number that a packet offered under a key gets, if it is new.
pub open spec fn fresh_seq(v: InboxView, key: Seq<char>) -> Option<u64> {
    if v.seen.contains(key) {
        None
    } else {
        Some((v.next_seq + 1) as u64)
    }
}

/// Persists a packet in a user's inbox unless it is a retry. Gives the sequence
/// number of a new one.
pub fn store_message(
    inboxes: &mut StrMap<Inbox>,
    to_user: &str,
    key: &str,
    packet: Packet,
    max_inbox: usize,
) -> (r: Option<u64>)
    requires
        old(inboxes).wf(),
        sound(old(inboxes)@),
        or_empty(inbox_at(old(inboxes)@, to_user@)).next_seq < u64::MAX,
    ensures
        final(inboxes).wf(),
        sound(final(inboxes)@),
        stored_in(
            old(inboxes)@,
            final(inboxes)@,
            to_user@,
            key@,
            packet@,
            max_inbox as nat,
        ),
        r == fresh_seq(or_empty(inbox_at(old(inboxes)@, to_user@)), key@),
{
    let mut inbox = match inboxes.remove(to_user) {
        Some(i) => i,
        None => Inbox::new(),
    };
    assert(inbox@ == or_empty(inbox_at(old(inboxes)@, to_user@)));
    let r = inbox.store(key, packet, max_inbox);
    let _ = inboxes.insert(to_user.to_string(), inbox);
    r
}

/// The inboxes after a user acknowledged a message.
pub open spec fn acked_in(
    before: Map<Seq<char>, Inbox>,
    after: Map<Seq<char>, Inbox>,
    user: Seq<char>,
    message_id: Seq<char>,
) -> bool {
    forall|u: Seq<char>| #[trigger]
        inbox_at(after, u) == (if u == user && inbox_at(before, u) is Some {
            Some(acknowledged(inbox_at(before, u)->0, message_id))
        } else {
            inbox_at(before, u)
        })
}

/// The entry that records a delivery.
pub open spec fn tombstone(user: Seq<char>, message_id: Seq<char>) -> PacketView {
    PacketView::DeliveredAck(DeliveredAckView { message_id, from_user: user })
}

/// What is persisted when a user acknowledges a message: a tombstone if the
/// message was waiting.
pub open spec fn ack_effects(
    o: Option<InboxView>,
    user: Seq<char>,
    message_id: Seq<char>,
) -> Seq<EffectView> {
    if o is Some && awaits_ack(o->0.pending, message_id) {
        seq![EffectView::Persist(tombstone(user, message_id))]
    } else {
        Seq::empty()
    }
}

/// Marks a message of a user delivered.
pub fn mark_delivered(inboxes: &mut StrMap<Inbox>, user: &str, message_id: &str) -> (v: Vec<Effect>)
    requires
        old(inboxes).wf(),
        sound(old(inboxes)@),
    ensures
        final(inboxes).wf(),
        sound(final(inboxes)@),
        acked_in(old(inboxes)@, final(inboxes)@, user@, message_id@),
        effect_views(v@) == ack_effects(inbox_at(old(inboxes)@, user@), user@, message_id@),
{
    let ghost before = inboxes@;
    let mut out = no_effects();
    match inboxes.remove(user) {
        None => {
            assert(inboxes@ =~= before);
        },
        Some(i) => {
            let mut inbox = i;
            let changed = inbox.mark_delivered(message_id);
            let _ = inboxes.insert(user.to_string(), inbox);
            if changed {
                push_effect(
                    &mut out,
                    Effect::Persist(
                        Packet::DeliveredAck(
                            DeliveredAck {
                                message_id: message_id.to_string(),
                                from_user: user.to_string(),
                            },
                        ),
                    ),
                );
                assert(effect_views(out@) =~= seq![
                    EffectView::Persist(tombstone(user@, message_id@)),
                ]);
            }
        },
    }
    out
}

/// The number of messages that wait for a user.
pub fn pending_for(inboxes: &StrMap<Inbox>, user: &str) -> (n: usize)
    requires
        inboxes.wf(),
    ensures
        n == (match inbox_at(inboxes@, user@) {
            Some(v) => v.pending.filter(crate::messenger::inbox::undelivered()).len(),
            None => 0,
        }),
{
    match inboxes.get(user) {
        Some(i) => i.pending_count(),
        None => 0,
    }
}

/// The message with a sequence number.
pub open spec fn numbered(m: ChatMessageView, seq: u64) -> ChatMessageView {
    ChatMessageView { seq, ..m }
}

/// What a chat message from a client leads to.
pub open spec fn chat_effects(
    home: Option<Seq<char>>,
    v: InboxView,
    m: ChatMessageView,
) -> Seq<EffectView> {
    if m.to_user.len() == 0 || m.message_id.len() == 0 {
        seq![
            EffectView::Reply(
                error_view(ErrorCode::MalformedFrame, "missing to_user/message_id"@),
            ),
        ]
    } else if home is Some {
        seq![EffectView::ToPeer(home->0, PacketView::ChatMessage(m))]
    } else {
        match fresh_seq(v, m.message_id) {
            None => seq![EffectView::Reply(server_ack(m.message_id, 0, Seq::empty()))],
            Some(seq) => seq![
                EffectView::Persist(PacketView::ChatMessage(numbered(m, seq))),
                EffectView::Reply(server_ack(m.message_id, seq, Seq::empty())),
                EffectView::Deliver(m.to_user, PacketView::ChatMessage(numbered(m, seq))),
            ],
        }
    }
}

/// Whether a chat message from a client is stored on this node.
pub open spec fn chat_is_local(home: Option<Seq<char>>, m: ChatMessageView) -> bool {
    m.to_user.len() > 0 && m.message_id.len() > 0 && home is None
}

/// Routes a chat message from a client. It is persisted before it is
/// acknowledged; a retry is acknowledged again and not stored twice.
pub fn handle_chat(
    inboxes: &mut StrMap<Inbox>,
    cluster: &Option<ClusterState>,
    m: &ChatMessage,
    max_inbox: usize,
) -> (v: Vec<Effect>)
    requires
        old(inboxes).wf(),
        sound(old(inboxes)@),
        cluster_wf(*cluster),
        or_empty(inbox_at(old(inboxes)@, m@.to_user)).next_seq < u64::MAX,
    ensures
        final(inboxes).wf(),
        sound(final(inboxes)@),
        effect_views(v@) == chat_effects(
            elsewhere(*cluster, m@.to_user),
            or_empty(inbox_at(old(inboxes)@, m@.to_user)),
            m@,
        ),
        if chat_is_local(elsewhere(*cluster, m@.to_user), m@) {
            stored_in(
                old(inboxes)@,
                final(inboxes)@,
                m@.to_user,
                m@.message_id,
                PacketView::ChatMessage(m@),
                max_inbox as nat,
            )
        } else {
            final(inboxes)@ == old(inboxes)@
        },
{
    let mut out = no_effects();
    let ghost want = chat_effects(
        elsewhere(*cluster, m@.to_user),
        or_empty(inbox_at(old(inboxes)@, m@.to_user)),
        m@,
    );
    if m.to_user.as_str().is_empty() || m.message_id.as_str().is_empty() {
        push_effect(
            &mut out,
            Effect::Reply(proto_error(ErrorCode::MalformedFrame, "missing to_user/message_id")),
        );
        assert(effect_views(out@) =~= want);
        return out;
    }
    match home_elsewhere(cluster, m.to_user.as_str()) {
        Some(home) => {
            push_effect(&mut out, Effect::ToPeer(home, Packet::ChatMessage(m.clone())));
            assert(effect_views(out@) =~= want);
            return out;
        },
        None => {},
    }
    match store_message(
        inboxes,
        m.to_user.as_str(),
        m.message_id.as_str(),
        Packet::ChatMessage(m.clone()),
        max_inbox,
    ) {
        None => {
            push_effect(
                &mut out,
                Effect::Reply(
                    Packet::ServerAck(
                        ServerAck {
                            message_id: m.message_id.clone(),
                            seq: 0,
                            to_user: String::new(),
                        },
                    ),
                ),
            );
        },
        Some(seq) => {
            let stored = with_seq(Packet::ChatMessage(m.clone()), seq);
            push_effect(&mut out, Effect::Persist(stored.clone()));
            push_effect(
                &mut out,
                Effect::Reply(
                    Packet::ServerAck(
                        ServerAck { message_id: m.message_id.clone(), seq, to_user: String::new() },
                    ),
                ),
            );
            push_effect(&mut out, Effect::Deliver(m.to_user.clone(), stored));
        },
    }
    assert(effect_views(out@) =~= want);
    out
}

/// What a chat message from a peer leads to on the recipient's home node.
pub open spec fn routed_chat_effects(v: InboxView, m: ChatMessageView) -> Seq<EffectView> {
    match fresh_seq(v, m.message_id) {
        None => seq![
            EffectView::Deliver(m.from_user, server_ack(m.message_id, 0, m.from_user)),
        ],
        Some(seq) => seq![
            EffectView::Persist(PacketView::ChatMessage(numbered(m, seq))),
            EffectView::Deliver(m.from_user, server_ack(m.message_id, seq, m.from_user)),
            EffectView::Deliver(m.to_user, PacketView::ChatMessage(numbered(m, seq))),
        ],
    }
}

/// Persists and routes a chat message that a peer forwarded: the sender is
/// acknowledged wherever connected.
pub fn route_new_chat(inboxes: &mut StrMap<Inbox>, m: &ChatMessage, max_inbox: usize) -> (v: Vec<
    Effect,
>)
    requires
        old(inboxes).wf(),
        sound(old(inboxes)@),
        or_empty(inbox_at(old(inboxes)@, m@.to_user)).next_seq < u64::MAX,
    ensures
        final(inboxes).wf(),
        sound(final(inboxes)@),
        effect_views(v@) == routed_chat_effects(
            or_empty(inbox_at(old(inboxes)@, m@.to_user)),
            m@,
        ),
        stored_in(
            old(inboxes)@,
            final(inboxes)@,
            m@.to_user,
            m@.message_id,
            PacketView::ChatMessage(m@),
            max_inbox as nat,
        ),
{
    let mut out = no_effects();
    let ghost want = routed_chat_effects(or_empty(inbox_at(old(inboxes)@, m@.to_user)), m@);
    let stored = store_message(
        inboxes,
        m.to_user.as_str(),
        m.message_id.as_str(),
        Packet::ChatMessage(m.clone()),
        max_inbox,
    );
    let seq: u64 = match stored {
        Some(s) => s,
        None => 0,
    };
    if stored.is_some() {
        push_effect(&mut out, Effect::Persist(with_seq(Packet::ChatMessage(m.clone()), seq)));
    }
    push_effect(
        &mut out,
        Effect::Deliver(
            m.from_user.clone(),
            Packet::ServerAck(
                ServerAck {
                    message_id: m.message_id.clone(),
                    seq,
                    to_user: m.from_user.clone(),
                },
            ),
        ),
    );
    if stored.is_some() {
        push_effect(
            &mut out,
            Effect::Deliver(m.to_user.clone(), with_seq(Packet::ChatMessage(m.clone()), seq)),
        );
    }
    assert(effect_views(out@) =~= want);
    out
}

/// Everyone is told that a message was delivered.
pub open spec fn delivered_news(a: DeliveredAckView, to_peers: bool) -> Seq<EffectView> {
    let p = PacketView::DeliveredAck(a);
    if to_peers {
        seq![EffectView::ToSessions(p), EffectView::ToPeers(p, None)]
    } else {
        seq![EffectView::ToSessions(p)]
    }
}

/// Takes the acknowledgement of a delivery. The acknowledging user's home node
/// records it; every session is told, and the peers too where the
/// acknowledgement came from a client.
pub fn handle_delivered_ack(
    inboxes: &mut StrMap<Inbox>,
    cluster: &Option<ClusterState>,
    a: &DeliveredAck,
    from_client: bool,
) -> (v: Vec<Effect>)
    requires
        old(inboxes).wf(),
        sound(old(inboxes)@),
        cluster_wf(*cluster),
    ensures
        final(inboxes).wf(),
        sound(final(inboxes)@),
        if is_home_spec(*cluster, a@.from_user) {
            &&& acked_in(old(inboxes)@, final(inboxes)@, a@.from_user, a@.message_id)
            &&& effect_views(v@) == ack_effects(
                inbox_at(old(inboxes)@, a@.from_user),
                a@.from_user,
                a@.message_id,
            ) + delivered_news(a@, from_client)
        } else {
            &&& final(inboxes)@ == old(inboxes)@
            &&& effect_views(v@) == delivered_news(a@, from_client)
        },
{
    let mut out = no_effects();
    let mut news = no_effects();
    push_effect(&mut news, Effect::ToSessions(Packet::DeliveredAck(a.clone())));
    if from_client {
        push_effect(&mut news, Effect::ToPeers(Packet::DeliveredAck(a.clone()), None));
    }
    assert(effect_views(news@) =~= delivered_news(a@, from_client));
    if is_home(cluster, a.from_user.as_str()) {
        out = mark_delivered(inboxes, a.from_user.as_str(), a.message_id.as_str());
        append_effects(&mut out, news);
        out
    } else {
        news
    }
}

/// Everyone is told that a message was read.
pub open spec fn read_news(a: ReadAckView, to_peers: bool) -> Seq<EffectView> {
    let p = PacketView::ReadAck(a);
    if to_peers {
        seq![EffectView::ToSessions(p), EffectView::ToPeers(p, None)]
    } else {
        seq![EffectView::ToSessions(p)]
    }
}

/// Takes the acknowledgement that a message was read.
pub fn handle_read_ack(a: &ReadAck, from_client: bool) -> (v: Vec<Effect>)
    ensures
        effect_views(v@) == read_news(a@, from_client),
{
    let mut news = no_effects();
    push_effect(&mut news, Effect::ToSessions(Packet::ReadAck(a.clone())));
    if from_client {
        push_effect(&mut news, Effect::ToPeers(Packet::ReadAck(a.clone()), None));
    }
    assert(effect_views(news@) =~= read_news(a@, from_client));
    news
}

/// Once a message was stored, offering it again leads to the same
/// acknowledgement of a retry, is not delivered again, and changes nothing.
pub proof fn law_retry_is_acknowledged_not_delivered(v: InboxView, m: ChatMessageView, max: nat)
    requires
        chat_is_local(None, m),
    ensures
        ({
            let w = offered(v, m.message_id, PacketView::ChatMessage(m), max);
            &&& chat_effects(None, w, m) == seq![
                EffectView::Reply(server_ack(m.message_id, 0, Seq::empty())),
            ]
            &&& offered(w, m.message_id, PacketView::ChatMessage(m), max) == w
        }),
{
}

/// No chat message is acknowledged before it is persisted: in what it leads to,
/// the persisted entry comes before the acknowledgement that carries its number,
/// whether it came from a client or was routed here by a peer.
pub proof fn law_persisted_before_acknowledged(v: InboxView, m: ChatMessageView)
    requires
        chat_is_local(None, m),
        !v.seen.contains(m.message_id),
    ensures
        ({
            let e = chat_effects(None, v, m);
            let r = routed_chat_effects(v, m);
            let seq = (v.next_seq + 1) as u64;
            &&& r[0] == EffectView::Persist(PacketView::ChatMessage(numbered(m, seq)))
            &&& r[1] == EffectView::Deliver(
                m.from_user,
                server_ack(m.message_id, seq, m.from_user),
            )
            &&& e[0] == EffectView::Persist(PacketView::ChatMessage(numbered(m, seq)))
            &&& e[1] == EffectView::Reply(server_ack(m.message_id, seq, Seq::empty()))
            &&& waiting(PacketView::ChatMessage(m), seq).packet == PacketView::ChatMessage(
                numbered(m, seq),
            )
        }),
{
}

/// A complete chat message that is new to the recipient's home node is
/// delivered there once, to its recipient and nobody else, as it was sent but
/// for the number that it got. The sender is acknowledged with that number,
/// whether connected to that node or to another one.
pub proof fn law_chat_reaches_its_recipient(v: InboxView, m: ChatMessageView, k: int)
    requires
        m.to_user.len() > 0,
        m.message_id.len() > 0,
        v.next_seq < u64::MAX,
    ensures
        ({
            let e = chat_effects(None, v, m);
            let r = routed_chat_effects(v, m);
            let sent = PacketView::ChatMessage(
                ChatMessageView { seq: (v.next_seq + 1) as u64, ..m },
            );
            &&& v.seen.contains(m.message_id) <==> !e.contains(EffectView::Deliver(m.to_user, sent))
            &&& v.seen.contains(m.message_id) <==> !r.contains(EffectView::Deliver(m.to_user, sent))
            &&& 0 <= k < e.len() ==> match e[k] {
                EffectView::Deliver(u, p) => u == m.to_user && p == sent,
                EffectView::Persist(p) => p == sent,
                EffectView::Reply(p) => {
                    &&& p is ServerAck
                    &&& p->ServerAck_0.message_id == m.message_id
                    &&& p->ServerAck_0.seq == (if v.seen.contains(m.message_id) {
                        0
                    } else {
                        v.next_seq + 1
                    })
                },
                _ => false,
            }
            &&& 0 <= k < r.len() ==> match r[k] {
                EffectView::Deliver(u, p) => (u == m.to_user && p == sent) || (u == m.from_user && p
                    is ServerAck && p->ServerAck_0.message_id == m.message_id
                    && p->ServerAck_0.to_user == m.from_user && p->ServerAck_0.seq == (
                if v.seen.contains(m.message_id) {
                    0
                } else {
                    v.next_seq + 1
                })),
                EffectView::Persist(p) => p == sent,
                _ => false,
            }
            &&& exists|i: int| 0 <= i < e.len() && #[trigger] e[i] is Reply
            &&& exists|i: int|
                0 <= i < r.len() && #[trigger] r[i] is Deliver && r[i]->Deliver_1 is ServerAck
        }),
{
    let e = chat_effects(None, v, m);
    let r = routed_chat_effects(v, m);
    if v.seen.contains(m.message_id) {
        assert(e[0] is Reply);
        assert(r[0] is Deliver && r[0]->Deliver_1 is ServerAck);
    } else {
        assert(e[1] is Reply);
        assert(e[2] is Deliver);
        assert(r[1] is Deliver && r[1]->Deliver_1 is ServerAck);
        assert(r[2] is Deliver);
    }
}

/// A chat message for a user of another node goes to that node, as it is and
/// once; what that node then does for the recipient is what this node would have
/// done for a user of its own.
pub proof fn law_forwarded_chat_is_as_good(
    home: Seq<char>,
    here: InboxView,
    there: InboxView,
    m: ChatMessageView,
)
    requires
        m.to_user.len() > 0,
        m.message_id.len() > 0,
        there.next_seq < u64::MAX,
    ensures
        ({
            let e = chat_effects(Some(home), here, m);
            &&& e.len() == 1
            &&& e[0] is ToPeer
            &&& e[0]->ToPeer_0 == home
            &&& e[0]->ToPeer_1 is ChatMessage
            &&& forall|x: EffectView|
                x is Persist || (x is Deliver && x->Deliver_1 is ChatMessage) ==> (
                #[trigger] routed_chat_effects(there, e[0]->ToPeer_1->ChatMessage_0).contains(x)
                    <==> chat_effects(None, there, m).contains(x))
        }),
{
    let a = routed_chat_effects(there, m);
    let b = chat_effects(None, there, m);
    assert forall|x: EffectView| x is Persist || (x is Deliver && x->Deliver_1 is ChatMessage)
        implies (#[trigger] a.contains(x) <==> b.contains(x)) by {
        if !there.seen.contains(m.message_id) {
            assert(a[0] == b[0]);
            assert(a[2] == b[2]);
        }
    }
}

/// A chat message without a recipient or an id is refused: the client gets an
/// error, and nothing is persisted, delivered or forwarded, wherever the
/// recipient lives.
pub proof fn law_incomplete_chat_is_refused(
    home: Option<Seq<char>>,
    v: InboxView,
    m: ChatMessageView,
)
    requires
        m.to_user.len() == 0 || m.message_id.len() == 0,
    ensures
        chat_effects(home, v, m).len() == 1,
        chat_effects(home, v, m)[0] is Reply,
        chat_effects(home, v, m)[0]->Reply_0 is Error,
        chat_effects(home, v, m)[0]->Reply_0->Error_0.code == ErrorCode::MalformedFrame.number(),
        !chat_is_local(home, m),
{
}

/// Storing a message for one user leaves the inbox of everyone else as it was,
/// and so does an acknowledgement. The message has a place in its recipient's
/// inbox, which is there even where it was not before.
pub proof fn law_inboxes_are_apart(
    before: Map<Seq<char>, Inbox>,
    stored: Map<Seq<char>, Inbox>,
    acked: Map<Seq<char>, Inbox>,
    user: Seq<char>,
    key: Seq<char>,
    packet: PacketView,
    max: nat,
    other: Seq<char>,
)
    requires
        stored_in(before, stored, user, key, packet, max),
        acked_in(before, acked, user, key),
        other != user,
        or_empty(inbox_at(before, user)).next_seq < u64::MAX,
        max > 0,
    ensures
        stored.contains_key(other) <==> before.contains_key(other),
        before.contains_key(other) ==> stored[other]@ == before[other]@,
        acked.contains_key(other) <==> before.contains_key(other),
        before.contains_key(other) ==> acked[other]@ == before[other]@,
        stored.contains_key(user),
        stored[user]@.seen.contains(key),
        acked.contains_key(user) <==> before.contains_key(user),
        before.contains_key(user) && !before[user]@.seen.contains(key) ==> {
            &&& stored[user]@.next_seq == before[user]@.next_seq + 1
            &&& stored[user]@.pending.len() > 0
            &&& stored[user]@.pending.last().seq == before[user]@.next_seq + 1
            &&& fresh_seq(before[user]@, key) == Some(stored[user]@.pending.last().seq)
        },
        before.contains_key(user) && before[user]@.seen.contains(key) ==> {
            &&& stored[user]@ == before[user]@
            &&& fresh_seq(before[user]@, key) is None
        },
        !before.contains_key(user) ==> stored[user]@.pending.len() == 1
            && stored[user]@.pending.last().seq == 1,
{
    assert(inbox_at(stored, other) == inbox_at(before, other));
    assert(inbox_at(acked, other) == inbox_at(before, other));
    assert(inbox_at(stored, user) is Some);
    assert(inbox_at(acked, user) is Some <==> inbox_at(before, user) is Some);
    law_new_message_waits(or_empty(inbox_at(before, user)), key, packet, max);
}

/// The delivery of a message is recorded where the message was waiting, and
/// nowhere else: the entry names the message and the user who got it.
pub proof fn law_deliveries_are_recorded_once(
    v: InboxView,
    user: Seq<char>,
    message_id: Seq<char>,
)
    ensures
        ack_effects(None, user, message_id).len() == 0,
        ack_effects(Some(v), user, message_id).len() > 0 <==> exists|i: int|
            0 <= i < v.pending.len() && (#[trigger] v.pending[i]).packet.message_id() == Some(
                message_id,
            ) && !v.pending[i].delivered,
        forall|e: EffectView| #[trigger]
            ack_effects(Some(v), user, message_id).contains(e) ==> {
                &&& e is Persist
                &&& e->Persist_0 is DeliveredAck
                &&& e->Persist_0->DeliveredAck_0.message_id == message_id
                &&& e->Persist_0->DeliveredAck_0.from_user == user
            },
        ack_effects(Some(acknowledged(v, message_id)), user, message_id).len() == 0,
{
    law_second_acknowledgement_is_no_news(v, message_id);
}

/// Every session hears that a message was delivered or read, as it was said;
/// what a client says also goes to every peer, and what a peer says does not
/// travel on.
pub proof fn law_acknowledgements_are_told(
    d: DeliveredAckView,
    r: ReadAckView,
    from_client: bool,
)
    ensures
        delivered_news(d, from_client).contains(
            EffectView::ToSessions(PacketView::DeliveredAck(d)),
        ),
        read_news(r, from_client).contains(EffectView::ToSessions(PacketView::ReadAck(r))),
        from_client <==> delivered_news(d, from_client).contains(
            EffectView::ToPeers(PacketView::DeliveredAck(d), None),
        ),
        from_client <==> read_news(r, from_client).contains(
            EffectView::ToPeers(PacketView::ReadAck(r), None),
        ),
        delivered_news(d, from_client).len() == (if from_client {
            2int
        } else {
            1
        }),
        read_news(r, from_client).len() == (if from_client {
            2int
        } else {
            1
        }),
{
    assert(delivered_news(d, from_client)[0] is ToSessions);
    assert(read_news(r, from_client)[0] is ToSessions);
    if from_client {
        assert(delivered_news(d, from_client)[1] is ToPeers);
        assert(read_news(r, from_client)[1] is ToPeers);
    }
}

} // verus!
