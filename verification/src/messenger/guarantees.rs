//! What holds of a gateway from one frame to the next, and of the gateways of a
//! cluster together.

use crate::messenger::cluster::{
    elsewhere, is_home_spec, law_departed_node_is_gone, law_newcomer_is_announced_once,
};
use crate::messenger::codec::PacketView;
use crate::messenger::dispatch::{
    client_step, complete_blob, end_step, fanout_step, peer_step, queue_answered, session_exists,
    session_numbered, shut_down, Gateway,
};
use crate::messenger::effects::EffectView;
use crate::messenger::error::MessengerError;
use crate::messenger::fanout::{copy_for, fanned_out, fanout_effects, lists_members};
use crate::messenger::groups::{group_at, law_merge_keeps_the_later_version};
use crate::messenger::inbox::{
    chat_keys, first_of_key, handoff_merged, law_handoff_adds_what_is_new, law_handoff_is_idempotent, law_handoff_keeps_messages,
    law_new_message_waits, law_second_acknowledgement_is_no_news, waiting_as_is, StoredView,
};
use crate::messenger::journal::{
    inbox_at, law_unacknowledged_message_survives, or_empty, replayed,
};
use crate::messenger::key_store::is_pick;
use crate::messenger::media::blob_at;
use crate::messenger::presence::{audience, forward_to, place_at};
use crate::messenger::receipts::{receipt_effects, receipts_at};
use crate::messenger::server::{ack_effects, chat_effects, delivered_news, read_news, server_ack};
use crate::messenger::sessions::{detached, law_logout_ends_one_session, SessionView};
use crate::messenger::wire::{
    ChatMessageView, DeliveredAckView, ErrorCode, FetchKeysView, GroupEventView,
    GroupMessageView, MediaChunkView, MediaFetchView, MediaStartView, PeerHandoffGroupView,
    PeerHandoffUserView, PeerJoinView, PeerLeaveView, PeerMediaReadyView, PeerPresenceView, PresenceKind, PublishKeysView, ReadAckView,
    RemoveDeviceKeysView, SubscribePresenceView,
};
use crate::text::strs;
use vstd::prelude::*;

verus! {

/// A session ends with a packet that no client may send, and with no other. The
/// client is told, and nothing else happens.
pub proof fn law_only_strange_packets_end_a_session(
    a: Gateway,
    b: Gateway,
    upload: Option<Seq<char>>,
    upload_after: Option<Seq<char>>,
    user: Seq<char>,
    session_id: u64,
    p: PacketView,
    now: u64,
    e: Seq<EffectView>,
    end: Option<MessengerError>,
)
    requires
        client_step(a, b, upload, upload_after, user, session_id, p, now, e, end),
    ensures
        end is None <==> p is Ping || p is Presence || p is ChatMessage || p is DeliveredAck || p
            is ReadAck || p is MediaStart || p is MediaChunk || p is MediaFetch || p is GroupEvent
            || p is GroupMessage || p is PublishKeys || p is FetchKeys || p is RemoveDeviceKeys
            || p is SubscribePresence,
        end is Some ==> {
            &&& b == a
            &&& upload_after == upload
            &&& e.len() == 1
            &&& e[0] is Reply
            &&& e[0]->Reply_0 is Error
            &&& e[0]->Reply_0->Error_0.code == ErrorCode::MalformedFrame.number()
        },
        b.sessions == a.sessions,
        b.last_seen == a.last_seen,
        b.cluster == a.cluster,
        b.user_locations == a.user_locations,
        b.cfg == a.cfg,
        b.next_session == a.next_session,
        b.auth_failures == a.auth_failures,
        b.conn_rate == a.conn_rate,
        !(p is ChatMessage || p is GroupMessage || p is DeliveredAck) ==> b.inboxes == a.inboxes,
        !(p is GroupEvent) ==> b.groups == a.groups,
        !(p is PublishKeys || p is FetchKeys || p is RemoveDeviceKeys) ==> b.keys == a.keys,
        !(p is SubscribePresence) ==> b.rosters == a.rosters,
        !(p is MediaStart || p is MediaChunk) ==> b.media == a.media && upload_after == upload,
{
}

/// A ping is answered by a pong with the same number, and by nothing else.
pub proof fn law_ping_is_answered(
    a: Gateway,
    b: Gateway,
    upload: Option<Seq<char>>,
    user: Seq<char>,
    session_id: u64,
    p: PacketView,
    now: u64,
    e: Seq<EffectView>,
    end: Option<MessengerError>,
)
    requires
        p is Ping,
        client_step(a, b, upload, upload, user, session_id, p, now, e, end),
    ensures
        b == a,
        e.len() == 1,
        e[0] is Reply,
        e[0]->Reply_0 is Pong,
        e[0]->Reply_0->Pong_0.seq == p->Ping_0.seq,
{
}

/// What a client says of its presence is told of its own user, in the kind that
/// it said, and to nobody but those who exchange presence with the user; a kind
/// that is not known stands for being available.
pub proof fn law_presence_is_of_the_user(
    a: Gateway,
    b: Gateway,
    upload: Option<Seq<char>>,
    user: Seq<char>,
    session_id: u64,
    p: PacketView,
    now: u64,
    e: Seq<EffectView>,
    end: Option<MessengerError>,
)
    requires
        p is Presence,
        client_step(a, b, upload, upload, user, session_id, p, now, e, end),
    ensures
        e.len() > 0,
        e[0] is ToUsers,
        e[0]->ToUsers_0 is Presence,
        e[0]->ToUsers_0->Presence_0.user_id == user,
        0 <= p->Presence_0.kind <= 3 ==> e[0]->ToUsers_0->Presence_0.kind == p->Presence_0.kind,
        !(0 <= p->Presence_0.kind <= 3) ==> e[0]->ToUsers_0->Presence_0.kind
            == PresenceKind::Available.number(),
        e[0]->ToUsers_1 == audience(a.sessions, a.rosters@, user),
        e.len() == 2 <==> a.cluster is Some,
        e.len() == 2 ==> e[1] is ToPeers && e[1]->ToPeers_0 is PeerPresence
            && e[1]->ToPeers_0->PeerPresence_0.user_id == user,
{
}

/// A chat message that a client sends to a user of another node goes there under
/// the name of the sender. The home node keeps it for its recipient, delivers
/// it, and acknowledges it to the sender.
pub proof fn law_chat_sent_anywhere_arrives(
    a: Gateway,
    b: Gateway,
    upload: Option<Seq<char>>,
    user: Seq<char>,
    session_id: u64,
    m: ChatMessageView,
    now: u64,
    e: Seq<EffectView>,
    end: Option<MessengerError>,
    home: Gateway,
    home_after: Gateway,
    later: u64,
    there: Seq<EffectView>,
)
    requires
        client_step(
            a,
            b,
            upload,
            upload,
            user,
            session_id,
            PacketView::ChatMessage(m),
            now,
            e,
            end,
        ),
        m.to_user.len() > 0,
        m.message_id.len() > 0,
        m.seq == 0,
        elsewhere(a.cluster, m.to_user) is Some,
        e[0] is ToPeer ==> peer_step(
            home,
            home_after,
            a.cluster->0.node_id@,
            e[0]->ToPeer_1,
            later,
            there,
        ),
        home.inbox_has_room(m.to_user),
        home.cfg.max_inbox > 0,
        !or_empty(inbox_at(home.inboxes@, m.to_user)).seen.contains(m.message_id),
    ensures
        b.inboxes@ == a.inboxes@,
        e.len() == 1,
        e[0] is ToPeer,
        e[0]->ToPeer_0 == elsewhere(a.cluster, m.to_user)->0,
        home_after.inboxes@.contains_key(m.to_user),
        ({
            let pending = home_after.inboxes@[m.to_user]@.pending;
            let sent = PacketView::ChatMessage(
                ChatMessageView {
                    from_user: user,
                    seq: home_after.inboxes@[m.to_user]@.next_seq,
                    ..m
                },
            );
            &&& pending.len() > 0
            &&& pending.last().packet == sent
            &&& !pending.last().delivered
            &&& there.contains(EffectView::Deliver(m.to_user, sent))
            &&& there.contains(EffectView::Persist(sent))
            &&& exists|i: int|
                0 <= i < there.len() && (#[trigger] there[i]) is Deliver && there[i]->Deliver_0
                    == user && there[i]->Deliver_1 is ServerAck
                    && there[i]->Deliver_1->ServerAck_0.message_id == m.message_id
                    && there[i]->Deliver_1->ServerAck_0.to_user == user
        }),
{
    let taken = ChatMessageView { from_user: user, ..m };
    let v = or_empty(inbox_at(home.inboxes@, m.to_user));
    law_new_message_waits(
        v,
        m.message_id,
        PacketView::ChatMessage(taken),
        home.cfg.max_inbox as nat,
    );
    assert(inbox_at(home_after.inboxes@, m.to_user) is Some);
    assert(there[0] is Persist);
    assert(there[1] is Deliver && there[1]->Deliver_1 is ServerAck);
    assert(there[2] is Deliver);
}

/// A chat message that a client sends to a user of this node waits in the
/// recipient's inbox, is delivered under the name of the sender, and is
/// acknowledged on the same connection.
pub proof fn law_chat_sent_at_home_arrives(
    a: Gateway,
    b: Gateway,
    upload: Option<Seq<char>>,
    user: Seq<char>,
    session_id: u64,
    m: ChatMessageView,
    now: u64,
    e: Seq<EffectView>,
    end: Option<MessengerError>,
)
    requires
        client_step(
            a,
            b,
            upload,
            upload,
            user,
            session_id,
            PacketView::ChatMessage(m),
            now,
            e,
            end,
        ),
        m.to_user.len() > 0,
        m.message_id.len() > 0,
        elsewhere(a.cluster, m.to_user) is None,
        a.inbox_has_room(m.to_user),
        a.cfg.max_inbox > 0,
        !or_empty(inbox_at(a.inboxes@, m.to_user)).seen.contains(m.message_id),
    ensures
        b.inboxes@.contains_key(m.to_user),
        ({
            let pending = b.inboxes@[m.to_user]@.pending;
            let sent = PacketView::ChatMessage(
                ChatMessageView { from_user: user, seq: b.inboxes@[m.to_user]@.next_seq, ..m },
            );
            &&& pending.len() > 0
            &&& pending.last().packet == sent
            &&& !pending.last().delivered
            &&& e.contains(EffectView::Deliver(m.to_user, sent))
            &&& e.contains(EffectView::Persist(sent))
            &&& exists|i: int|
                0 <= i < e.len() && (#[trigger] e[i]) is Reply && e[i]->Reply_0 is ServerAck
                    && e[i]->Reply_0->ServerAck_0.message_id == m.message_id
        }),
{
    let taken = ChatMessageView { from_user: user, ..m };
    let v = or_empty(inbox_at(a.inboxes@, m.to_user));
    law_new_message_waits(v, m.message_id, PacketView::ChatMessage(taken), a.cfg.max_inbox as nat);
    assert(inbox_at(b.inboxes@, m.to_user) is Some);
    assert(e[0] is Persist);
    assert(e[1] is Reply);
    assert(e[2] is Deliver);
}

/// Once a user's client says that a message was delivered, it waits no longer in
/// the inbox of that user, if this is the user's home node; every session and
/// every peer hears it, under the user's name. Nobody can say so for another
/// user.
pub proof fn law_acknowledged_message_waits_no_longer(
    a: Gateway,
    b: Gateway,
    upload: Option<Seq<char>>,
    user: Seq<char>,
    session_id: u64,
    d: DeliveredAckView,
    now: u64,
    e: Seq<EffectView>,
    end: Option<MessengerError>,
    other: Seq<char>,
    i: int,
)
    requires
        client_step(
            a,
            b,
            upload,
            upload,
            user,
            session_id,
            PacketView::DeliveredAck(d),
            now,
            e,
            end,
        ),
        other != user,
    ensures
        is_home_spec(a.cluster, user) && b.inboxes@.contains_key(user) && 0 <= i
            < b.inboxes@[user]@.pending.len() && !b.inboxes@[user]@.pending[i].delivered
            ==> b.inboxes@[user]@.pending[i].packet.message_id() != Some(d.message_id),
        b.inboxes@.contains_key(other) <==> a.inboxes@.contains_key(other),
        a.inboxes@.contains_key(other) ==> b.inboxes@[other]@ == a.inboxes@[other]@,
        e.contains(
            EffectView::ToSessions(
                PacketView::DeliveredAck(
                    DeliveredAckView { message_id: d.message_id, from_user: user },
                ),
            ),
        ),
        e.contains(
            EffectView::ToPeers(
                PacketView::DeliveredAck(
                    DeliveredAckView { message_id: d.message_id, from_user: user },
                ),
                None,
            ),
        ),
{
    let ack = DeliveredAckView { from_user: user, ..d };
    let news = delivered_news(ack, true);
    let told = receipt_effects(
        receipts_at(a.receipts@, d.message_id),
        d.message_id,
        user,
        false,
    );
    let first = if is_home_spec(a.cluster, user) {
        ack_effects(inbox_at(a.inboxes@, user), user, d.message_id)
    } else {
        Seq::empty()
    };
    assert(e =~= first + news + told);
    assert(e[first.len() as int] == news[0]);
    assert(e[first.len() as int + 1] == news[1]);
    if is_home_spec(a.cluster, user) {
        assert(inbox_at(b.inboxes@, other) == inbox_at(a.inboxes@, other));
        assert(inbox_at(b.inboxes@, user) is Some <==> inbox_at(a.inboxes@, user) is Some);
        if inbox_at(a.inboxes@, user) is Some {
            law_second_acknowledgement_is_no_news(inbox_at(a.inboxes@, user)->0, d.message_id);
        }
    }
}

/// Once a user's client says that a message was read, every session and every
/// peer hears it, under the user's name, and no inbox changes.
pub proof fn law_reading_is_told_to_all(
    a: Gateway,
    b: Gateway,
    upload: Option<Seq<char>>,
    user: Seq<char>,
    session_id: u64,
    d: ReadAckView,
    now: u64,
    e: Seq<EffectView>,
    end: Option<MessengerError>,
)
    requires
        client_step(
            a,
            b,
            upload,
            upload,
            user,
            session_id,
            PacketView::ReadAck(d),
            now,
            e,
            end,
        ),
    ensures
        b.inboxes == a.inboxes,
        e.contains(
            EffectView::ToSessions(
                PacketView::ReadAck(ReadAckView { message_id: d.message_id, from_user: user }),
            ),
        ),
        e.contains(
            EffectView::ToPeers(
                PacketView::ReadAck(ReadAckView { message_id: d.message_id, from_user: user }),
                None,
            ),
        ),
{
    let news = read_news(ReadAckView { from_user: user, ..d }, true);
    assert(e[0] == news[0]);
    assert(e[1] == news[1]);
}

/// Keys that a client publishes, asks for or revokes are a matter of the home
/// node of the user whose keys they are: from elsewhere the request goes there,
/// under the name of the client's user, and nothing happens here. A request
/// that names no user or no device is ignored.
pub proof fn law_key_requests_go_home(
    a: Gateway,
    b: Gateway,
    upload: Option<Seq<char>>,
    user: Seq<char>,
    session_id: u64,
    p: PacketView,
    now: u64,
    e: Seq<EffectView>,
    end: Option<MessengerError>,
)
    requires
        client_step(a, b, upload, upload, user, session_id, p, now, e, end),
        user.len() > 0,
    ensures
        match p {
            PacketView::PublishKeys(k) => {
                &&& k.device_id.len() == 0 ==> b == a && e.len() == 0
                &&& k.device_id.len() > 0 && elsewhere(a.cluster, user) is Some ==> {
                    &&& b == a
                    &&& e == seq![
                        EffectView::ToPeer(
                            elsewhere(a.cluster, user)->0,
                            PacketView::PublishKeys(
                                PublishKeysView {
                                    user_id: user,
                                    device_id: k.device_id,
                                    identity_key: k.identity_key,
                                    one_time_keys: k.one_time_keys,
                                },
                            ),
                        ),
                    ]
                }
                &&& k.device_id.len() > 0 && elsewhere(a.cluster, user) is None ==> {
                    &&& e.len() == 0
                    &&& b.keys.at(user).contains_key(k.device_id)
                    &&& b.keys.at(user)[k.device_id].device_id == k.device_id
                    &&& b.keys.at(user)[k.device_id].identity_key == k.identity_key
                    &&& b.keys.at(user)[k.device_id].one_time_keys == k.one_time_keys
                }
            },
            PacketView::FetchKeys(f) => {
                &&& f.user_id.len() == 0 ==> b == a && e.len() == 0
                &&& f.user_id.len() > 0 && elsewhere(a.cluster, f.user_id) is Some ==> {
                    &&& b == a
                    &&& e == seq![
                        EffectView::ToPeer(
                            elsewhere(a.cluster, f.user_id)->0,
                            PacketView::FetchKeys(FetchKeysView { for_user: user, ..f }),
                        ),
                    ]
                }
                &&& f.user_id.len() > 0 && elsewhere(a.cluster, f.user_id) is None ==> {
                    &&& e.len() == 1
                    &&& e[0] is Deliver
                    &&& e[0]->Deliver_0 == user
                    &&& e[0]->Deliver_1 is KeyBundle
                    &&& e[0]->Deliver_1->KeyBundle_0.user_id == f.user_id
                    &&& e[0]->Deliver_1->KeyBundle_0.for_user == user
                }
            },
            PacketView::RemoveDeviceKeys(k) => {
                &&& k.device_id.len() == 0 ==> b == a && e.len() == 0
                &&& k.device_id.len() > 0 && elsewhere(a.cluster, user) is Some ==> {
                    &&& b == a
                    &&& e == seq![
                        EffectView::ToPeer(
                            elsewhere(a.cluster, user)->0,
                            PacketView::RemoveDeviceKeys(
                                RemoveDeviceKeysView { user_id: user, device_id: k.device_id },
                            ),
                        ),
                    ]
                }
                &&& k.device_id.len() > 0 && elsewhere(a.cluster, user) is None ==> e.len() == 0
                    && !b.keys.at(user).contains_key(k.device_id)
            },
            _ => true,
        },
{
}

/// The home node of a user does with the keys what a peer asks for a client of
/// its own: it keeps what was published, forgets what was revoked, and sends the
/// bundle to who asked for it. Asked for a device that has keys, it gives that
/// device's identity key and its first one-time key.
pub proof fn law_home_node_keeps_the_keys(
    a: Gateway,
    b: Gateway,
    peer: Seq<char>,
    p: PacketView,
    now: u64,
    e: Seq<EffectView>,
)
    requires
        peer_step(a, b, peer, p, now, e),
    ensures
        match p {
            PacketView::PublishKeys(k) => k.user_id.len() > 0 && k.device_id.len() > 0 && elsewhere(
                a.cluster,
                k.user_id,
            ) is None ==> {
                &&& e.len() == 0
                &&& b.keys.at(k.user_id).contains_key(k.device_id)
                &&& b.keys.at(k.user_id)[k.device_id].identity_key == k.identity_key
                &&& b.keys.at(k.user_id)[k.device_id].one_time_keys == k.one_time_keys
            },
            PacketView::RemoveDeviceKeys(k) => k.user_id.len() > 0 && k.device_id.len() > 0
                && elsewhere(a.cluster, k.user_id) is None ==> e.len() == 0 && !b.keys.at(
                k.user_id,
            ).contains_key(k.device_id),
            PacketView::FetchKeys(f) => f.user_id.len() > 0 && f.for_user.len() > 0 && elsewhere(
                a.cluster,
                f.user_id,
            ) is None ==> {
                &&& e.len() == 1
                &&& e[0] is Deliver
                &&& e[0]->Deliver_0 == f.for_user
                &&& e[0]->Deliver_1 is KeyBundle
                &&& e[0]->Deliver_1->KeyBundle_0.for_user == f.for_user
                &&& e[0]->Deliver_1->KeyBundle_0.user_id == f.user_id
                &&& f.device_id.len() > 0 && a.keys.at(f.user_id).contains_key(f.device_id) ==> {
                    let k = a.keys.at(f.user_id)[f.device_id];
                    &&& e[0]->Deliver_1->KeyBundle_0.identity_key == k.identity_key
                    &&& k.one_time_keys.len() > 0 ==> e[0]->Deliver_1->KeyBundle_0.one_time_key
                        == k.one_time_keys[0]
                }
            },
            _ => true,
        },
{
    if let PacketView::FetchKeys(f) = p {
        if f.device_id.len() > 0 && a.keys.at(f.user_id).contains_key(f.device_id) {
            assert(is_pick(a.keys.at(f.user_id), f.device_id, f.device_id));
        }
    }
}

/// A blob that another node holds is asked from that node, and what the node
/// sends of it goes to the session that asked, frame by frame, until the last
/// one.
pub proof fn law_blob_is_fetched_from_its_holder(
    a: Gateway,
    b: Gateway,
    after: Gateway,
    upload: Option<Seq<char>>,
    user: Seq<char>,
    session_id: u64,
    f: MediaFetchView,
    now: u64,
    e: Seq<EffectView>,
    end: Option<MessengerError>,
    frame: PacketView,
    sent: Seq<EffectView>,
)
    requires
        client_step(
            a,
            b,
            upload,
            upload,
            user,
            session_id,
            PacketView::MediaFetch(f),
            now,
            e,
            end,
        ),
        !complete_blob(blob_at(a.media@, f.media_id)),
        a.cluster is Some,
        a.media_owners@.contains_key(f.media_id),
        a.media_owners@[f.media_id]@ != a.cluster->0.node_id@,
        session_exists(a.sessions.at(user), session_id),
        match frame {
            PacketView::MediaStart(m) => m.media_id == f.media_id,
            PacketView::MediaChunk(c) => c.media_id == f.media_id,
            _ => false,
        },
        peer_step(b, after, a.media_owners@[f.media_id]@, frame, now, sent),
    ensures
        e == seq![
            EffectView::ToPeer(a.media_owners@[f.media_id]@, PacketView::MediaFetch(f)),
        ],
        sent == seq![EffectView::ToSession(session_id, frame)],
        after.media_relays@.contains_key(f.media_id) <==> !(frame is MediaChunk
            && frame->MediaChunk_0.last),
        after.media_relays@.contains_key(f.media_id) ==> after.media_relays@[f.media_id]
            == session_id,
{
}

/// A blob that is here is sent to who asks, a client or a peer, and to nobody
/// else; one that is nowhere is an error for a client and silence for a peer.
pub proof fn law_blob_goes_to_who_asks(
    a: Gateway,
    b: Gateway,
    c: Gateway,
    upload: Option<Seq<char>>,
    user: Seq<char>,
    session_id: u64,
    f: MediaFetchView,
    now: u64,
    e: Seq<EffectView>,
    end: Option<MessengerError>,
    peer: Seq<char>,
    there: Seq<EffectView>,
    i: int,
)
    requires
        client_step(
            a,
            b,
            upload,
            upload,
            user,
            session_id,
            PacketView::MediaFetch(f),
            now,
            e,
            end,
        ),
        peer_step(a, c, peer, PacketView::MediaFetch(f), now, there),
    ensures
        complete_blob(blob_at(a.media@, f.media_id)) ==> {
            &&& b == a
            &&& e.len() == there.len()
            &&& e.len() > 0
            &&& 0 <= i < e.len() ==> e[i] is Reply && there[i] is ToPeer && there[i]->ToPeer_0
                == peer && there[i]->ToPeer_1 == e[i]->Reply_0
            &&& e[0] is Reply
            &&& e[0]->Reply_0 is MediaStart
            &&& e[0]->Reply_0->MediaStart_0.media_id == f.media_id
            &&& e[0]->Reply_0->MediaStart_0.total_size == blob_at(
                a.media@,
                f.media_id,
            )->0.total_size
        },
        !complete_blob(blob_at(a.media@, f.media_id)) ==> {
            &&& there.len() == 0
            &&& e.len() == 1
            &&& !a.media_owners@.contains_key(f.media_id) || a.cluster is None ==> b == a && e[0]
                is Reply && e[0]->Reply_0 is Error && e[0]->Reply_0->Error_0.code
                == ErrorCode::MediaTransferFailed.number()
        },
        c == a,
{
}

/// Who hears that a node has a blob asks that node for it from now on, and
/// keeps what it knew of other blobs.
pub proof fn law_holder_of_a_blob_is_remembered(
    a: Gateway,
    b: Gateway,
    peer: Seq<char>,
    m: PeerMediaReadyView,
    now: u64,
    e: Seq<EffectView>,
    other: Seq<char>,
)
    requires
        peer_step(a, b, peer, PacketView::PeerMediaReady(m), now, e),
        other != m.media_id,
    ensures
        b.media_owners@.contains_key(m.media_id),
        b.media_owners@[m.media_id]@ == m.node_id,
        b.media_owners@.contains_key(other) <==> a.media_owners@.contains_key(other),
        a.media_owners@.contains_key(other) ==> b.media_owners@[other]@ == a.media_owners@[other]@,
        b.media == a.media,
        e.len() == 0,
{
    assert(place_at(b.media_owners@, m.media_id) == Some(m.node_id));
    assert(place_at(b.media_owners@, other) == place_at(a.media_owners@, other));
}

/// The contacts that a client names are those of its own user, whatever the
/// packet says, and replace the ones there were. The peers are told as much, and
/// one that hears it does the same without passing it on.
pub proof fn law_roster_is_kept_everywhere(
    a: Gateway,
    b: Gateway,
    upload: Option<Seq<char>>,
    user: Seq<char>,
    session_id: u64,
    x: SubscribePresenceView,
    now: u64,
    e: Seq<EffectView>,
    end: Option<MessengerError>,
    there: Gateway,
    there_after: Gateway,
    from: Seq<char>,
    later: u64,
    told: Seq<EffectView>,
    other: Seq<char>,
)
    requires
        client_step(
            a,
            b,
            upload,
            upload,
            user,
            session_id,
            PacketView::SubscribePresence(x),
            now,
            e,
            end,
        ),
        a.cluster is Some,
        e[0] is ToPeers ==> peer_step(there, there_after, from, e[0]->ToPeers_0, later, told),
        other != user,
    ensures
        b.rosters@.contains_key(user),
        strs(b.rosters@[user]@) == x.contact_ids,
        a.rosters@.contains_key(other) ==> b.rosters@.contains_key(other) && b.rosters@[other]
            == a.rosters@[other],
        b.rosters@.contains_key(other) ==> a.rosters@.contains_key(other),
        e.len() == 1,
        e[0] is ToPeers,
        there_after.rosters@.contains_key(user),
        strs(there_after.rosters@[user]@) == x.contact_ids,
        there.rosters@.contains_key(other) ==> there_after.rosters@.contains_key(other)
            && there_after.rosters@[other] == there.rosters@[other],
        told.len() == 0,
{
    assert(b.rosters@.dom().contains(user));
    assert(b.rosters@.dom().contains(other) <==> a.rosters@.dom().contains(other));
    assert(there_after.rosters@.dom().contains(user));
    assert(there_after.rosters@.dom().contains(other) <==> there.rosters@.dom().contains(other));
}

/// The end of a session ends that session and no other. The moment is noted, and
/// the contacts and peers hear that the user left, where it was the user's last
/// one and only there.
pub proof fn law_last_session_takes_the_user_offline(
    a: Gateway,
    b: Gateway,
    user: Seq<char>,
    session_id: u64,
    now: u64,
    e: Seq<EffectView>,
    x: SessionView,
    other: Seq<char>,
)
    requires
        a.sessions.wf(),
        end_step(a, b, user, session_id, now, e),
        other != user,
    ensures
        b.sessions.at(user).contains(x) <==> a.sessions.at(user).contains(x) && x.session_id
            != session_id,
        b.sessions.at(other) == a.sessions.at(other),
        e.len() > 0 <==> a.sessions.at(user).len() > 0 && b.sessions.at(user).len() == 0,
        e.len() > 0 ==> {
            &&& b.last_seen@.contains_key(user)
            &&& b.last_seen@[user] == now
            &&& e[0] is ToUsers
            &&& e[0]->ToUsers_1 == audience(b.sessions, a.rosters@, user)
            &&& e[0]->ToUsers_0 is Presence
            &&& e[0]->ToUsers_0->Presence_0.user_id == user
            &&& e[0]->ToUsers_0->Presence_0.kind == PresenceKind::Unavailable.number()
            &&& e[0]->ToUsers_0->Presence_0.last_seen == now
            &&& a.cluster is Some ==> e.len() == 2 && e[1] is ToPeers && e[1]->ToPeers_0
                is PeerPresence && e[1]->ToPeers_0->PeerPresence_0.user_id == user
                && !e[1]->ToPeers_0->PeerPresence_0.online
        },
        e.len() == 0 ==> b.last_seen@ == a.last_seen@,
        b.inboxes == a.inboxes,
        b.groups == a.groups,
        b.cluster == a.cluster,
{
    let offline = a.sessions.at(user).len() > 0 && b.sessions.at(user).len() == 0;
    assert(detached(a.sessions, user, session_id, b.sessions, offline));
    law_logout_ends_one_session(a.sessions, user, session_id, b.sessions, offline, x, other);
}

/// What a peer says of a user decides where packets for that user go from now
/// on, and when the user was last seen; its own contacts hear it too. It decides
/// nothing for other users.
pub proof fn law_peers_say_where_users_are(
    a: Gateway,
    b: Gateway,
    peer: Seq<char>,
    q: PeerPresenceView,
    now: u64,
    e: Seq<EffectView>,
    other: Seq<char>,
)
    requires
        peer_step(a, b, peer, PacketView::PeerPresence(q), now, e),
        other != q.user_id,
        a.cluster is Some,
    ensures
        q.online ==> b.user_locations@.contains_key(q.user_id) && b.user_locations@[q.user_id]@
            == q.node_id,
        q.online && q.node_id != a.cluster->0.node_id@ ==> forward_to(
            b.cluster,
            place_at(b.user_locations@, q.user_id),
            false,
        ) == Some(q.node_id),
        !q.online ==> b.last_seen@.contains_key(q.user_id) && b.last_seen@[q.user_id]
            == q.last_seen,
        !q.online && b.user_locations@.contains_key(q.user_id) ==> b.user_locations@[q.user_id]@
            != q.node_id,
        b.user_locations@.contains_key(other) <==> a.user_locations@.contains_key(other),
        a.user_locations@.contains_key(other) ==> b.user_locations@[other]@
            == a.user_locations@[other]@,
        e.len() == 1,
        e[0] is ToUsers,
        e[0]->ToUsers_1 == audience(a.sessions, a.rosters@, q.user_id),
        e[0]->ToUsers_0 is Presence,
        e[0]->ToUsers_0->Presence_0.user_id == q.user_id,
        e[0]->ToUsers_0->Presence_0.kind == (if q.online {
            PresenceKind::Available.number()
        } else {
            PresenceKind::Unavailable.number()
        }),
{
    assert(place_at(b.user_locations@, other) == place_at(a.user_locations@, other));
    assert(q.online ==> place_at(b.user_locations@, q.user_id) == Some(q.node_id));
    assert(place_at(b.user_locations@, q.user_id) is Some
        <==> b.user_locations@.contains_key(q.user_id));
}

/// A membership event from a client of another node goes to the home node of the
/// group under the name of the client's user, for nobody in particular, and
/// changes nothing here.
pub proof fn law_group_changes_go_home(
    a: Gateway,
    b: Gateway,
    upload: Option<Seq<char>>,
    user: Seq<char>,
    session_id: u64,
    ev: GroupEventView,
    now: u64,
    e: Seq<EffectView>,
    end: Option<MessengerError>,
)
    requires
        client_step(
            a,
            b,
            upload,
            upload,
            user,
            session_id,
            PacketView::GroupEvent(ev),
            now,
            e,
            end,
        ),
        elsewhere(a.cluster, ev.group_id) is Some,
    ensures
        b.groups@ == a.groups@,
        e == seq![
            EffectView::ToPeer(
                elsewhere(a.cluster, ev.group_id)->0,
                PacketView::GroupEvent(
                    GroupEventView { actor_user: user, to_user: Seq::empty(), ..ev },
                ),
            ),
        ],
{
}

/// An acknowledged chat message survives a restart: with the entry that was
/// persisted for it at the end of the journal, the message waits again for its
/// recipient, as it was sent and under the number that it was acknowledged with.
pub proof fn law_acknowledged_chat_survives_a_restart(
    entries: Seq<PacketView>,
    m: ChatMessageView,
)
    requires
        m.to_user.len() > 0,
        m.message_id.len() > 0,
        ({
            let v = or_empty(replayed(m.to_user, entries));
            v.next_seq < u64::MAX && !v.seen.contains(m.message_id)
        }),
        forall|j: int|
            0 <= j < entries.len() ==> !((#[trigger] entries[j]).recipient() == Some(m.to_user)
                && entries[j].dedup_key() == Some(m.message_id)),
    ensures
        ({
            let v = or_empty(replayed(m.to_user, entries));
            let e = chat_effects(None, v, m);
            let number = (v.next_seq + 1) as u64;
            let w = replayed(m.to_user, entries.push(e[0]->Persist_0));
            &&& e[0] is Persist
            &&& e[1] is Reply && e[1]->Reply_0 is ServerAck && e[1]->Reply_0->ServerAck_0.seq
                == number
            &&& w is Some
            &&& w->0.next_seq == number
            &&& w->0.pending.contains(
                StoredView {
                    seq: number,
                    packet: PacketView::ChatMessage(ChatMessageView { seq: number, ..m }),
                    delivered: false,
                },
            )
        }),
{
    let v = or_empty(replayed(m.to_user, entries));
    let p = chat_effects(None, v, m)[0]->Persist_0;
    let all = entries.push(p);
    let n = entries.len() as int;
    assert(all[n] == p);
    assert(all.drop_last() =~= entries);
    law_unacknowledged_message_survives(m.to_user, all, n);
}

/// No two sessions get one number, until the count wraps around, and numbering
/// changes nothing else.
pub proof fn law_session_numbers_are_fresh(
    a: Gateway,
    first: u64,
    b: Gateway,
    second: u64,
    c: Gateway,
)
    requires
        session_numbered(a, first, b),
        session_numbered(b, second, c),
        a.next_session < u64::MAX,
    ensures
        first == a.next_session,
        second == first + 1,
        c.sessions == a.sessions,
        c.inboxes == a.inboxes,
        c.groups == a.groups,
{
}

/// After a shutdown nobody is connected, and everyone who was has been seen last
/// at that moment. What waits for users, the groups and the keys stay.
pub proof fn law_shutdown_ends_sessions_and_keeps_the_rest(
    before: Gateway,
    now: u64,
    after: Gateway,
    user: Seq<char>,
)
    requires
        shut_down(before, now, after),
    ensures
        after.sessions.at(user).len() == 0,
        before.sessions.at(user).len() > 0 ==> after.last_seen@.contains_key(user)
            && after.last_seen@[user] == now,
        before.sessions.at(user).len() == 0 ==> {
            &&& after.last_seen@.contains_key(user) <==> before.last_seen@.contains_key(user)
            &&& before.last_seen@.contains_key(user) ==> after.last_seen@[user]
                == before.last_seen@[user]
        },
        after.inboxes == before.inboxes,
        after.groups == before.groups,
        after.keys == before.keys,
        after.media == before.media,
        after.rosters == before.rosters,
{
    assert(after.sessions.at(user) == Seq::<SessionView>::empty());
    assert(after.last_seen@.contains_key(user) <==> before.last_seen@.contains_key(user)
        || before.sessions.at(user).len() > 0);
}

/// A session that takes its packets goes on; one whose queue is full is closed
/// and gone, and no other session is.
pub proof fn law_slow_sessions_are_dropped(
    before: Gateway,
    user: Seq<char>,
    session_id: u64,
    taken: bool,
    now: u64,
    after: Gateway,
    e: Seq<EffectView>,
    x: SessionView,
)
    requires
        before.sessions.wf(),
        queue_answered(before, user, session_id, taken, now, after, e),
    ensures
        taken ==> after == before && e.len() == 0,
        !taken ==> e.len() > 0 && e[0] == EffectView::CloseSession(session_id),
        !taken ==> (after.sessions.at(user).contains(x) <==> before.sessions.at(user).contains(x)
            && x.session_id != session_id),
{
    if !taken {
        let other = user.push('a');
        assert(other.len() != user.len());
        law_last_session_takes_the_user_offline(
            before,
            after,
            user,
            session_id,
            now,
            e.skip(1),
            x,
            other,
        );
    }
}

/// A member's message to a group of this node waits for every other member who
/// is at home here, as it was sent, under the sender's name; the sender's own
/// inbox, and those of people outside the group, stay as they were. The sender
/// is acknowledged last.
pub proof fn law_group_message_waits_for_every_member(
    a: Gateway,
    b: Gateway,
    upload: Option<Seq<char>>,
    user: Seq<char>,
    session_id: u64,
    m: GroupMessageView,
    now: u64,
    e: Seq<EffectView>,
    end: Option<MessengerError>,
    member: Seq<char>,
)
    requires
        client_step(
            a,
            b,
            upload,
            upload,
            user,
            session_id,
            PacketView::GroupMessage(m),
            now,
            e,
            end,
        ),
        m.group_id.len() > 0,
        m.message_id.len() > 0,
        elsewhere(a.cluster, m.group_id) is None,
        a.groups@.contains_key(m.group_id),
        a.groups@[m.group_id]@.members.contains(user),
        a.inbox_has_room(member),
        a.cfg.max_inbox > 0,
    ensures
        member != user && a.groups@[m.group_id]@.members.contains(member) && elsewhere(
            a.cluster,
            member,
        ) is None && !or_empty(inbox_at(a.inboxes@, member)).seen.contains(
            m.message_id + ":"@ + member,
        ) ==> {
            let v = b.inboxes@[member]@;
            &&& b.inboxes@.contains_key(member)
            &&& v.pending.len() > 0
            &&& !v.pending.last().delivered
            &&& v.pending.last().packet == PacketView::GroupMessage(
                GroupMessageView { from_user: user, to_user: member, seq: v.next_seq, ..m },
            )
        },
        member == user || !a.groups@[m.group_id]@.members.contains(member) ==> {
            &&& b.inboxes@.contains_key(member) <==> a.inboxes@.contains_key(member)
            &&& a.inboxes@.contains_key(member) ==> b.inboxes@[member]@ == a.inboxes@[member]@
        },
        e.len() > 0,
        e.last() is Reply,
        e.last()->Reply_0 is ServerAck,
        e.last()->Reply_0->ServerAck_0.message_id == m.message_id,
{
    let taken = GroupMessageView { from_user: user, ..m };
    let g = group_at(a.groups@, m.group_id);
    assert(fanout_step(
        a,
        b,
        taken,
        EffectView::Reply(server_ack(m.message_id, 0, Seq::empty())),
        e,
    ));
    let members = choose|members: Seq<Seq<char>>| #[trigger]
        lists_members(members, g) && e == fanout_effects(a.cluster, a.inboxes@, taken, members)
            + seq![EffectView::Reply(server_ack(m.message_id, 0, Seq::empty()))] && fanned_out(
            a.cluster,
            a.inboxes@,
            b.inboxes@,
            taken,
            members,
            a.cfg.max_inbox as nat,
        );
    assert(members.to_set().contains(member) <==> members.contains(member));
    assert(inbox_at(b.inboxes@, member) == inbox_at(b.inboxes@, member));
    law_new_message_waits(
        or_empty(inbox_at(a.inboxes@, member)),
        m.message_id + ":"@ + member,
        PacketView::GroupMessage(copy_for(taken, member)),
        a.cfg.max_inbox as nat,
    );
}

/// Once the last chunk of an upload is in and the blob is whole, every peer hears
/// which node has it, and this node knows that it is itself; before that, and for
/// an upload that failed, nobody hears anything. Every chunk is answered, and no
/// other blob is touched.
pub proof fn law_finished_upload_is_announced(
    a: Gateway,
    b: Gateway,
    upload: Option<Seq<char>>,
    upload_after: Option<Seq<char>>,
    user: Seq<char>,
    session_id: u64,
    c: MediaChunkView,
    now: u64,
    e: Seq<EffectView>,
    end: Option<MessengerError>,
    other: Seq<char>,
)
    requires
        client_step(
            a,
            b,
            upload,
            upload_after,
            user,
            session_id,
            PacketView::MediaChunk(c),
            now,
            e,
            end,
        ),
        a.cluster is Some,
        other != c.media_id,
    ensures
        e.last() is Reply,
        e.last()->Reply_0 is MediaAck && e.last()->Reply_0->MediaAck_0.complete ==> {
            &&& e.len() == 2
            &&& e[0] == EffectView::ToPeers(
                PacketView::PeerMediaReady(
                    PeerMediaReadyView {
                        media_id: c.media_id,
                        node_id: a.cluster->0.node_id@,
                    },
                ),
                None,
            )
            &&& b.media_owners@.contains_key(c.media_id)
            &&& b.media_owners@[c.media_id]@ == a.cluster->0.node_id@
            &&& complete_blob(blob_at(b.media@, c.media_id))
            &&& upload_after is None
        },
        !(e.last()->Reply_0 is MediaAck && e.last()->Reply_0->MediaAck_0.complete) ==> e.len() == 1,
        blob_at(b.media@, other) == blob_at(a.media@, other),
        b.media_owners@.contains_key(other) <==> a.media_owners@.contains_key(other),
{
    assert(place_at(b.media_owners@, c.media_id) is Some
        <==> b.media_owners@.contains_key(c.media_id));
    assert(place_at(b.media_owners@, other) == place_at(a.media_owners@, other));
    assert(blob_at(b.media@, c.media_id) == blob_at(b.media@, c.media_id));
}

/// An upload that is taken is the one that the connection uploads from now on,
/// and its blob is empty; one that is refused changes nothing.
pub proof fn law_started_upload_is_the_current_one(
    a: Gateway,
    b: Gateway,
    upload: Option<Seq<char>>,
    upload_after: Option<Seq<char>>,
    user: Seq<char>,
    session_id: u64,
    m: MediaStartView,
    now: u64,
    e: Seq<EffectView>,
    end: Option<MessengerError>,
    other: Seq<char>,
)
    requires
        client_step(
            a,
            b,
            upload,
            upload_after,
            user,
            session_id,
            PacketView::MediaStart(m),
            now,
            e,
            end,
        ),
        other != m.media_id,
    ensures
        e.len() == 1,
        e[0] is Reply,
        m.media_id.len() > 0 && 0 < m.total_size <= a.cfg.max_media_bytes ==> {
            &&& upload_after == Some(m.media_id)
            &&& blob_at(b.media@, m.media_id) is Some
            &&& blob_at(b.media@, m.media_id)->0.data.len() == 0
            &&& blob_at(b.media@, m.media_id)->0.total_size == m.total_size
            &&& !blob_at(b.media@, m.media_id)->0.complete
            &&& e[0]->Reply_0 is MediaAck
            &&& e[0]->Reply_0->MediaAck_0.ok
        },
        !(m.media_id.len() > 0 && 0 < m.total_size <= a.cfg.max_media_bytes) ==> {
            &&& upload_after == upload
            &&& b.media@ == a.media@
            &&& !(e[0]->Reply_0 is MediaAck && e[0]->Reply_0->MediaAck_0.ok)
        },
        blob_at(b.media@, other) == blob_at(a.media@, other),
{
}

/// What a former home node hands over is kept here: the messages that the inbox
/// had not seen wait in it and are persisted, none that waited is lost, and the
/// number never falls below the one handed over; where it rises, the new one is
/// persisted. Nobody else's inbox is touched.
pub proof fn law_handed_over_inbox_is_kept(
    a: Gateway,
    b: Gateway,
    peer: Seq<char>,
    h: PeerHandoffUserView,
    now: u64,
    e: Seq<EffectView>,
    x: StoredView,
    other: Seq<char>,
)
    requires
        peer_step(a, b, peer, PacketView::PeerHandoffUser(h), now, e),
        other != h.user_id,
    ensures
        b.inboxes@.contains_key(h.user_id),
        ({
            let v = or_empty(inbox_at(a.inboxes@, h.user_id));
            let w = b.inboxes@[h.user_id]@;
            &&& w.next_seq >= h.next_seq
            &&& w.next_seq >= v.next_seq
            &&& v.pending.contains(x) ==> w.pending.contains(x)
            &&& h.chats.len() > 0 && !v.seen.contains(h.chats[0].message_id) ==> w.pending.contains(
                StoredView {
                    seq: h.chats[0].seq,
                    packet: PacketView::ChatMessage(h.chats[0]),
                    delivered: false,
                },
            )
            &&& w.next_seq > v.next_seq ==> e.len() > 0 && e[0] is Persist && e[0]->Persist_0
                is SyncComplete && e[0]->Persist_0->SyncComplete_0.user_id == h.user_id
                && e[0]->Persist_0->SyncComplete_0.latest_seq == w.next_seq
            &&& forall|k: Seq<char>| h.seen.contains(k) ==> #[trigger] w.seen.contains(k)
        }),
        b.inboxes@.contains_key(other) <==> a.inboxes@.contains_key(other),
        a.inboxes@.contains_key(other) ==> b.inboxes@[other]@ == a.inboxes@[other]@,
        b.groups == a.groups,
        b.sessions == a.sessions,
{
    let v = or_empty(inbox_at(a.inboxes@, h.user_id));
    assert(inbox_at(b.inboxes@, h.user_id) is Some);
    assert(inbox_at(b.inboxes@, other) == inbox_at(a.inboxes@, other));
    law_handoff_is_idempotent(v, h);
    law_handoff_keeps_messages(v, h);
    law_handoff_adds_what_is_new(v, h);
    if h.chats.len() > 0 && !v.seen.contains(h.chats[0].message_id) {
        assert(first_of_key(chat_keys(h.chats), 0));
        assert(handoff_merged(v, h).pending.contains(
            waiting_as_is(PacketView::ChatMessage(h.chats[0])),
        ));
    }
    assert forall|k: Seq<char>| h.seen.contains(k) implies #[trigger] b.inboxes@[h.user_id]@.seen.contains(
        k,
    ) by {
        assert(h.seen.to_set().contains(k));
    }
}

/// A group that a former home node hands over is kept here as it was there,
/// unless a later version of it is here already; other groups stay.
pub proof fn law_handed_over_group_is_kept(
    a: Gateway,
    b: Gateway,
    peer: Seq<char>,
    h: PeerHandoffGroupView,
    now: u64,
    e: Seq<EffectView>,
    user: Seq<char>,
    other: Seq<char>,
)
    requires
        peer_step(a, b, peer, PacketView::PeerHandoffGroup(h), now, e),
        other != h.group_id,
    ensures
        b.groups@.contains_key(h.group_id),
        !a.groups@.contains_key(h.group_id) || a.groups@[h.group_id]@.version <= h.version ==> {
            &&& b.groups@[h.group_id]@.version == h.version
            &&& b.groups@[h.group_id]@.members.contains(user) <==> h.members.contains(user)
            &&& b.groups@[h.group_id]@.admins.contains(user) <==> h.admins.contains(user)
        },
        a.groups@.contains_key(h.group_id) && a.groups@[h.group_id]@.version > h.version
            ==> b.groups@[h.group_id]@.version == a.groups@[h.group_id]@.version && (
        b.groups@[h.group_id]@.members.contains(user)
            <==> a.groups@[h.group_id]@.members.contains(user)),
        b.groups@.contains_key(other) <==> a.groups@.contains_key(other),
        a.groups@.contains_key(other) ==> b.groups@[other]@ == a.groups@[other]@,
        b.inboxes == a.inboxes,
{
    law_merge_keeps_the_later_version(group_at(a.groups@, h.group_id), h, user);
    assert(group_at(b.groups@, h.group_id) is Some);
    assert(group_at(b.groups@, other) == group_at(a.groups@, other));
}

/// A node that hears of a newcomer links it, gives it its place among the nodes
/// and passes the news on, but not to where it came from; what it knows already,
/// or is itself, is no news and goes nowhere.
pub proof fn law_news_of_a_newcomer_travels(
    a: Gateway,
    b: Gateway,
    peer: Seq<char>,
    j: PeerJoinView,
    now: u64,
    e: Seq<EffectView>,
)
    requires
        peer_step(a, b, peer, PacketView::PeerJoin(j), now, e),
        a.cluster is Some,
        j.node_id.len() > 0,
    ensures
        b.cluster is Some,
        b.cluster->0.node_id@ == a.cluster->0.node_id@,
        j.node_id != a.cluster->0.node_id@ ==> {
            &&& b.cluster->0.links@.contains(j.node_id)
            &&& b.cluster->0.ring.nodes@.contains_key(j.node_id)
        },
        j.node_id != a.cluster->0.node_id@ && !a.cluster->0.links@.contains(j.node_id) ==> {
            &&& e.contains(EffectView::OpenLink(j.node_id, j.addr))
            &&& e.contains(EffectView::ToPeers(PacketView::PeerJoin(j), Some(peer)))
        },
        j.node_id == a.cluster->0.node_id@ ==> b.cluster == a.cluster && b.inboxes@ == a.inboxes@
            && e.len() == 0,
        a.cluster->0.links@.contains(j.node_id) && a.cluster->0.ring.nodes@.contains_key(j.node_id)
            ==> b.cluster == a.cluster && e.len() == 0,
{
    if e.len() > 0 {
        let other = j.node_id.push('a');
        assert(other.len() != j.node_id.len());
        law_newcomer_is_announced_once(
            a.cluster->0,
            b.cluster->0,
            j.node_id,
            j.addr,
            peer,
            a.inboxes@,
            b.inboxes@,
            a.groups@,
            b.groups@,
            e,
            other,
        );
    }
}

/// A node that hears that another one left closes the link to it and takes it off
/// the nodes; nobody can make it leave its own place.
pub proof fn law_news_of_a_departure_is_heeded(
    a: Gateway,
    b: Gateway,
    peer: Seq<char>,
    l: PeerLeaveView,
    now: u64,
    e: Seq<EffectView>,
)
    requires
        peer_step(a, b, peer, PacketView::PeerLeave(l), now, e),
        a.cluster is Some,
        l.node_id.len() > 0,
    ensures
        b.cluster is Some,
        b.cluster->0.node_id@ == a.cluster->0.node_id@,
        l.node_id != a.cluster->0.node_id@ ==> {
            &&& !b.cluster->0.links@.contains(l.node_id)
            &&& !b.cluster->0.ring.nodes@.contains_key(l.node_id)
            &&& e.contains(EffectView::CloseLink(l.node_id))
        },
        l.node_id == a.cluster->0.node_id@ ==> b.cluster == a.cluster && b.inboxes@ == a.inboxes@
            && b.groups@ == a.groups@ && e.len() == 0,
{
    if l.node_id != a.cluster->0.node_id@ {
        let other = l.node_id.push('a');
        assert(other.len() != l.node_id.len());
        law_departed_node_is_gone(
            a.cluster->0,
            b.cluster->0,
            l.node_id,
            a.inboxes@,
            b.inboxes@,
            a.groups@,
            b.groups@,
            e,
            other,
        );
    }
}

/// A packet finds room where no number that it needs is used up: a chat message
/// needs one of its recipient, and a change of a group one of that group. Other
/// packets need none.
pub proof fn law_room_is_a_number_left(a: Gateway, m: ChatMessageView, ev: GroupEventView, p: PacketView)
    ensures
        a.has_room_for(PacketView::ChatMessage(m)) <==> a.inboxes@.contains_key(m.to_user)
            ==> a.inboxes@[m.to_user]@.next_seq < u64::MAX,
        a.has_room_for(PacketView::GroupEvent(ev)) <==> a.groups@.contains_key(ev.group_id)
            ==> a.groups@[ev.group_id]@.version < u64::MAX,
        !(p is ChatMessage || p is GroupMessage || p is GroupEvent) ==> a.has_room_for(p),
{
}

} // verus!
