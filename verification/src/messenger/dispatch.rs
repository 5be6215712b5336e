//! The gateway: its whole state, and what each frame from a client or a peer
//! does to it.

use crate::collections::StrMap;
use crate::messenger::cluster::{
    cluster_wf, elsewhere, handle_peer_join, handle_peer_leave, home_elsewhere, is_home,
    is_home_spec, join_is_news, node_id, node_name, peer_arrived, peer_departed, unchanged,
    ClusterState,
};
use crate::messenger::codec::{Packet, PacketView, DEFAULT_MAX_FRAME};
use crate::messenger::effects::{
    append_effects, effect_views, no_effects, push_effect, text_of, Effect, EffectView,
};
use crate::messenger::error::MessengerError;
use crate::messenger::fanout::{
    apply_membership, copy_effects, copy_key, event_from, fanned_out, fanout_effects,
    group_detour, groups_after, handle_group_event, handle_group_message, lists_members,
    membership_effects, right_targets, room_for_members, route_group_fanout, store_and_push_group_copy,
};
use crate::messenger::groups::{group_at, group_merged, groups_wf, merge_handoff_group, Group};
use crate::messenger::inbox::{
    all_waiting, handoff_merged, handoff_new, law_handoff_adds_what_is_new, packet_views,
    sorted_by_seq, Inbox, InboxView, StoredView,
};
use crate::messenger::journal::{high_water_mark, inbox_at, or_empty, sound};
use crate::messenger::key_store::{
    fetched, handed_out, is_pick, published_in, revoked_in, KeyDirectory, StoredKeysView,
};
use crate::messenger::limits::{AuthFailures, ConnLimiter};
use crate::messenger::login::{
    law_home_node_replays_to_who_asked, law_login_elsewhere_asks_the_home_node, replay_to_peer,
    sync_effects, welcome_effects,
};
use crate::messenger::media::{
    blob_at, chunk_effect, error_view, handle_media_chunk, handle_media_start, media_stream,
    announced, opt_text, proto_error, start_accepted, start_reply, stream_media, BlobView,
    MediaBlob,
};
use crate::messenger::presence::{
    audience, audience_of, broadcast_presence, law_only_contacts_exchange_presence, local_news,
    peer_kind, peer_presence, place_after, place_at, presence_news, remove_session, subscribe,
};
use crate::messenger::receipts::{
    note, noted, receipt_effects, receipts_after, receipts_at, receipts_wf, take_receipt, Receipts,
};
use crate::messenger::server::{
    ack_effects, acked_in, chat_effects, chat_is_local, delivered_news, handle_chat,
    handle_delivered_ack, handle_read_ack, read_news, route_new_chat, routed_chat_effects,
    stored_in,
};
use crate::messenger::sessions::{other_session, SessionTable, SessionView};
use crate::messenger::wire::{
    ChatMessageView, DeliveredAck, DeliveredAckView, ErrorCode, FetchKeys, FetchKeysView,
    GroupEventView, GroupMessage, GroupMessageView, MediaChunkView, MediaFetch, MediaFetchView, MediaStartView,
    LoginView, PeerHandoffUser, PeerHandoffUserView, PeerSyncView, PeerMediaReady, PeerMediaReadyView, Pong, PongView, PresenceKind,
    PublishKeys, PublishKeysView, ReadAck, ReadAckView, RemoveDeviceKeys, RemoveDeviceKeysView,
    SubscribePresence, SubscribePresenceView, SyncComplete,
};
use crate::text::{concat2, strs};
use crate::time::Duration;
use vstd::prelude::*;

verus! {

/// Limits of a gateway.
#[derive(Debug, Clone, Copy, PartialEq, Eq, Structural)]
pub struct ServerConfig {
    /// Most payload bytes per frame.
    pub max_frame: usize,
    /// A connection must log in within this time.
    pub login_deadline: Duration,
    /// Sessions silent for longer than this are closed.
    pub idle_timeout: Duration,
    /// Frames queued per session before it is dropped as too slow.
    pub session_buffer: usize,
    /// Most messages kept per inbox; the oldest go first.
    pub max_inbox: usize,
    /// Most bytes per blob.
    pub max_media_bytes: u64,
    /// Most members per group.
    pub max_group_members: usize,
    /// Most connections per source address and minute; zero is no limit.
    pub max_conns_per_ip_per_min: u32,
    /// Delay after the first failed login.
    pub auth_backoff_base: Duration,
    /// Longest delay after a failed login.
    pub auth_backoff_max: Duration,
    /// Interval of keepalive probes, if any.
    pub tcp_keepalive: Option<Duration>,
}

impl Default for ServerConfig {
    fn default() -> (c: Self)
        ensures
            c.max_frame == DEFAULT_MAX_FRAME,
            c.login_deadline == (Duration { secs: 10, nanos: 0 }),
            c.idle_timeout == (Duration { secs: 90, nanos: 0 }),
            c.session_buffer == 256,
            c.max_inbox == 10_000,
            c.max_media_bytes == 67_108_864,
            c.max_group_members == 1024,
            c.max_conns_per_ip_per_min == 120,
            c.auth_backoff_base.total_nanos() == 250_000_000,
            c.auth_backoff_base.wf(),
            c.auth_backoff_max == (Duration { secs: 30, nanos: 0 }),
            c.tcp_keepalive == Some(Duration { secs: 60, nanos: 0 }),
    {
        ServerConfig {
            max_frame: DEFAULT_MAX_FRAME,
            login_deadline: Duration::from_secs(10),
            idle_timeout: Duration::from_secs(90),
            session_buffer: 256,
            max_inbox: 10_000,
            max_media_bytes: 67_108_864,
            max_group_members: 1024,
            max_conns_per_ip_per_min: 120,
            auth_backoff_base: Duration::from_millis(250),
            auth_backoff_max: Duration::from_secs(30),
            tcp_keepalive: Some(Duration::from_secs(60)),
        }
    }
}

/// The state of a gateway.
pub struct Gateway {
    pub cfg: ServerConfig,
    /// Live sessions.
    pub sessions: SessionTable,
    /// When users were last seen, for those who are offline.
    pub last_seen: StrMap<u64>,
    /// Inboxes of the users at home here.
    pub inboxes: StrMap<Inbox>,
    /// Stored blobs.
    pub media: StrMap<MediaBlob>,
    /// Which node holds which blob.
    pub media_owners: StrMap<String>,
    /// Which session waits for which blob from a peer.
    pub media_relays: StrMap<u64>,
    /// Groups at home here.
    pub groups: StrMap<Group>,
    /// Published keys of the users at home here, by device.
    pub keys: KeyDirectory,
    /// The users with whom a user exchanges presence, for those who said so.
    pub rosters: StrMap<Vec<String>>,
    /// Receipts of the group messages that were fanned out here, by message.
    pub receipts: StrMap<Receipts>,
    /// Where users are connected, as told by peers.
    pub user_locations: StrMap<String>,
    /// The cluster, if the gateway is part of one.
    pub cluster: Option<ClusterState>,
    /// Failed logins.
    pub auth_failures: AuthFailures,
    /// Connections per source address.
    pub conn_rate: ConnLimiter,
    /// The number of the next session.
    pub next_session: u64,
}

impl Gateway {
    /// All parts are well formed.
    pub open spec fn wf(&self) -> bool {
        &&& self.sessions.wf()
        &&& self.last_seen.wf()
        &&& self.inboxes.wf()
        &&& sound(self.inboxes@)
        &&& self.media.wf()
        &&& self.media_owners.wf()
        &&& self.media_relays.wf()
        &&& self.groups.wf()
        &&& groups_wf(self.groups@)
        &&& self.keys.wf()
        &&& self.rosters.wf()
        &&& self.receipts.wf()
        &&& receipts_wf(self.receipts@)
        &&& self.user_locations.wf()
        &&& cluster_wf(self.cluster)
        &&& self.auth_failures.counts.wf()
        &&& self.conn_rate.windows.wf()
    }

    /// A user's inbox has a number left.
    pub open spec fn inbox_has_room(&self, user: Seq<char>) -> bool {
        or_empty(inbox_at(self.inboxes@, user)).next_seq < u64::MAX
    }

    /// No number that a packet may need is used up: the next sequence number of
    /// a recipient, or the next version of a group.
    pub open spec fn has_room_for(&self, p: PacketView) -> bool {
        match p {
            PacketView::ChatMessage(m) => self.inbox_has_room(m.to_user),
            PacketView::GroupMessage(m) => {
                &&& self.inbox_has_room(m.to_user)
                &&& room_for_members(self.inboxes@, group_at(self.groups@, m.group_id))
            },
            PacketView::GroupEvent(ev) => group_at(self.groups@, ev.group_id) matches Some(g)
                ==> g.version < u64::MAX,
            _ => true,
        }
    }

    /// Whether a user's inbox has a number left.
    fn inbox_room(&self, user: &str) -> (r: bool)
        requires
            self.wf(),
        ensures
            r == self.inbox_has_room(user@),
    {
        match self.inboxes.get(user) {
            Some(i) => i.next_seq < u64::MAX,
            None => true,
        }
    }

    /// Whether no number that a packet may need is used up.
    pub fn room_for_packet(&self, pkt: &Packet) -> (r: bool)
        requires
            self.wf(),
        ensures
            r == self.has_room_for(pkt@),
    {
        match pkt {
            Packet::ChatMessage(m) => self.inbox_room(m.to_user.as_str()),
            Packet::GroupMessage(m) => {
                if !self.inbox_room(m.to_user.as_str()) {
                    return false;
                }
                match self.groups.get(m.group_id.as_str()) {
                    None => true,
                    Some(g) => {
                        let ghost gv = g@;
                        let list: &Vec<String> = &g.members.items;
                        let mut i: usize = 0;
                        while i < list.len()
                            invariant
                                self.wf(),
                                pkt@ == PacketView::GroupMessage(m@),
                                group_at(self.groups@, m@.group_id) == Some(gv),
                                gv.members == strs(list@).to_set(),
                                i <= list@.len(),
                                forall|j: int|
                                    0 <= j < i ==> self.inbox_has_room((#[trigger] list@[j])@),
                            decreases list@.len() - i,
                        {
                            if !self.inbox_room(list[i].as_str()) {
                                assert(gv.members.contains(list@[i as int]@)) by {
                                    assert(strs(list@)[i as int] == list@[i as int]@);
                                }
                                assert(!(or_empty(
                                    inbox_at(self.inboxes@, list@[i as int]@),
                                ).next_seq < u64::MAX));
                                return false;
                            }
                            i += 1;
                        }
                        assert forall|u: Seq<char>| gv.members.contains(u) implies or_empty(
                            #[trigger] inbox_at(self.inboxes@, u),
                        ).next_seq < u64::MAX by {
                            let k = strs(list@).index_of(u);
                            assert(strs(list@)[k] == u);
                            assert(self.inbox_has_room(list@[k]@));
                        }
                        true
                    },
                }
            },
            Packet::GroupEvent(ev) => match self.groups.get(ev.group_id.as_str()) {
                Some(g) => g.version < u64::MAX,
                None => true,
            },
            _ => true,
        }
    }

    /// A gateway that starts with the given inboxes.
    pub fn new(cfg: ServerConfig, cluster: Option<ClusterState>, inboxes: StrMap<Inbox>) -> (g: Self)
        requires
            cluster_wf(cluster),
            inboxes.wf(),
            sound(inboxes@),
        ensures
            g.wf(),
            g.cfg == cfg,
            g.cluster == cluster,
            g.inboxes == inboxes,
            g.next_session == 1,
            forall|u: Seq<char>| #[trigger]
                g.sessions.at(u) == Seq::<SessionView>::empty(),
            g.last_seen@.dom() == Set::<Seq<char>>::empty(),
            g.media@.dom() == Set::<Seq<char>>::empty(),
            g.media_owners@.dom() == Set::<Seq<char>>::empty(),
            g.media_relays@.dom() == Set::<Seq<char>>::empty(),
            g.groups@.dom() == Set::<Seq<char>>::empty(),
            g.keys.publish_seq == 0,
            forall|u: Seq<char>| #[trigger]
                g.keys.at(u) == Map::<Seq<char>, StoredKeysView>::empty(),
            g.rosters@.dom() == Set::<Seq<char>>::empty(),
            g.receipts@.dom() == Set::<Seq<char>>::empty(),
            g.user_locations@.dom() == Set::<Seq<char>>::empty(),
            g.auth_failures.counts@.dom() == Set::<Seq<char>>::empty(),
            g.conn_rate.windows@.dom() == Set::<Seq<char>>::empty(),
    {
        Gateway {
            cfg,
            sessions: SessionTable::new(),
            last_seen: StrMap::new(),
            inboxes,
            media: StrMap::new(),
            media_owners: StrMap::new(),
            media_relays: StrMap::new(),
            groups: StrMap::new(),
            keys: KeyDirectory::memory(),
            rosters: StrMap::new(),
            receipts: StrMap::new(),
            user_locations: StrMap::new(),
            cluster,
            auth_failures: AuthFailures::new(),
            conn_rate: ConnLimiter::new(),
            next_session: 1,
        }
    }

    /// The number for a new session; the count wraps around.
    pub fn take_session_id(&mut self) -> (id: u64)
        ensures
            session_numbered(*old(self), id, *final(self)),
    {
        let id: u64 = self.next_session;
        self.next_session = if id == u64::MAX {
            0
        } else {
            id + 1
        };
        id
    }

    /// Ends all sessions; every user is noted as seen now.
    pub fn shutdown(&mut self, now: u64)
        requires
            old(self).wf(),
        ensures
            final(self).wf(),
            shut_down(*old(self), now, *final(self)),
    {
        let ghost was = *self;
        let mut i: usize = 0;
        let n: usize = self.sessions.users.entries.len();
        while i < n
            invariant
                was == *old(self),
                was.wf(),
                self.wf(),
                *self == (Gateway { last_seen: self.last_seen, ..was }),
                n == was.sessions.users.entries@.len(),
                i <= n,
                forall|u: Seq<char>|
                    (#[trigger] self.last_seen@.contains_key(u)) <==> was.last_seen@.contains_key(u)
                        || was.sessions.users.keys().take(i as int).contains(u),
                forall|u: Seq<char>| #[trigger]
                    self.last_seen@.contains_key(u) ==> self.last_seen@[u] == (
                    if was.sessions.users.keys().take(i as int).contains(u) {
                        now
                    } else {
                        was.last_seen@[u]
                    }),
            decreases n - i,
        {
            let user = self.sessions.users.entries[i].0.clone();
            let ghost before = self.last_seen@;
            let _ = self.last_seen.insert(user, now);
            proof {
                let a = was.sessions.users.keys().take(i as int);
                let b = was.sessions.users.keys().take(i as int + 1);
                let x = was.sessions.users.keys()[i as int];
                assert(b =~= a.push(x));
                assert forall|q: Seq<char>| #[trigger] b.contains(q) <==> (a.contains(q) || q == x) by {
                    if a.contains(q) {
                        assert(b[a.index_of(q)] == q);
                    }
                    assert(b[i as int] == x);
                }
            }
            i += 1;
        }
        proof {
            let keys = was.sessions.users.keys();
            assert(keys.take(i as int) =~= keys);
            was.sessions.users.lemma_len();
            assert forall|u: Seq<char>| keys.contains(u) <==> #[trigger] was.sessions.at(u).len()
                > 0 by {
                assert(was.sessions.users@.dom().contains(u) <==> keys.to_set().contains(u));
            }
        }
        self.sessions = SessionTable::new();
    }
}

/// A session was numbered: the next number is one higher, and wraps around.
pub open spec fn session_numbered(before: Gateway, id: u64, after: Gateway) -> bool {
    &&& id == before.next_session
    &&& after == (Gateway {
        next_session: if id == u64::MAX {
            0
        } else {
            (id + 1) as u64
        },
        ..before
    })
}

/// All sessions were ended.
pub open spec fn shut_down(before: Gateway, now: u64, after: Gateway) -> bool {
    &&& after == (Gateway {
        sessions: after.sessions,
        last_seen: after.last_seen,
        ..before
    })
    &&& forall|u: Seq<char>| #[trigger]
        after.sessions.at(u) == Seq::<SessionView>::empty()
    &&& forall|u: Seq<char>|
        (#[trigger] after.last_seen@.contains_key(u)) <==> before.last_seen@.contains_key(u) || before.sessions.at(u).len() > 0
    &&& forall|u: Seq<char>| #[trigger]
        after.last_seen@.contains_key(u) ==> after.last_seen@[u] == (if before.sessions.at(u).len() > 0 {
            now
        } else {
            before.last_seen@[u]
        })
}

/// The queue of a session took a packet, or was full.
pub open spec fn queue_answered(
    before: Gateway,
    user: Seq<char>,
    session_id: u64,
    taken: bool,
    now: u64,
    after: Gateway,
    e: Seq<EffectView>,
) -> bool {
    &&& taken ==> after == before && e == Seq::<EffectView>::empty()
    &&& !taken ==> {
        &&& e.len() >= 1
        &&& e[0] == EffectView::CloseSession(session_id)
        &&& end_step(
            before,
            after,
            user,
            session_id,
            now,
            e.skip(1),
        )
    }
}

/// What a publication of keys does.
pub open spec fn publish_step(a: Gateway, b: Gateway, k: PublishKeysView, e: Seq<EffectView>) -> bool {
    if k.user_id.len() == 0 || k.device_id.len() == 0 {
        b == a && e == Seq::<EffectView>::empty()
    } else {
        match elsewhere(a.cluster, k.user_id) {
            Some(home) => b == a && e == seq![EffectView::ToPeer(home, PacketView::PublishKeys(k))],
            None => {
                &&& e == Seq::<EffectView>::empty()
                &&& b == (Gateway { keys: b.keys, ..a })
                &&& published_in(a.keys, b.keys, k)
            },
        }
    }
}

/// What a request for keys does.
pub open spec fn fetch_step(a: Gateway, b: Gateway, f: FetchKeysView, e: Seq<EffectView>) -> bool {
    if f.user_id.len() == 0 || f.for_user.len() == 0 {
        b == a && e == Seq::<EffectView>::empty()
    } else {
        match elsewhere(a.cluster, f.user_id) {
            Some(home) => b == a && e == seq![EffectView::ToPeer(home, PacketView::FetchKeys(f))],
            None => {
                &&& b == (Gateway { keys: b.keys, ..a })
                &&& e.len() == 1
                &&& e[0] matches EffectView::Deliver(to, PacketView::KeyBundle(bundle))
                &&& to == f.for_user
                &&& fetched(a.keys, b.keys, f.user_id, f.device_id, f.for_user, bundle)
            },
        }
    }
}

/// What a revocation of a device's keys does.
pub open spec fn revoke_step(
    a: Gateway,
    b: Gateway,
    k: RemoveDeviceKeysView,
    e: Seq<EffectView>,
) -> bool {
    if k.user_id.len() == 0 || k.device_id.len() == 0 {
        b == a && e == Seq::<EffectView>::empty()
    } else {
        match elsewhere(a.cluster, k.user_id) {
            Some(home) => b == a && e == seq![
                EffectView::ToPeer(home, PacketView::RemoveDeviceKeys(k)),
            ],
            None => {
                &&& e == Seq::<EffectView>::empty()
                &&& b == (Gateway { keys: b.keys, ..a })
                &&& revoked_in(a.keys, b.keys, k.user_id, k.device_id)
            },
        }
    }
}

/// The rosters after a user named contacts.
pub open spec fn subscribed(
    before: Map<Seq<char>, Vec<String>>,
    after: Map<Seq<char>, Vec<String>>,
    s: SubscribePresenceView,
) -> bool {
    &&& after.dom() == before.dom().insert(s.user_id)
    &&& strs(after[s.user_id]@) == s.contact_ids
    &&& forall|u: Seq<char>|
        u != s.user_id && before.contains_key(u) ==> #[trigger] after[u] == before[u]
}

/// What a user's roster does: it replaces the one there was, on the peers too
/// where it came from a client.
pub open spec fn subscribe_step(
    a: Gateway,
    b: Gateway,
    s: SubscribePresenceView,
    from_client: bool,
    e: Seq<EffectView>,
) -> bool {
    &&& b == (Gateway { rosters: b.rosters, ..a })
    &&& subscribed(a.rosters@, b.rosters@, s)
    &&& e == (if from_client && a.cluster is Some {
        seq![EffectView::ToPeers(PacketView::SubscribePresence(s), None)]
    } else {
        Seq::empty()
    })
}

/// What the end of a session does: the session is gone, and when it was the
/// user's last one the moment is noted and the user's contacts are told.
pub open spec fn end_step(
    a: Gateway,
    b: Gateway,
    user: Seq<char>,
    session_id: u64,
    now: u64,
    e: Seq<EffectView>,
) -> bool {
    let offline = a.sessions.at(user).len() > 0 && b.sessions.at(user).len() == 0;
    &&& b == (Gateway { sessions: b.sessions, last_seen: b.last_seen, ..a })
    &&& forall|u: Seq<char>| #[trigger]
        b.sessions.at(u) == (if u == user {
            a.sessions.at(u).filter(other_session(session_id))
        } else {
            a.sessions.at(u)
        })
    &&& b.last_seen@ == (if offline {
        a.last_seen@.insert(user, now)
    } else {
        a.last_seen@
    })
    &&& e == (if offline {
        presence_news(
            a.cluster,
            audience(b.sessions, a.rosters@, user),
            user,
            PresenceKind::Unavailable,
            now,
        )
    } else {
        Seq::empty()
    })
}

/// A complete blob.
pub open spec fn complete_blob(o: Option<BlobView>) -> bool {
    o matches Some(b) && b.complete
}

/// The packets as answers to the client.
pub open spec fn as_replies(s: Seq<PacketView>) -> Seq<EffectView> {
    Seq::new(s.len(), |i: int| EffectView::Reply(s[i]))
}

/// The packets for one peer.
pub open spec fn for_peer(peer: Seq<char>, s: Seq<PacketView>) -> Seq<EffectView> {
    Seq::new(s.len(), |i: int| EffectView::ToPeer(peer, s[i]))
}

/// Whether a user has the session with this number.
pub open spec fn session_exists(s: Seq<SessionView>, session_id: u64) -> bool {
    exists|i: int| 0 <= i < s.len() && (#[trigger] s[i]).session_id == session_id
}

/// The other node that a blob can be had from.
pub open spec fn blob_holder(a: Gateway, media_id: Seq<char>) -> Option<Seq<char>> {
    match place_at(a.media_owners@, media_id) {
        Some(owner) => if a.cluster is Some && owner != a.cluster->0.node_id@ {
            Some(owner)
        } else {
            None
        },
        None => None,
    }
}

/// What a client's request for a blob does: it is streamed if it is here,
/// requested from the node that holds it, or unknown.
pub open spec fn media_fetch_step(
    a: Gateway,
    b: Gateway,
    f: MediaFetchView,
    user: Seq<char>,
    session_id: u64,
    e: Seq<EffectView>,
) -> bool {
    let blob = blob_at(a.media@, f.media_id);
    if complete_blob(blob) {
        b == a && e == as_replies(media_stream(f.media_id, blob->0, f.from_offset))
    } else {
        match blob_holder(a, f.media_id) {
            Some(owner) => {
                &&& e == seq![EffectView::ToPeer(owner, PacketView::MediaFetch(f))]
                &&& b == (Gateway { media_relays: b.media_relays, ..a })
                &&& b.media_relays@ == (if session_exists(a.sessions.at(user), session_id) {
                    a.media_relays@.insert(f.media_id, session_id)
                } else {
                    a.media_relays@
                })
            },
            None => b == a && e == seq![
                EffectView::Reply(
                    error_view(ErrorCode::MediaTransferFailed, "unknown or incomplete media"@),
                ),
            ],
        }
    }
}

/// What a chunk from a client does.
pub open spec fn media_chunk_step(
    a: Gateway,
    b: Gateway,
    upload: Option<Seq<char>>,
    upload_after: Option<Seq<char>>,
    c: MediaChunkView,
    e: Seq<EffectView>,
) -> bool {
    let x = chunk_effect(upload, blob_at(a.media@, c.media_id), c);
    let news = if x.ready && a.cluster is Some {
        seq![
            EffectView::ToPeers(
                PacketView::PeerMediaReady(
                    PeerMediaReadyView { media_id: c.media_id, node_id: node_name(a.cluster) },
                ),
                None,
            ),
        ]
    } else {
        Seq::empty()
    };
    &&& b == (Gateway { media: b.media, media_owners: b.media_owners, ..a })
    &&& e == news + seq![EffectView::Reply(x.reply)]
    &&& upload_after == (if x.done {
        None
    } else {
        upload
    })
    &&& forall|k: Seq<char>| #[trigger]
        blob_at(b.media@, k) == (if k == c.media_id {
            x.blob
        } else {
            blob_at(a.media@, k)
        })
    &&& forall|k: Seq<char>| #[trigger]
        place_at(b.media_owners@, k) == (if x.ready && k == c.media_id {
            Some(node_name(a.cluster))
        } else {
            place_at(a.media_owners@, k)
        })
}

/// What a media frame from a peer does: it goes to the session that waits for
/// the blob, which waits no longer after the last chunk.
pub open spec fn relay_step(
    a: Gateway,
    b: Gateway,
    media_id: Seq<char>,
    p: PacketView,
    last: bool,
    e: Seq<EffectView>,
) -> bool {
    if a.media_relays@.contains_key(media_id) {
        &&& e == seq![EffectView::ToSession(a.media_relays@[media_id], p)]
        &&& b == (Gateway { media_relays: b.media_relays, ..a })
        &&& b.media_relays@ == (if last {
            a.media_relays@.remove(media_id)
        } else {
            a.media_relays@
        })
    } else {
        b == a && e == Seq::<EffectView>::empty()
    }
}

impl Gateway {
    /// Takes a publication of keys.
    pub fn on_publish_keys(&mut self, k: &PublishKeys) -> (v: Vec<Effect>)
        requires
            old(self).wf(),
        ensures
            final(self).wf(),
            publish_step(*old(self), *final(self), k@, effect_views(v@)),
    {
        let mut out = no_effects();
        if k.user_id.as_str().is_empty() || k.device_id.as_str().is_empty() {
            return out;
        }
        match home_elsewhere(&self.cluster, k.user_id.as_str()) {
            Some(home) => {
                push_effect(&mut out, Effect::ToPeer(home, Packet::PublishKeys(k.clone())));
                assert(effect_views(out@) =~= seq![
                    EffectView::ToPeer(
                        elsewhere(self.cluster, k@.user_id)->0,
                        PacketView::PublishKeys(k@),
                    ),
                ]);
            },
            None => {
                let _ = self.keys.publish(k);
            },
        }
        out
    }

    /// Takes a request for keys.
    pub fn on_fetch_keys(&mut self, f: &FetchKeys) -> (v: Vec<Effect>)
        requires
            old(self).wf(),
        ensures
            final(self).wf(),
            fetch_step(*old(self), *final(self), f@, effect_views(v@)),
    {
        let mut out = no_effects();
        if f.user_id.as_str().is_empty() || f.for_user.as_str().is_empty() {
            return out;
        }
        match home_elsewhere(&self.cluster, f.user_id.as_str()) {
            Some(home) => {
                push_effect(&mut out, Effect::ToPeer(home, Packet::FetchKeys(f.clone())));
                assert(effect_views(out@) =~= seq![
                    EffectView::ToPeer(
                        elsewhere(self.cluster, f@.user_id)->0,
                        PacketView::FetchKeys(f@),
                    ),
                ]);
            },
            None => {
                let ghost before = self.keys;
                let r = self.keys.fetch_bundle(
                    f.user_id.as_str(),
                    f.device_id.as_str(),
                    f.for_user.as_str(),
                    None,
                );
                let ghost bundle = (r.0)@;
                proof {
                    let devs = before.at(f@.user_id);
                    if exists|d: Seq<char>| is_pick(devs, f@.device_id, d) {
                        let d = choose|d: Seq<char>| #[trigger]
                            is_pick(devs, f@.device_id, d) && handed_out(
                                before,
                                self.keys,
                                f@.user_id,
                                f@.for_user,
                                devs[d],
                                r,
                            );
                        assert(before.at(f@.user_id).contains_key(d));
                        assert(devs[d].device_id == d);
                    }
                    assert(fetched(
                        before,
                        self.keys,
                        f@.user_id,
                        f@.device_id,
                        f@.for_user,
                        bundle,
                    ));
                }
                push_effect(&mut out, Effect::Deliver(f.for_user.clone(), Packet::KeyBundle(r.0)));
                assert(effect_views(out@) =~= seq![
                    EffectView::Deliver(f@.for_user, PacketView::KeyBundle(bundle)),
                ]);
            },
        }
        out
    }

    /// Takes a revocation of a device's keys.
    pub fn on_remove_device_keys(&mut self, k: &RemoveDeviceKeys) -> (v: Vec<Effect>)
        requires
            old(self).wf(),
        ensures
            final(self).wf(),
            revoke_step(*old(self), *final(self), k@, effect_views(v@)),
    {
        let mut out = no_effects();
        if k.user_id.as_str().is_empty() || k.device_id.as_str().is_empty() {
            return out;
        }
        match home_elsewhere(&self.cluster, k.user_id.as_str()) {
            Some(home) => {
                push_effect(&mut out, Effect::ToPeer(home, Packet::RemoveDeviceKeys(k.clone())));
                assert(effect_views(out@) =~= seq![
                    EffectView::ToPeer(
                        elsewhere(self.cluster, k@.user_id)->0,
                        PacketView::RemoveDeviceKeys(k@),
                    ),
                ]);
            },
            None => {
                self.keys.remove_device(k.user_id.as_str(), k.device_id.as_str());
            },
        }
        out
    }

    /// Takes a user's roster.
    fn on_subscribe(&mut self, s: &SubscribePresence, from_client: bool) -> (v: Vec<Effect>)
        requires
            old(self).wf(),
        ensures
            final(self).wf(),
            subscribe_step(*old(self), *final(self), s@, from_client, effect_views(v@)),
    {
        subscribe(&mut self.rosters, s);
        let mut out = no_effects();
        if from_client && self.cluster.is_some() {
            push_effect(&mut out, Effect::ToPeers(Packet::SubscribePresence(s.clone()), None));
            assert(effect_views(out@) =~= seq![
                EffectView::ToPeers(PacketView::SubscribePresence(s@), None),
            ]);
        }
        out
    }

    /// Ends a session: it is detached, and the user's contacts are told when it
    /// was the last one.
    pub fn end_session(&mut self, user: &str, session_id: u64, now: u64) -> (v: Vec<Effect>)
        requires
            old(self).wf(),
        ensures
            final(self).wf(),
            end_step(*old(self), *final(self), user@, session_id, now, effect_views(v@)),
    {
        remove_session(
            &mut self.sessions,
            &mut self.last_seen,
            &self.rosters,
            &self.cluster,
            user,
            session_id,
            now,
        )
    }

    /// Takes in whether the queue of a session took a packet. A session whose
    /// queue is full is too slow, and is dropped.
    pub fn on_queued(&mut self, user: &str, session_id: u64, taken: bool, now: u64) -> (v: Vec<
        Effect,
    >)
        requires
            old(self).wf(),
        ensures
            final(self).wf(),
            queue_answered(
                *old(self),
                user@,
                session_id,
                taken,
                now,
                *final(self),
                effect_views(v@),
            ),
    {
        let mut out = no_effects();
        if taken {
            return out;
        }
        push_effect(&mut out, Effect::CloseSession(session_id));
        let more = self.end_session(user, session_id, now);
        let ghost mv = effect_views(more@);
        append_effects(&mut out, more);
        assert(effect_views(out@).skip(1) =~= mv);
        out
    }

    /// The stream of a complete blob.
    fn stream(&self, f: &MediaFetch) -> (r: Option<Vec<Packet>>)
        requires
            self.wf(),
        ensures
            match r {
                Some(v) => complete_blob(blob_at(self.media@, f@.media_id)) && packet_views(v@)
                    == media_stream(
                    f@.media_id,
                    blob_at(self.media@, f@.media_id)->0,
                    f@.from_offset,
                ),
                None => !complete_blob(blob_at(self.media@, f@.media_id)),
            },
    {
        match self.media.get(f.media_id.as_str()) {
            None => None,
            Some(b) => if b.complete {
                Some(stream_media(f.media_id.as_str(), b, f.from_offset))
            } else {
                None
            },
        }
    }

    /// Takes a client's request for a blob.
    pub fn on_media_fetch(&mut self, f: &MediaFetch, user: &str, session_id: u64) -> (v: Vec<Effect>)
        requires
            old(self).wf(),
        ensures
            final(self).wf(),
            media_fetch_step(
                *old(self),
                *final(self),
                f@,
                user@,
                session_id,
                effect_views(v@),
            ),
    {
        let mut out = no_effects();
        match self.stream(f) {
            Some(packets) => {
                let ghost pv = packet_views(packets@);
                let mut i: usize = 0;
                while i < packets.len()
                    invariant
                        i <= packets@.len(),
                        pv == packet_views(packets@),
                        effect_views(out@) == as_replies(pv.take(i as int)),
                    decreases packets@.len() - i,
                {
                    push_effect(&mut out, Effect::Reply(packets[i].clone()));
                    assert(effect_views(out@) =~= as_replies(pv.take(i as int + 1)));
                    i += 1;
                }
                assert(pv.take(i as int) =~= pv);
                return out;
            },
            None => {},
        }
        let holder: Option<String> = match self.media_owners.get(f.media_id.as_str()) {
            None => None,
            Some(owner) => match &self.cluster {
                None => None,
                Some(c) => if crate::text::same(owner.as_str(), c.node_id.as_str()) {
                    None
                } else {
                    Some(owner.clone())
                },
            },
        };
        assert(text_of(holder) == blob_holder(*self, f@.media_id));
        match holder {
            Some(owner) => {
                let ids = self.sessions.session_ids(user);
                let ghost list = self.sessions.at(user@);
                let mut known = false;
                let mut i: usize = 0;
                while i < ids.len()
                    invariant
                        i <= ids@.len(),
                        ids@ == list.map_values(|s: SessionView| s.session_id),
                        known == exists|j: int|
                            0 <= j < i && (#[trigger] list[j]).session_id == session_id,
                    decreases ids@.len() - i,
                {
                    assert(ids@[i as int] == list[i as int].session_id);
                    if ids[i] == session_id {
                        known = true;
                    }
                    i += 1;
                }
                assert(known == session_exists(list, session_id));
                if known {
                    let _ = self.media_relays.insert(f.media_id.clone(), session_id);
                }
                push_effect(&mut out, Effect::ToPeer(owner, Packet::MediaFetch(f.clone())));
                assert(effect_views(out@) =~= seq![
                    EffectView::ToPeer(
                        blob_holder(*old(self), f@.media_id)->0,
                        PacketView::MediaFetch(f@),
                    ),
                ]);
            },
            None => {
                push_effect(
                    &mut out,
                    Effect::Reply(
                        proto_error(ErrorCode::MediaTransferFailed, "unknown or incomplete media"),
                    ),
                );
                assert(effect_views(out@) =~= seq![
                    EffectView::Reply(
                        error_view(ErrorCode::MediaTransferFailed, "unknown or incomplete media"@),
                    ),
                ]);
            },
        }
        out
    }

    /// Takes a chunk from a client.
    fn on_media_chunk(&mut self, upload: &mut Option<String>, c: &crate::messenger::wire::MediaChunk) -> (v: Vec<
        Effect,
    >)
        requires
            old(self).wf(),
        ensures
            final(self).wf(),
            media_chunk_step(
                *old(self),
                *final(self),
                opt_text(*old(upload)),
                opt_text(*final(upload)),
                c@,
                effect_views(v@),
            ),
    {
        let mut out = no_effects();
        let (reply, ready) = handle_media_chunk(&mut self.media, upload, c);
        if ready {
            let node = node_id(&self.cluster);
            let _ = self.media_owners.insert(c.media_id.clone(), node);
            if self.cluster.is_some() {
                let node = node_id(&self.cluster);
                push_effect(
                    &mut out,
                    Effect::ToPeers(
                        Packet::PeerMediaReady(
                            PeerMediaReady { media_id: c.media_id.clone(), node_id: node },
                        ),
                        None,
                    ),
                );
            }
        }
        let ghost x = chunk_effect(
            opt_text(*old(upload)),
            blob_at(old(self).media@, c@.media_id),
            c@,
        );
        let ghost news = if x.ready && old(self).cluster is Some {
            seq![
                EffectView::ToPeers(
                    PacketView::PeerMediaReady(
                        PeerMediaReadyView {
                            media_id: c@.media_id,
                            node_id: node_name(old(self).cluster),
                        },
                    ),
                    None,
                ),
            ]
        } else {
            Seq::empty()
        };
        assert(effect_views(out@) =~= news);
        push_effect(&mut out, Effect::Reply(reply));
        assert(effect_views(out@) =~= news + seq![EffectView::Reply(x.reply)]);
        out
    }

    /// Passes a media frame from a peer on to the session that waits for it.
    fn relay(&mut self, media_id: &str, pkt: Packet, last: bool) -> (v: Vec<Effect>)
        requires
            old(self).wf(),
        ensures
            final(self).wf(),
            relay_step(*old(self), *final(self), media_id@, pkt@, last, effect_views(v@)),
    {
        let mut out = no_effects();
        match self.media_relays.get(media_id) {
            None => {},
            Some(sid) => {
                let session: u64 = *sid;
                push_effect(&mut out, Effect::ToSession(session, pkt));
                assert(effect_views(out@) =~= seq![EffectView::ToSession(session, pkt@)]);
                if last {
                    let _ = self.media_relays.remove(media_id);
                }
            },
        }
        out
    }
}

/// The kind that a client's presence stands for; an unknown one is available.
pub open spec fn kind_of(n: i32) -> PresenceKind {
    if n == 0 {
        PresenceKind::Unspecified
    } else if n == 2 {
        PresenceKind::Unavailable
    } else if n == 3 {
        PresenceKind::LastSeen
    } else {
        PresenceKind::Available
    }
}

/// What a chat message from a client does.
pub open spec fn chat_step(a: Gateway, b: Gateway, m: ChatMessageView, e: Seq<EffectView>) -> bool {
    let home = elsewhere(a.cluster, m.to_user);
    &&& e == chat_effects(home, or_empty(inbox_at(a.inboxes@, m.to_user)), m)
    &&& b == (Gateway { inboxes: b.inboxes, ..a })
    &&& if chat_is_local(home, m) {
        stored_in(
            a.inboxes@,
            b.inboxes@,
            m.to_user,
            m.message_id,
            PacketView::ChatMessage(m),
            a.cfg.max_inbox as nat,
        )
    } else {
        b.inboxes@ == a.inboxes@
    }
}

/// What the acknowledgement of a delivery does.
pub open spec fn delivered_step(
    a: Gateway,
    b: Gateway,
    ack: DeliveredAckView,
    from_client: bool,
    e: Seq<EffectView>,
) -> bool {
    let told = receipt_effects(
        receipts_at(a.receipts@, ack.message_id),
        ack.message_id,
        ack.from_user,
        false,
    );
    &&& b == (Gateway { inboxes: b.inboxes, receipts: b.receipts, ..a })
    &&& receipted(a, b, ack.message_id, ack.from_user, false)
    &&& if is_home_spec(a.cluster, ack.from_user) {
        &&& acked_in(a.inboxes@, b.inboxes@, ack.from_user, ack.message_id)
        &&& e == ack_effects(
            inbox_at(a.inboxes@, ack.from_user),
            ack.from_user,
            ack.message_id,
        ) + delivered_news(ack, from_client) + told
    } else {
        b.inboxes@ == a.inboxes@ && e == delivered_news(ack, from_client) + told
    }
}

/// The receipts of group messages after that of a user for one of them.
pub open spec fn receipted(
    a: Gateway,
    b: Gateway,
    message_id: Seq<char>,
    user: Seq<char>,
    read: bool,
) -> bool {
    forall|k: Seq<char>| #[trigger]
        receipts_at(b.receipts@, k) == (if k == message_id {
            receipts_after(receipts_at(a.receipts@, k), user, read)
        } else {
            receipts_at(a.receipts@, k)
        })
}

/// What the acknowledgement that a message was read does.
pub open spec fn read_step(
    a: Gateway,
    b: Gateway,
    ack: ReadAckView,
    from_client: bool,
    e: Seq<EffectView>,
) -> bool {
    &&& b == (Gateway { receipts: b.receipts, ..a })
    &&& receipted(a, b, ack.message_id, ack.from_user, true)
    &&& e == read_news(ack, from_client) + receipt_effects(
        receipts_at(a.receipts@, ack.message_id),
        ack.message_id,
        ack.from_user,
        true,
    )
}

/// Receipts are expected for a group message that is fanned out here.
pub open spec fn expects_receipts(a: Gateway, b: Gateway, m: GroupMessageView) -> bool {
    forall|k: Seq<char>| #[trigger]
        receipts_at(b.receipts@, k) == (if k == m.message_id {
            noted(receipts_at(a.receipts@, k), group_at(a.groups@, m.group_id)->0.members, m)
        } else {
            receipts_at(a.receipts@, k)
        })
}

/// What the announcement of an upload does.
pub open spec fn media_start_step(
    a: Gateway,
    b: Gateway,
    upload: Option<Seq<char>>,
    upload_after: Option<Seq<char>>,
    m: MediaStartView,
    e: Seq<EffectView>,
) -> bool {
    &&& e == seq![EffectView::Reply(start_reply(m, a.cfg.max_media_bytes))]
    &&& b == (Gateway { media: b.media, ..a })
    &&& if start_accepted(m, a.cfg.max_media_bytes) {
        &&& upload_after == Some(m.media_id)
        &&& forall|k: Seq<char>| #[trigger]
            blob_at(b.media@, k) == (if k == m.media_id {
                Some(announced(m))
            } else {
                blob_at(a.media@, k)
            })
    } else {
        upload_after == upload && b.media@ == a.media@
    }
}

/// What a membership event does on the group's home node.
pub open spec fn membership_step(
    a: Gateway,
    b: Gateway,
    ev: GroupEventView,
    answer: bool,
    e: Seq<EffectView>,
) -> bool {
    let max = a.cfg.max_group_members as nat;
    let g = group_at(a.groups@, ev.group_id);
    &&& b == (Gateway { groups: b.groups, ..a })
    &&& groups_after(a.groups@, b.groups@, ev, max)
    &&& exists|targets: Seq<Seq<char>>| #[trigger]
        right_targets(g, ev, max, targets) && e == membership_effects(
            g,
            ev,
            max,
            answer,
            targets,
        )
}

/// What a membership event from a client does.
pub open spec fn group_event_step(
    a: Gateway,
    b: Gateway,
    user: Seq<char>,
    ev: GroupEventView,
    e: Seq<EffectView>,
) -> bool {
    let taken = event_from(user, ev);
    match elsewhere(a.cluster, ev.group_id) {
        Some(home) => {
            &&& e == seq![EffectView::ToPeer(home, PacketView::GroupEvent(taken))]
            &&& b == (Gateway { groups: b.groups, ..a })
            &&& b.groups@ == a.groups@
        },
        None => membership_step(a, b, taken, true, e),
    }
}

/// What a group message that is fanned out here does, before it is acknowledged
/// by `ack`.
pub open spec fn fanout_step(
    a: Gateway,
    b: Gateway,
    m: GroupMessageView,
    ack: EffectView,
    e: Seq<EffectView>,
) -> bool {
    &&& expects_receipts(a, b, m)
    &&& exists|members: Seq<Seq<char>>| #[trigger]
        lists_members(members, group_at(a.groups@, m.group_id)) && e == fanout_effects(
            a.cluster,
            a.inboxes@,
            m,
            members,
        ) + seq![ack] && fanned_out(
            a.cluster,
            a.inboxes@,
            b.inboxes@,
            m,
            members,
            a.cfg.max_inbox as nat,
        )
}

/// What a group message from a client does.
pub open spec fn group_message_step(
    a: Gateway,
    b: Gateway,
    m: GroupMessageView,
    e: Seq<EffectView>,
) -> bool {
    &&& b == (Gateway { inboxes: b.inboxes, receipts: b.receipts, ..a })
    &&& match group_detour(
        elsewhere(a.cluster, m.group_id),
        group_at(a.groups@, m.group_id),
        m,
    ) {
        Some(d) => e == seq![d] && b.inboxes@ == a.inboxes@ && b.receipts == a.receipts,
        None => fanout_step(
            a,
            b,
            m,
            EffectView::Reply(
                crate::messenger::server::server_ack(m.message_id, 0, Seq::empty()),
            ),
            e,
        ),
    }
}

/// What a packet from the client of `user` does. The sender of what a client
/// sends is always the user of the session, whatever the packet says.
pub open spec fn client_step(
    a: Gateway,
    b: Gateway,
    upload: Option<Seq<char>>,
    upload_after: Option<Seq<char>>,
    user: Seq<char>,
    session_id: u64,
    p: PacketView,
    now: u64,
    e: Seq<EffectView>,
    end: Option<MessengerError>,
) -> bool {
    match p {
        PacketView::MediaStart(m) => end is None && media_start_step(
            a,
            b,
            upload,
            upload_after,
            m,
            e,
        ),
        PacketView::MediaChunk(c) => end is None && media_chunk_step(
            a,
            b,
            upload,
            upload_after,
            c,
            e,
        ),
        _ => {
            &&& upload_after == upload
            &&& match p {
                PacketView::Ping(q) => end is None && b == a && e == seq![
                    EffectView::Reply(PacketView::Pong(PongView { seq: q.seq })),
                ],
                PacketView::Presence(q) => end is None && b == a && e == presence_news(
                    a.cluster,
                    audience(a.sessions, a.rosters@, user),
                    user,
                    kind_of(q.kind),
                    now,
                ),
                PacketView::ChatMessage(m) => end is None && chat_step(
                    a,
                    b,
                    ChatMessageView { from_user: user, ..m },
                    e,
                ),
                PacketView::DeliveredAck(d) => end is None && delivered_step(
                    a,
                    b,
                    DeliveredAckView { from_user: user, ..d },
                    true,
                    e,
                ),
                PacketView::ReadAck(d) => end is None && read_step(
                    a,
                    b,
                    ReadAckView { from_user: user, ..d },
                    true,
                    e,
                ),
                PacketView::MediaFetch(f) => end is None && media_fetch_step(
                    a,
                    b,
                    f,
                    user,
                    session_id,
                    e,
                ),
                PacketView::GroupEvent(ev) => end is None && group_event_step(a, b, user, ev, e),
                PacketView::GroupMessage(m) => end is None && group_message_step(
                    a,
                    b,
                    GroupMessageView { from_user: user, ..m },
                    e,
                ),
                PacketView::PublishKeys(k) => end is None && publish_step(
                    a,
                    b,
                    PublishKeysView { user_id: user, ..k },
                    e,
                ),
                PacketView::FetchKeys(f) => end is None && fetch_step(
                    a,
                    b,
                    FetchKeysView { for_user: user, ..f },
                    e,
                ),
                PacketView::RemoveDeviceKeys(k) => end is None && revoke_step(
                    a,
                    b,
                    RemoveDeviceKeysView { user_id: user, ..k },
                    e,
                ),
                PacketView::SubscribePresence(x) => end is None && subscribe_step(
                    a,
                    b,
                    SubscribePresenceView { user_id: user, ..x },
                    true,
                    e,
                ),
                _ => {
                    &&& b == a
                    &&& e == seq![
                        EffectView::Reply(
                            error_view(
                                ErrorCode::MalformedFrame,
                                "unexpected client packet "@ + p.ty().name_text(),
                            ),
                        ),
                    ]
                    &&& end matches Some(MessengerError::Protocol(m))
                    &&& m@ == "unexpected packet"@
                },
            }
        },
    }
}

impl Gateway {
    /// Expects receipts for a group message, if it is one of a member.
    fn note_message(&mut self, m: &GroupMessage)
        requires
            old(self).wf(),
        ensures
            final(self).wf(),
            *final(self) == (Gateway { receipts: final(self).receipts, ..*old(self) }),
            ({
                let g = group_at(old(self).groups@, m@.group_id);
                if g is None || !g->0.members.contains(m@.from_user) {
                    final(self).receipts == old(self).receipts
                } else {
                    expects_receipts(*old(self), *final(self), m@)
                }
            }),
    {
        match self.groups.get(m.group_id.as_str()) {
            None => {},
            Some(g) => {
                if g.members.contains(m.from_user.as_str()) {
                    note(&mut self.receipts, &g.members, m);
                }
            },
        }
    }

    /// Takes the acknowledgement of a delivery.
    fn on_delivered(&mut self, a: &DeliveredAck, from_client: bool) -> (v: Vec<Effect>)
        requires
            old(self).wf(),
        ensures
            final(self).wf(),
            delivered_step(*old(self), *final(self), a@, from_client, effect_views(v@)),
    {
        let mut out = handle_delivered_ack(&mut self.inboxes, &self.cluster, a, from_client);
        let more = take_receipt(
            &mut self.receipts,
            a.message_id.as_str(),
            a.from_user.as_str(),
            false,
        );
        append_effects(&mut out, more);
        out
    }

    /// Takes the acknowledgement that a message was read.
    fn on_read(&mut self, a: &ReadAck, from_client: bool) -> (v: Vec<Effect>)
        requires
            old(self).wf(),
        ensures
            final(self).wf(),
            read_step(*old(self), *final(self), a@, from_client, effect_views(v@)),
    {
        let mut out = handle_read_ack(a, from_client);
        let more = take_receipt(
            &mut self.receipts,
            a.message_id.as_str(),
            a.from_user.as_str(),
            true,
        );
        append_effects(&mut out, more);
        out
    }

    /// Takes a packet from a client. The second result is why the session ends,
    /// if it does.
    pub fn on_client_packet(
        &mut self,
        upload: &mut Option<String>,
        user: &str,
        session_id: u64,
        pkt: Packet,
        now: u64,
    ) -> (r: (Vec<Effect>, Option<MessengerError>))
        requires
            old(self).wf(),
            old(self).has_room_for(pkt@),
        ensures
            final(self).wf(),
            client_step(
                *old(self),
                *final(self),
                opt_text(*old(upload)),
                opt_text(*final(upload)),
                user@,
                session_id,
                pkt@,
                now,
                effect_views((r.0)@),
                r.1,
            ),
    {
        let ghost was = *self;
        let mut out = no_effects();
        match pkt {
            Packet::Ping(p) => {
                push_effect(&mut out, Effect::Reply(Packet::Pong(Pong { seq: p.seq })));
                assert(effect_views(out@) =~= seq![
                    EffectView::Reply(PacketView::Pong(PongView { seq: p.seq })),
                ]);
                (out, None)
            },
            Packet::Presence(p) => {
                let kind = match PresenceKind::from_i32(p.kind) {
                    Some(k) => k,
                    None => PresenceKind::Available,
                };
                assert(kind == kind_of(p.kind));
                let told = audience_of(&self.sessions, &self.rosters, user);
                (broadcast_presence(&self.cluster, told, user, kind, now), None)
            },
            Packet::ChatMessage(m) => {
                let mut m = m;
                let ghost mv = m@;
                m.from_user = user.to_string();
                assert(m@ =~= (ChatMessageView { from_user: user@, ..mv }));
                assert(or_empty(inbox_at(self.inboxes@, m@.to_user)).next_seq < u64::MAX);
                let v = handle_chat(&mut self.inboxes, &self.cluster, &m, self.cfg.max_inbox);
                assert(chat_step(was, *self, m@, effect_views(v@)));
                (v, None)
            },
            Packet::DeliveredAck(a) => {
                let mut a = a;
                let ghost av = a@;
                a.from_user = user.to_string();
                assert(a@ =~= (DeliveredAckView { from_user: user@, ..av }));
                (self.on_delivered(&a, true), None)
            },
            Packet::ReadAck(a) => {
                let mut a = a;
                let ghost av = a@;
                a.from_user = user.to_string();
                assert(a@ =~= (ReadAckView { from_user: user@, ..av }));
                (self.on_read(&a, true), None)
            },
            Packet::MediaStart(m) => {
                let reply = handle_media_start(
                    &mut self.media,
                    upload,
                    &m,
                    self.cfg.max_media_bytes,
                );
                push_effect(&mut out, Effect::Reply(reply));
                assert(effect_views(out@) =~= seq![
                    EffectView::Reply(start_reply(m@, was.cfg.max_media_bytes)),
                ]);
                (out, None)
            },
            Packet::MediaChunk(c) => (self.on_media_chunk(upload, &c), None),
            Packet::MediaFetch(f) => (self.on_media_fetch(&f, user, session_id), None),
            Packet::GroupEvent(ev) => {
                assert(group_at(self.groups@, ev@.group_id) matches Some(g) ==> g.version
                    < u64::MAX);
                let v = handle_group_event(
                    &mut self.groups,
                    &self.cluster,
                    user,
                    &ev,
                    self.cfg.max_group_members,
                );
                assert(group_event_step(was, *self, user@, ev@, effect_views(v@)));
                (v, None)
            },
            Packet::GroupMessage(m) => {
                let mut m = m;
                let ghost mv = m@;
                m.from_user = user.to_string();
                assert(m@ =~= (GroupMessageView { from_user: user@, ..mv }));
                let here = !m.group_id.as_str().is_empty() && !m.message_id.as_str().is_empty()
                    && home_elsewhere(&self.cluster, m.group_id.as_str()).is_none();
                if here {
                    self.note_message(&m);
                }
                let v = handle_group_message(
                    &self.groups,
                    &mut self.inboxes,
                    &self.cluster,
                    &m,
                    self.cfg.max_inbox,
                );
                assert(group_message_step(was, *self, m@, effect_views(v@)));
                (v, None)
            },
            Packet::PublishKeys(k) => {
                let mut k = k;
                let ghost kv = k@;
                k.user_id = user.to_string();
                assert(k@ =~= (PublishKeysView { user_id: user@, ..kv }));
                (self.on_publish_keys(&k), None)
            },
            Packet::FetchKeys(f) => {
                let mut f = f;
                let ghost fv = f@;
                f.for_user = user.to_string();
                assert(f@ =~= (FetchKeysView { for_user: user@, ..fv }));
                (self.on_fetch_keys(&f), None)
            },
            Packet::RemoveDeviceKeys(k) => {
                let mut k = k;
                let ghost kv = k@;
                k.user_id = user.to_string();
                assert(k@ =~= (RemoveDeviceKeysView { user_id: user@, ..kv }));
                (self.on_remove_device_keys(&k), None)
            },
            Packet::SubscribePresence(x) => {
                let mut x = x;
                let ghost xv = x@;
                x.user_id = user.to_string();
                assert(x@ =~= (SubscribePresenceView { user_id: user@, ..xv }));
                (self.on_subscribe(&x, true), None)
            },
            other => {
                let ty = other.packet_type();
                let detail = concat2("unexpected client packet ", ty.name());
                push_effect(
                    &mut out,
                    Effect::Reply(proto_error(ErrorCode::MalformedFrame, detail.as_str())),
                );
                assert(effect_views(out@) =~= seq![
                    EffectView::Reply(
                        error_view(
                            ErrorCode::MalformedFrame,
                            "unexpected client packet "@ + other@.ty().name_text(),
                        ),
                    ),
                ]);
                (out, Some(MessengerError::Protocol("unexpected packet".to_string())))
            },
        }
    }

    /// Whether the session ends once this packet was sent to the client.
    pub fn is_final(pkt: &Packet) -> (r: bool)
        ensures
            r == (pkt@ is Error),
    {
        match pkt {
            Packet::Error(_) => true,
            _ => false,
        }
    }
}

/// What a chat message from a peer does: one without a number is stored here,
/// one with a number is delivered.
pub open spec fn peer_chat_step(a: Gateway, b: Gateway, m: ChatMessageView, e: Seq<EffectView>) -> bool {
    if m.seq == 0 {
        &&& e == routed_chat_effects(or_empty(inbox_at(a.inboxes@, m.to_user)), m)
        &&& b == (Gateway { inboxes: b.inboxes, ..a })
        &&& stored_in(
            a.inboxes@,
            b.inboxes@,
            m.to_user,
            m.message_id,
            PacketView::ChatMessage(m),
            a.cfg.max_inbox as nat,
        )
    } else {
        b == a && e == seq![EffectView::Deliver(m.to_user, PacketView::ChatMessage(m))]
    }
}

/// What a group message from a peer does: one for nobody in particular is
/// fanned out, a member's copy without a number is stored, one with a number is
/// delivered.
pub open spec fn peer_group_step(
    a: Gateway,
    b: Gateway,
    m: GroupMessageView,
    e: Seq<EffectView>,
) -> bool {
    if m.to_user.len() == 0 {
        let g = group_at(a.groups@, m.group_id);
        &&& b == (Gateway { inboxes: b.inboxes, receipts: b.receipts, ..a })
        &&& if g is None || !g->0.members.contains(m.from_user) {
            e == Seq::<EffectView>::empty() && b.inboxes@ == a.inboxes@ && b.receipts == a.receipts
        } else {
            fanout_step(
                a,
                b,
                m,
                EffectView::Deliver(
                    m.from_user,
                    crate::messenger::server::server_ack(m.message_id, 0, m.from_user),
                ),
                e,
            )
        }
    } else if m.seq == 0 {
        &&& e == copy_effects(or_empty(inbox_at(a.inboxes@, m.to_user)), m)
        &&& b == (Gateway { inboxes: b.inboxes, ..a })
        &&& stored_in(
            a.inboxes@,
            b.inboxes@,
            m.to_user,
            copy_key(m),
            PacketView::GroupMessage(m),
            a.cfg.max_inbox as nat,
        )
    } else {
        b == a && e == seq![EffectView::Deliver(m.to_user, PacketView::GroupMessage(m))]
    }
}

/// What a membership event from a peer does: one for a user is delivered, one
/// for a group at home here is applied, others are ignored.
pub open spec fn peer_event_step(a: Gateway, b: Gateway, ev: GroupEventView, e: Seq<EffectView>) -> bool {
    if ev.to_user.len() > 0 {
        b == a && e == seq![EffectView::Deliver(ev.to_user, PacketView::GroupEvent(ev))]
    } else if is_home_spec(a.cluster, ev.group_id) {
        membership_step(a, b, ev, false, e)
    } else {
        b == a && e == Seq::<EffectView>::empty()
    }
}

/// A packet is delivered to a user.
pub open spec fn delivered_to(
    a: Gateway,
    b: Gateway,
    user: Seq<char>,
    p: PacketView,
    e: Seq<EffectView>,
) -> bool {
    b == a && e == seq![EffectView::Deliver(user, p)]
}

/// What merging a handed over inbox leads to: the home node owns its persistence,
/// so the highest number, if it rises, and every message that is taken in are
/// persisted here.
pub open spec fn handoff_effects(v: InboxView, h: PeerHandoffUserView) -> Seq<EffectView> {
    let number = handoff_merged(v, h).next_seq;
    let marker = if number > v.next_seq {
        seq![EffectView::Persist(high_water_mark(h.user_id, number))]
    } else {
        Seq::empty()
    };
    marker + as_entries(handoff_new(v, h))
}

/// The packets as entries of the journal.
pub open spec fn as_entries(s: Seq<PacketView>) -> Seq<EffectView> {
    Seq::new(s.len(), |i: int| EffectView::Persist(s[i]))
}

/// What a packet from a peer gateway does.
pub open spec fn peer_step(
    a: Gateway,
    b: Gateway,
    peer: Seq<char>,
    p: PacketView,
    now: u64,
    e: Seq<EffectView>,
) -> bool {
    match p {
        PacketView::PeerPresence(q) => {
            &&& e == seq![
                local_news(
                    audience(a.sessions, a.rosters@, q.user_id),
                    q.user_id,
                    peer_kind(q.online),
                    now,
                ),
            ]
            &&& b == (Gateway {
                user_locations: b.user_locations,
                last_seen: b.last_seen,
                ..a
            })
            &&& forall|u: Seq<char>| #[trigger]
                place_at(b.user_locations@, u) == (if u == q.user_id {
                    place_after(place_at(a.user_locations@, u), q)
                } else {
                    place_at(a.user_locations@, u)
                })
            &&& b.last_seen@ == (if q.online {
                a.last_seen@
            } else {
                a.last_seen@.insert(q.user_id, q.last_seen)
            })
        },
        PacketView::PeerSync(s) => b == a && e == sync_effects(
            inbox_at(a.inboxes@, s.user_id),
            peer,
            s,
        ),
        PacketView::ChatMessage(m) => peer_chat_step(a, b, m, e),
        PacketView::GroupMessage(m) => peer_group_step(a, b, m, e),
        PacketView::GroupEvent(ev) => peer_event_step(a, b, ev, e),
        PacketView::ServerAck(x) => delivered_to(a, b, x.to_user, p, e),
        PacketView::DeliveredAck(d) => delivered_step(a, b, d, false, e),
        PacketView::ReadAck(d) => read_step(a, b, d, false, e),
        PacketView::GroupAckSummary(x) => delivered_to(a, b, x.to_user, p, e),
        PacketView::SubscribePresence(x) => subscribe_step(a, b, x, false, e),
        PacketView::RemoveDeviceKeys(k) => revoke_step(a, b, k, e),
        PacketView::SyncComplete(s) => delivered_to(a, b, s.user_id, p, e),
        PacketView::PeerJoin(j) => {
            &&& b == (Gateway {
                cluster: b.cluster,
                inboxes: b.inboxes,
                groups: b.groups,
                ..a
            })
            &&& if join_is_news(a.cluster, j.node_id) {
                &&& b.cluster is Some
                &&& peer_arrived(
                    a.cluster->0,
                    b.cluster->0,
                    j.node_id,
                    j.addr,
                    peer,
                    a.inboxes@,
                    b.inboxes@,
                    a.groups@,
                    b.groups@,
                    e,
                )
            } else {
                &&& e == Seq::<EffectView>::empty()
                &&& unchanged(
                    a.cluster,
                    b.cluster,
                    a.inboxes@,
                    b.inboxes@,
                    a.groups@,
                    b.groups@,
                )
            }
        },
        PacketView::PeerLeave(l) => {
            &&& b == (Gateway {
                cluster: b.cluster,
                inboxes: b.inboxes,
                groups: b.groups,
                ..a
            })
            &&& if a.cluster is Some && l.node_id.len() > 0 && l.node_id != a.cluster->0.node_id@ {
                &&& b.cluster is Some
                &&& peer_departed(
                    a.cluster->0,
                    b.cluster->0,
                    l.node_id,
                    a.inboxes@,
                    b.inboxes@,
                    a.groups@,
                    b.groups@,
                    e,
                )
            } else {
                &&& e == Seq::<EffectView>::empty()
                &&& unchanged(
                    a.cluster,
                    b.cluster,
                    a.inboxes@,
                    b.inboxes@,
                    a.groups@,
                    b.groups@,
                )
            }
        },
        PacketView::PeerHandoffUser(h) => {
            &&& e == handoff_effects(or_empty(inbox_at(a.inboxes@, h.user_id)), h)
            &&& b == (Gateway { inboxes: b.inboxes, ..a })
            &&& forall|u: Seq<char>| #[trigger]
                inbox_at(b.inboxes@, u) == (if u == h.user_id {
                    Some(handoff_merged(or_empty(inbox_at(a.inboxes@, u)), h))
                } else {
                    inbox_at(a.inboxes@, u)
                })
        },
        PacketView::PeerHandoffGroup(h) => {
            &&& e == Seq::<EffectView>::empty()
            &&& b == (Gateway { groups: b.groups, ..a })
            &&& forall|k: Seq<char>| #[trigger]
                group_at(b.groups@, k) == (if k == h.group_id {
                    Some(group_merged(group_at(a.groups@, k), h))
                } else {
                    group_at(a.groups@, k)
                })
        },
        PacketView::PeerMediaReady(m) => {
            &&& e == Seq::<EffectView>::empty()
            &&& b == (Gateway { media_owners: b.media_owners, ..a })
            &&& forall|k: Seq<char>| #[trigger]
                place_at(b.media_owners@, k) == (if k == m.media_id {
                    Some(m.node_id)
                } else {
                    place_at(a.media_owners@, k)
                })
        },
        PacketView::MediaFetch(f) => {
            let blob = blob_at(a.media@, f.media_id);
            b == a && e == (if complete_blob(blob) {
                for_peer(peer, media_stream(f.media_id, blob->0, f.from_offset))
            } else {
                Seq::empty()
            })
        },
        PacketView::MediaStart(m) => relay_step(a, b, m.media_id, p, false, e),
        PacketView::MediaChunk(c) => relay_step(a, b, c.media_id, p, c.last, e),
        PacketView::PublishKeys(k) => publish_step(a, b, k, e),
        PacketView::FetchKeys(f) => fetch_step(a, b, f, e),
        PacketView::KeyBundle(k) => delivered_to(a, b, k.for_user, p, e),
        _ => b == a && e == Seq::<EffectView>::empty(),
    }
}

impl Gateway {
    /// Merges an inbox that a former home node handed over.
    fn merge_user(&mut self, h: PeerHandoffUser) -> (v: Vec<Effect>)
        requires
            old(self).wf(),
        ensures
            final(self).wf(),
            *final(self) == (Gateway { inboxes: final(self).inboxes, ..*old(self) }),
            forall|u: Seq<char>| #[trigger]
                inbox_at(final(self).inboxes@, u) == (if u == h@.user_id {
                    Some(handoff_merged(or_empty(inbox_at(old(self).inboxes@, u)), h@))
                } else {
                    inbox_at(old(self).inboxes@, u)
                }),
            effect_views(v@) == handoff_effects(
                or_empty(inbox_at(old(self).inboxes@, h@.user_id)),
                h@,
            ),
    {
        let ghost hv = h@;
        let user = h.user_id.clone();
        let mut inbox = match self.inboxes.remove(user.as_str()) {
            Some(i) => i,
            None => Inbox::new(),
        };
        let ghost was = inbox@;
        let before: u64 = inbox.next_seq;
        let fresh = inbox.merge_handoff(h);
        let number: u64 = inbox.next_seq;
        let mut out = no_effects();
        if number > before {
            push_effect(
                &mut out,
                Effect::Persist(
                    Packet::SyncComplete(
                        SyncComplete { delivered: 0, latest_seq: number, user_id: user.clone() },
                    ),
                ),
            );
        }
        let ghost marker = effect_views(out@);
        let ghost new = packet_views(fresh@);
        proof {
            if number > before {
                assert(marker =~= seq![EffectView::Persist(high_water_mark(hv.user_id, number))]);
            }
            assert(marker + as_entries(new.take(0)) =~= marker);
        }
        let mut i: usize = 0;
        while i < fresh.len()
            invariant
                i <= fresh@.len(),
                new == packet_views(fresh@),
                effect_views(out@) == marker + as_entries(new.take(i as int)),
            decreases fresh@.len() - i,
        {
            push_effect(&mut out, Effect::Persist(fresh[i].clone()));
            assert(effect_views(out@) =~= marker + as_entries(new.take(i as int + 1)));
            i += 1;
        }
        assert(new.take(i as int) =~= new);
        let _ = self.inboxes.insert(user, inbox);
        out
    }

    /// One packet for delivery.
    fn deliver(user: String, pkt: Packet) -> (v: Vec<Effect>)
        ensures
            effect_views(v@) == seq![EffectView::Deliver(user@, pkt@)],
    {
        let mut out = no_effects();
        push_effect(&mut out, Effect::Deliver(user, pkt));
        assert(effect_views(out@) =~= seq![EffectView::Deliver(user@, pkt@)]);
        out
    }

    /// Takes a packet from a peer gateway.
    pub fn on_peer_packet(&mut self, peer: &str, pkt: Packet, now: u64) -> (v: Vec<Effect>)
        requires
            old(self).wf(),
            old(self).has_room_for(pkt@),
        ensures
            final(self).wf(),
            peer_step(*old(self), *final(self), peer@, pkt@, now, effect_views(v@)),
    {
        let ghost was = *self;
        let ghost pv = pkt@;
        match pkt {
            Packet::PeerPresence(p) => {
                let told = audience_of(&self.sessions, &self.rosters, p.user_id.as_str());
                let e = peer_presence(
                    &mut self.user_locations,
                    &mut self.last_seen,
                    told,
                    &p,
                    now,
                );
                let mut out = no_effects();
                push_effect(&mut out, e);
                assert(effect_views(out@) =~= seq![
                    local_news(
                        audience(was.sessions, was.rosters@, p@.user_id),
                        p@.user_id,
                        peer_kind(p@.online),
                        now,
                    ),
                ]);
                out
            },
            Packet::PeerSync(s) => replay_to_peer(&self.inboxes, peer, &s),
            Packet::ChatMessage(m) => {
                if m.seq == 0 {
                    assert(or_empty(inbox_at(self.inboxes@, m@.to_user)).next_seq < u64::MAX);
                    let v = route_new_chat(&mut self.inboxes, &m, self.cfg.max_inbox);
                    assert(peer_chat_step(was, *self, m@, effect_views(v@)));
                    v
                } else {
                    Self::deliver(m.to_user.clone(), Packet::ChatMessage(m))
                }
            },
            Packet::GroupMessage(m) => {
                if m.to_user.as_str().is_empty() {
                    self.note_message(&m);
                    let v = route_group_fanout(
                        &self.groups,
                        &mut self.inboxes,
                        &self.cluster,
                        &m,
                        self.cfg.max_inbox,
                    );
                    proof {
                        if v@.len() == 0 {
                            assert(effect_views(v@) =~= Seq::<EffectView>::empty());
                        }
                    }
                    assert(peer_group_step(was, *self, m@, effect_views(v@)));
                    v
                } else if m.seq == 0 {
                    assert(or_empty(inbox_at(self.inboxes@, m@.to_user)).next_seq < u64::MAX);
                    store_and_push_group_copy(&mut self.inboxes, &m, self.cfg.max_inbox)
                } else {
                    Self::deliver(m.to_user.clone(), Packet::GroupMessage(m))
                }
            },
            Packet::GroupEvent(ev) => {
                if !ev.to_user.as_str().is_empty() {
                    Self::deliver(ev.to_user.clone(), Packet::GroupEvent(ev))
                } else if is_home(&self.cluster, ev.group_id.as_str()) {
                    assert(group_at(self.groups@, ev@.group_id) matches Some(g) ==> g.version
                        < u64::MAX);
                    let v = apply_membership(
                        &mut self.groups,
                        &ev,
                        self.cfg.max_group_members,
                        false,
                    );
                    assert(membership_step(was, *self, ev@, false, effect_views(v@)));
                    v
                } else {
                    no_effects()
                }
            },
            Packet::ServerAck(a) => Self::deliver(a.to_user.clone(), Packet::ServerAck(a)),
            Packet::DeliveredAck(a) => self.on_delivered(&a, false),
            Packet::ReadAck(a) => self.on_read(&a, false),
            Packet::GroupAckSummary(x) => Self::deliver(
                x.to_user.clone(),
                Packet::GroupAckSummary(x),
            ),
            Packet::SubscribePresence(x) => self.on_subscribe(&x, false),
            Packet::RemoveDeviceKeys(k) => self.on_remove_device_keys(&k),
            Packet::SyncComplete(s) => Self::deliver(s.user_id.clone(), Packet::SyncComplete(s)),
            Packet::PeerJoin(j) => {
                let v = handle_peer_join(
                    &mut self.cluster,
                    &mut self.inboxes,
                    &mut self.groups,
                    peer,
                    &j,
                );
                proof {
                    if v@.len() == 0 {
                        assert(effect_views(v@) =~= Seq::<EffectView>::empty());
                    }
                }
                v
            },
            Packet::PeerLeave(l) => {
                let v = handle_peer_leave(
                    &mut self.cluster,
                    &mut self.inboxes,
                    &mut self.groups,
                    &l,
                );
                proof {
                    if v@.len() == 0 {
                        assert(effect_views(v@) =~= Seq::<EffectView>::empty());
                    }
                }
                v
            },
            Packet::PeerHandoffUser(h) => self.merge_user(h),
            Packet::PeerHandoffGroup(h) => {
                merge_handoff_group(&mut self.groups, &h);
                no_effects()
            },
            Packet::PeerMediaReady(m) => {
                let _ = self.media_owners.insert(m.media_id, m.node_id);
                no_effects()
            },
            Packet::MediaFetch(f) => {
                let mut out = no_effects();
                match self.stream(&f) {
                    None => {},
                    Some(packets) => {
                        let ghost all = packet_views(packets@);
                        let mut i: usize = 0;
                        while i < packets.len()
                            invariant
                                i <= packets@.len(),
                                all == packet_views(packets@),
                                effect_views(out@) == for_peer(peer@, all.take(i as int)),
                            decreases packets@.len() - i,
                        {
                            push_effect(
                                &mut out,
                                Effect::ToPeer(peer.to_string(), packets[i].clone()),
                            );
                            assert(effect_views(out@) =~= for_peer(
                                peer@,
                                all.take(i as int + 1),
                            ));
                            i += 1;
                        }
                        assert(all.take(i as int) =~= all);
                    },
                }
                out
            },
            Packet::MediaStart(m) => {
                let id = m.media_id.clone();
                self.relay(id.as_str(), Packet::MediaStart(m), false)
            },
            Packet::MediaChunk(c) => {
                let id = c.media_id.clone();
                let last = c.last;
                self.relay(id.as_str(), Packet::MediaChunk(c), last)
            },
            Packet::PublishKeys(k) => self.on_publish_keys(&k),
            Packet::FetchKeys(f) => self.on_fetch_keys(&f),
            Packet::KeyBundle(b) => Self::deliver(b.for_user.clone(), Packet::KeyBundle(b)),
            _ => no_effects(),
        }
    }
}

/// A message that a handoff adds to an inbox is persisted with it, so that the
/// new home node finds it again.
pub proof fn law_moved_messages_are_persisted(v: InboxView, h: PeerHandoffUserView)
    ensures
        handoff_merged(v, h).pending == sorted_by_seq(
            v.pending + all_waiting(handoff_new(v, h)),
        ),
        forall|i: int|
            0 <= i < handoff_new(v, h).len() ==> handoff_effects(v, h).contains(
                EffectView::Persist(#[trigger] handoff_new(v, h)[i]),
            ),
{
    law_handoff_adds_what_is_new(v, h);
    let e = handoff_effects(v, h);
    let new = handoff_new(v, h);
    let n = e.len() - new.len();
    assert forall|i: int| 0 <= i < new.len() implies e.contains(
        EffectView::Persist(#[trigger] new[i]),
    ) by {
        assert(e[n + i] == EffectView::Persist(new[i]));
    }
}

/// Once a user has named contacts, only they are told about the user, and the
/// user is told only about them.
pub proof fn law_roster_limits_presence(
    before: Map<Seq<char>, Vec<String>>,
    after: Map<Seq<char>, Vec<String>>,
    s: SubscribePresenceView,
    sessions: SessionTable,
    other: Seq<char>,
)
    requires
        sessions.wf(),
        subscribed(before, after, s),
    ensures
        audience(sessions, after, s.user_id).contains(other) ==> s.contact_ids.contains(other),
        audience(sessions, after, other).contains(s.user_id) ==> s.contact_ids.contains(other),
{
    assert(after.dom().contains(s.user_id));
    law_only_contacts_exchange_presence(after, sessions, s.user_id, other);
    law_only_contacts_exchange_presence(after, sessions, other, s.user_id);
}

/// Whatever a client writes into the sender field of a chat message, the
/// message is stored, forwarded and delivered under the user of the session.
pub proof fn law_sender_cannot_be_forged(
    a: Gateway,
    b1: Gateway,
    b2: Gateway,
    upload: Option<Seq<char>>,
    user: Seq<char>,
    session_id: u64,
    m: ChatMessageView,
    claimed: Seq<char>,
    now: u64,
    e1: Seq<EffectView>,
    e2: Seq<EffectView>,
)
    requires
        client_step(
            a,
            b1,
            upload,
            upload,
            user,
            session_id,
            PacketView::ChatMessage(m),
            now,
            e1,
            None,
        ),
        client_step(
            a,
            b2,
            upload,
            upload,
            user,
            session_id,
            PacketView::ChatMessage(ChatMessageView { from_user: claimed, ..m }),
            now,
            e2,
            None,
        ),
    ensures
        e1 == e2,
        forall|u: Seq<char>| #[trigger] inbox_at(b1.inboxes@, u) == inbox_at(b2.inboxes@, u),
{
    let m1 = ChatMessageView { from_user: user, ..m };
    let m2 = ChatMessageView {
        from_user: user,
        ..(ChatMessageView { from_user: claimed, ..m })
    };
    assert(m1 =~= m2);
}

/// Wherever a user logs in, what waits is replayed. On another node than the
/// home node, the welcome asks the home node, whose answer to that sends each
/// message that waits there back to the node of the login, in order, and ends
/// with the end of the sync; and the node of the login delivers each of these to
/// the user.
pub proof fn law_login_anywhere_replays_what_waits(
    c: Option<ClusterState>,
    o: Option<InboxView>,
    told: Seq<Seq<char>>,
    l: LoginView,
    session_id: u64,
    now: u64,
    home: Gateway,
    after: Gateway,
    later: u64,
    answer: Seq<EffectView>,
)
    requires
        c is Some,
        elsewhere(c, l.user_id) is Some,
        ({
            let e = welcome_effects(c, o, told, l, session_id, now);
            e.last() matches EffectView::ToPeer(n, p) && n == elsewhere(c, l.user_id)->0
                && peer_step(home, after, c->0.node_id@, p, later, answer)
        }),
    ensures
        ({
            let here = c->0.node_id@;
            let waits = or_empty(inbox_at(home.inboxes@, l.user_id)).pending.filter(
                |m: StoredView| !m.delivered && m.seq > l.resume_after_seq,
            );
            &&& after == home
            &&& answer.len() == waits.len() + 1
            &&& forall|i: int|
                0 <= i < waits.len() ==> #[trigger] answer[i] == EffectView::ToPeer(
                    here,
                    waits[i].packet,
                )
            &&& answer.last() matches EffectView::ToPeer(n, PacketView::SyncComplete(s))
            &&& n == here
            &&& s.user_id == l.user_id
        }),
        welcome_effects(c, o, told, l, session_id, now).last() is ToPeer,
{
    law_login_elsewhere_asks_the_home_node(c, o, told, l, session_id, now);
    law_home_node_replays_to_who_asked(
        inbox_at(home.inboxes@, l.user_id),
        c->0.node_id@,
        PeerSyncView { user_id: l.user_id, after_seq: l.resume_after_seq },
    );
}

/// What a peer sends for a user here is delivered to that user, as it is, and
/// changes nothing: numbered messages and copies, acknowledgements, the end of a
/// sync, keys, news of a group, and receipts.
pub proof fn law_peers_deliver_to_users(
    a: Gateway,
    b: Gateway,
    peer: Seq<char>,
    p: PacketView,
    now: u64,
    e: Seq<EffectView>,
    user: Seq<char>,
)
    requires
        peer_step(a, b, peer, p, now, e),
        match p {
            PacketView::ChatMessage(m) => m.seq != 0 && m.to_user == user,
            PacketView::GroupMessage(m) => m.seq != 0 && m.to_user == user && user.len() > 0,
            PacketView::GroupEvent(x) => x.to_user == user && user.len() > 0,
            PacketView::ServerAck(x) => x.to_user == user,
            PacketView::SyncComplete(x) => x.user_id == user,
            PacketView::KeyBundle(x) => x.for_user == user,
            PacketView::GroupAckSummary(x) => x.to_user == user,
            _ => false,
        },
    ensures
        b == a,
        e == seq![EffectView::Deliver(user, p)],
{
}

} // verus!
