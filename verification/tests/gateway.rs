use lane_switchboards::collections::{StrMap, StrSet};
use lane_switchboards::messenger::auth::HmacAuthenticator;
use lane_switchboards::messenger::cluster::{
    add_peer, cluster_size, gateway_ready, home_elsewhere, is_home, node_id, remove_peer,
    ClusterConfig, ClusterState, PeerAddr,
};
use lane_switchboards::messenger::codec::Packet;
use lane_switchboards::messenger::discovery::{
    own_record, peer_changes, peers_in, MeshDiscoveryConfig, MESSENGER_SERVICE,
};
use lane_switchboards::messenger::dispatch::{Gateway, ServerConfig};
use lane_switchboards::messenger::effects::Effect;
use lane_switchboards::messenger::error::MessengerError;
use lane_switchboards::messenger::inbox_storage::{device_file, device_key, inbox_key};
use lane_switchboards::messenger::key_store::KeyDirectory;
use lane_switchboards::messenger::journal::replay;
use lane_switchboards::messenger::limits::{auth_backoff, AuthFailures, ConnLimiter};
use lane_switchboards::messenger::login::{
    check_login, first_frame, register_session, welcome, FirstFrame, LoginVerdict, Opening,
};
use lane_switchboards::messenger::observability::observability_response;
use lane_switchboards::messenger::presence::{forward_target, remove_session};
use lane_switchboards::messenger::server::pending_for;
use lane_switchboards::messenger::sessions::{SessionEntry, SessionTable};
use lane_switchboards::messenger::wire::{
    ChatMessage, DeliveredAck, ErrorCode, FetchKeys, GroupAckSummary, GroupEvent, GroupMessage,
    GroupOp, KeyBundle, RemoveDeviceKeys, SubscribePresence,
    Login, MediaChunk, MediaFetch, MediaStart, PeerHandoffUser, PeerHello, PeerPresence, PeerSync,
    Ping, Presence, PresenceKind, PublishKeys, ServerAck,
};
use lane_switchboards::time::Duration;

fn chat(id: &str, from: &str, to: &str) -> ChatMessage {
    ChatMessage {
        message_id: id.to_string(),
        from_user: from.to_string(),
        to_user: to.to_string(),
        body: b"hello".to_vec(),
        sent_at: 1,
        seq: 0,
        media_id: String::new(),
    }
}

fn gateway() -> Gateway {
    Gateway::new(ServerConfig::default(), None, StrMap::new())
}

fn send(g: &mut Gateway, user: &str, p: Packet) -> Vec<Effect> {
    let mut upload = None;
    let (effects, end) = g.on_client_packet(&mut upload, user, 1, p, 77);
    assert!(end.is_none());
    effects
}

fn cluster(node: &str, peers: &[&str]) -> ClusterState {
    ClusterState::new(&ClusterConfig {
        node_id: node.to_string(),
        peers: peers
            .iter()
            .map(|p| PeerAddr { node_id: p.to_string(), addr: format!("{p}:1") })
            .collect(),
        peer_secret: "ring".to_string(),
    })
}

fn homed(c: &Option<ClusterState>, prefix: &str, here: bool) -> String {
    (0..1000)
        .map(|i| format!("{prefix}{i}"))
        .find(|k| is_home(c, k) == here)
        .expect("a key")
}

#[test]
fn chat_is_persisted_acknowledged_and_delivered() {
    let mut g = gateway();
    let effects = send(&mut g, "alice", Packet::ChatMessage(chat("m-1", "mallory", "bob")));
    let mut stored = chat("m-1", "alice", "bob");
    stored.seq = 1;
    assert_eq!(
        effects,
        vec![
            Effect::Persist(Packet::ChatMessage(stored.clone())),
            Effect::Reply(Packet::ServerAck(ServerAck {
                message_id: "m-1".to_string(),
                seq: 1,
                to_user: String::new(),
            })),
            Effect::Deliver("bob".to_string(), Packet::ChatMessage(stored)),
        ]
    );
    assert_eq!(pending_for(&g.inboxes, "bob"), 1);
}

#[test]
fn retry_is_acknowledged_with_zero_and_not_delivered() {
    let mut g = gateway();
    send(&mut g, "alice", Packet::ChatMessage(chat("m-1", "", "bob")));
    let again = send(&mut g, "alice", Packet::ChatMessage(chat("m-1", "", "bob")));
    assert_eq!(
        again,
        vec![Effect::Reply(Packet::ServerAck(ServerAck {
            message_id: "m-1".to_string(),
            seq: 0,
            to_user: String::new(),
        }))]
    );
    assert_eq!(pending_for(&g.inboxes, "bob"), 1);
}

#[test]
fn incomplete_chat_is_refused() {
    let mut g = gateway();
    let e = send(&mut g, "alice", Packet::ChatMessage(chat("", "", "bob")));
    assert!(matches!(
        &e[0],
        Effect::Reply(Packet::Error(x)) if x.code == ErrorCode::MalformedFrame.as_i32()
            && x.detail == "missing to_user/message_id"
    ));
    assert_eq!(pending_for(&g.inboxes, "bob"), 0);
}

#[test]
fn full_inbox_drops_the_oldest() {
    let mut cfg = ServerConfig::default();
    cfg.max_inbox = 2;
    let mut g = Gateway::new(cfg, None, StrMap::new());
    for i in 0..4 {
        send(&mut g, "alice", Packet::ChatMessage(chat(&format!("m-{i}"), "", "bob")));
    }
    let inbox = g.inboxes.get("bob").unwrap();
    assert_eq!(inbox.next_seq, 4);
    assert_eq!(inbox.pending.iter().map(|m| m.seq).collect::<Vec<_>>(), vec![3, 4]);
}

#[test]
fn delivery_is_recorded_and_told() {
    let mut g = gateway();
    send(&mut g, "alice", Packet::ChatMessage(chat("m-1", "", "bob")));
    let ack = DeliveredAck { message_id: "m-1".to_string(), from_user: "bob".to_string() };
    let e = send(
        &mut g,
        "bob",
        Packet::DeliveredAck(DeliveredAck {
            message_id: "m-1".to_string(),
            from_user: "eve".to_string(),
        }),
    );
    assert_eq!(
        e,
        vec![
            Effect::Persist(Packet::DeliveredAck(ack.clone())),
            Effect::ToSessions(Packet::DeliveredAck(ack.clone())),
            Effect::ToPeers(Packet::DeliveredAck(ack.clone()), None),
        ]
    );
    assert_eq!(pending_for(&g.inboxes, "bob"), 0);
    let second = send(&mut g, "bob", Packet::DeliveredAck(ack));
    assert_eq!(second.len(), 2);
}

#[test]
fn login_replays_what_is_waiting() {
    let mut g = gateway();
    for i in 1..4 {
        send(&mut g, "alice", Packet::ChatMessage(chat(&format!("m-{i}"), "", "bob")));
    }
    let login = Login {
        user_id: "bob".to_string(),
        device_id: "d".to_string(),
        auth_token: String::new(),
        client_version: String::new(),
        resume_after_seq: 1,
    };
    let e = welcome(&g.cluster, &g.inboxes, &g.sessions, &g.rosters, &login, 9, 5);
    assert_eq!(e.len(), 5);
    assert!(matches!(
        &e[0],
        Effect::Reply(Packet::LoginAck(a)) if a.ok && a.session_id == "s-9"
            && a.pending_messages == 2
    ));
    assert!(matches!(&e[1], Effect::Reply(Packet::ChatMessage(m)) if m.seq == 2));
    assert!(matches!(&e[2], Effect::Reply(Packet::ChatMessage(m)) if m.seq == 3));
    assert!(matches!(
        &e[3],
        Effect::Reply(Packet::SyncComplete(s)) if s.delivered == 2 && s.latest_seq == 3
    ));
    assert!(matches!(
        &e[4],
        Effect::ToUsers(Packet::Presence(p), told) if p.kind == 1 && p.user_id == "bob"
            && told.len() == 0
    ));
}

#[test]
fn groups_from_creation_to_fan_out() {
    let mut g = gateway();
    let ev = |op: GroupOp, subject: &str| {
        Packet::GroupEvent(GroupEvent {
            group_id: "g".to_string(),
            op: op.as_i32(),
            actor_user: String::new(),
            subject_user: subject.to_string(),
            version: 0,
            to_user: String::new(),
        })
    };
    let e = send(&mut g, "alice", ev(GroupOp::Create, ""));
    assert!(matches!(
        &e[..],
        [Effect::Deliver(u, Packet::GroupEvent(x))] if u == "alice" && x.version == 1
    ));
    let e = send(&mut g, "alice", ev(GroupOp::AddMember, "bob"));
    assert_eq!(e.len(), 2);
    let e = send(&mut g, "bob", ev(GroupOp::AddMember, "carol"));
    assert!(matches!(
        &e[..],
        [Effect::Reply(Packet::Error(x))] if x.detail == "not an admin"
    ));
    let e = send(&mut g, "alice", ev(GroupOp::Create, ""));
    assert!(matches!(
        &e[..],
        [Effect::Reply(Packet::Error(x))] if x.detail == "group already exists"
    ));
    let m = GroupMessage {
        message_id: "gm".to_string(),
        from_user: String::new(),
        group_id: "g".to_string(),
        body: vec![1],
        sent_at: 0,
        media_id: String::new(),
        seq: 5,
        to_user: String::new(),
    };
    let e = send(&mut g, "alice", Packet::GroupMessage(m.clone()));
    assert_eq!(e.len(), 3);
    assert!(matches!(&e[2], Effect::Reply(Packet::ServerAck(a)) if a.seq == 0));
    assert!(matches!(
        &e[0],
        Effect::Persist(Packet::GroupMessage(x)) if x.to_user == "bob" && x.seq == 1
    ));
    assert!(matches!(
        &e[1],
        Effect::Deliver(u, Packet::GroupMessage(x)) if u == "bob" && x.seq == 1
            && x.to_user == "bob" && x.from_user == "alice"
    ));
    let e = send(&mut g, "carol", Packet::GroupMessage(m));
    assert!(matches!(
        &e[..],
        [Effect::Reply(Packet::Error(x))] if x.code == ErrorCode::UnknownRecipient.as_i32()
    ));
    let e = send(&mut g, "bob", ev(GroupOp::Leave, ""));
    assert_eq!(e.len(), 2);
    assert_eq!(g.groups.get("g").unwrap().version, 3);
    let e = send(&mut g, "bob", ev(GroupOp::Unspecified, ""));
    assert!(matches!(
        &e[..],
        [Effect::Reply(Packet::Error(x))] if x.detail == "unspecified group op"
    ));
}

#[test]
fn full_group_takes_no_more_members() {
    let mut cfg = ServerConfig::default();
    cfg.max_group_members = 1;
    let mut g = Gateway::new(cfg, None, StrMap::new());
    let ev = |op: GroupOp| {
        Packet::GroupEvent(GroupEvent {
            group_id: "g".to_string(),
            op: op.as_i32(),
            actor_user: String::new(),
            subject_user: "bob".to_string(),
            version: 0,
            to_user: String::new(),
        })
    };
    send(&mut g, "alice", ev(GroupOp::Create));
    let e = send(&mut g, "alice", ev(GroupOp::AddMember));
    assert!(matches!(&e[..], [Effect::Reply(Packet::Error(x))] if x.detail == "group full"));
    let e = send(&mut g, "alice", ev(GroupOp::Leave));
    assert!(matches!(&e[..], [Effect::Deliver(u, _)] if u == "alice"));
}

fn upload(g: &mut Gateway, data: &[u8], sha: &str, total: u64) -> Vec<Effect> {
    let mut slot = None;
    let (mut out, _) = g.on_client_packet(
        &mut slot,
        "alice",
        1,
        Packet::MediaStart(MediaStart {
            media_id: "f".to_string(),
            file_name: "report.pdf".to_string(),
            mime_type: "application/pdf".to_string(),
            total_size: total,
            sha256: sha.to_string(),
        }),
        0,
    );
    let (more, _) = g.on_client_packet(
        &mut slot,
        "alice",
        1,
        Packet::MediaChunk(MediaChunk {
            media_id: "f".to_string(),
            offset: 0,
            data: data.to_vec(),
            last: true,
        }),
        0,
    );
    out.extend(more);
    out
}

const ABC_SHA: &str = "ba7816bf8f01cfea414140de5dae2223b00361a396177a9cb410ff61f20015ad";

#[test]
fn upload_is_verified_and_streamed_back() {
    let mut g = gateway();
    let e = upload(&mut g, b"abc", &ABC_SHA.to_uppercase(), 3);
    assert!(matches!(
        &e[1],
        Effect::Reply(Packet::MediaAck(a)) if a.ok && a.complete && a.received_bytes == 3
    ));
    let e = send(
        &mut g,
        "bob",
        Packet::MediaFetch(MediaFetch { media_id: "f".to_string(), from_offset: 1 }),
    );
    assert!(matches!(
        &e[0],
        Effect::Reply(Packet::MediaStart(m)) if m.file_name == "report.pdf" && m.total_size == 3
    ));
    assert_eq!(
        e[1],
        Effect::Reply(Packet::MediaChunk(MediaChunk {
            media_id: "f".to_string(),
            offset: 1,
            data: b"bc".to_vec(),
            last: true,
        }))
    );
    let e = send(
        &mut g,
        "bob",
        Packet::MediaFetch(MediaFetch { media_id: "x".to_string(), from_offset: 0 }),
    );
    assert!(matches!(
        &e[..],
        [Effect::Reply(Packet::Error(x))] if x.detail == "unknown or incomplete media"
    ));
}

#[test]
fn bad_uploads_are_refused() {
    let reply = |e: &Effect| match e {
        Effect::Reply(Packet::MediaAck(a)) => (a.ok, a.error.clone()),
        Effect::Reply(Packet::Error(x)) => (false, x.detail.clone()),
        _ => panic!("a reply"),
    };
    let mut g = gateway();
    let e = upload(&mut g, b"abd", ABC_SHA, 3);
    assert_eq!(reply(&e[1]), (false, "sha256 mismatch".to_string()));
    let e = upload(&mut g, b"ab", "", 3);
    assert_eq!(reply(&e[1]), (false, "size mismatch at final chunk".to_string()));
    let e = upload(&mut g, b"abcd", "", 3);
    assert_eq!(reply(&e[1]), (false, "blob larger than declared total_size".to_string()));
    let e = upload(&mut g, b"abcd", "", 64 * 1024 * 1024 + 1);
    assert_eq!(reply(&e[0]), (false, "blob exceeds max 67108864 bytes".to_string()));
    assert_eq!(reply(&e[1]), (false, "chunk without MediaStart".to_string()));
    let e = upload(&mut g, b"", "", 0);
    assert_eq!(reply(&e[0]), (false, "missing media_id/size".to_string()));
}

#[test]
fn out_of_order_chunk_is_refused() {
    let mut g = gateway();
    let mut slot = None;
    g.on_client_packet(
        &mut slot,
        "alice",
        1,
        Packet::MediaStart(MediaStart {
            media_id: "f".to_string(),
            file_name: String::new(),
            mime_type: String::new(),
            total_size: 10,
            sha256: String::new(),
        }),
        0,
    );
    let (e, _) = g.on_client_packet(
        &mut slot,
        "alice",
        1,
        Packet::MediaChunk(MediaChunk {
            media_id: "f".to_string(),
            offset: 4,
            data: vec![0],
            last: false,
        }),
        0,
    );
    assert!(matches!(
        &e[..],
        [Effect::Reply(Packet::MediaAck(a))]
            if a.error == "out-of-order chunk: expected offset 0"
    ));
}

#[test]
fn ping_presence_and_unexpected_packets() {
    let mut g = gateway();
    let e = send(&mut g, "alice", Packet::Ping(Ping { seq: 7 }));
    assert!(matches!(&e[..], [Effect::Reply(Packet::Pong(p))] if p.seq == 7));
    let e = send(
        &mut g,
        "alice",
        Packet::Presence(Presence { user_id: String::new(), kind: 2, last_seen: 0 }),
    );
    assert!(matches!(
        &e[..],
        [Effect::ToUsers(Packet::Presence(p), _)] if p.last_seen == 77 && p.kind == 2
    ));
    let mut slot = None;
    let (e, end) = g.on_client_packet(
        &mut slot,
        "alice",
        1,
        Packet::PeerSync(PeerSync { user_id: "x".to_string(), after_seq: 0 }),
        0,
    );
    assert!(matches!(
        &e[..],
        [Effect::Reply(Packet::Error(x))] if x.detail == "unexpected client packet PeerSync"
    ));
    assert_eq!(end, Some(MessengerError::Protocol("unexpected packet".to_string())));
    assert!(Gateway::is_final(match &e[0] {
        Effect::Reply(p) => p,
        _ => panic!("a reply"),
    }));
}

#[test]
fn keys_are_published_and_handed_out() {
    let mut g = gateway();
    send(
        &mut g,
        "alice",
        Packet::PublishKeys(PublishKeys {
            user_id: "eve".to_string(),
            device_id: "d1".to_string(),
            identity_key: "id".to_string(),
            one_time_keys: vec!["k1".to_string(), "k2".to_string()],
        }),
    );
    let fetch = |g: &mut Gateway| {
        send(
            g,
            "bob",
            Packet::FetchKeys(FetchKeys {
                user_id: "alice".to_string(),
                device_id: String::new(),
                for_user: String::new(),
            }),
        )
    };
    let key = |e: Vec<Effect>| match e.into_iter().next() {
        Some(Effect::Deliver(u, Packet::KeyBundle(b))) => {
            assert_eq!(u, "bob");
            (b.found, b.one_time_key)
        }
        _ => panic!("a bundle"),
    };
    assert_eq!(key(fetch(&mut g)), (true, "k1".to_string()));
    assert_eq!(key(fetch(&mut g)), (true, "k2".to_string()));
    assert_eq!(key(fetch(&mut g)), (false, String::new()));
}

#[test]
fn messages_for_others_are_forwarded_to_their_home() {
    let c = Some(cluster("n1", &["n2", "n3"]));
    let away = homed(&c, "user", false);
    let home = home_elsewhere(&c, &away).unwrap();
    let mut g = Gateway::new(ServerConfig::default(), c, StrMap::new());
    let e = send(&mut g, "alice", Packet::ChatMessage(chat("m", "", &away)));
    assert!(matches!(
        &e[..],
        [Effect::ToPeer(n, Packet::ChatMessage(m))] if *n == home && m.from_user == "alice"
    ));
    assert_eq!(pending_for(&g.inboxes, &away), 0);
}

#[test]
fn peers_route_store_and_replay() {
    let c = Some(cluster("n1", &["n2"]));
    let bob = homed(&c, "bob", true);
    let mut g = Gateway::new(ServerConfig::default(), c, StrMap::new());
    let e = g.on_peer_packet("n2", Packet::ChatMessage(chat("m", "alice", &bob)), 5);
    assert_eq!(e.len(), 3);
    assert!(matches!(
        &e[1],
        Effect::Deliver(u, Packet::ServerAck(a)) if u == "alice" && a.seq == 1
            && a.to_user == "alice"
    ));
    let e = g.on_peer_packet(
        "n2",
        Packet::PeerSync(PeerSync { user_id: bob.clone(), after_seq: 0 }),
        5,
    );
    assert_eq!(e.len(), 2);
    assert!(matches!(
        &e[1],
        Effect::ToPeer(n, Packet::SyncComplete(s)) if n == "n2" && s.user_id == bob
            && s.delivered == 1
    ));
    let mut numbered = chat("m2", "alice", "carol");
    numbered.seq = 4;
    let e = g.on_peer_packet("n2", Packet::ChatMessage(numbered), 5);
    assert!(matches!(&e[..], [Effect::Deliver(u, _)] if u == "carol"));
}

#[test]
fn presence_news_moves_users() {
    let c = Some(cluster("n1", &["n2", "n3"]));
    let mut g = Gateway::new(ServerConfig::default(), c, StrMap::new());
    let news = |node: &str, online: bool| {
        Packet::PeerPresence(PeerPresence {
            user_id: "bob".to_string(),
            online,
            node_id: node.to_string(),
            last_seen: 3,
        })
    };
    g.on_peer_packet("n2", news("n2", true), 5);
    assert_eq!(
        forward_target(&g.cluster, &g.user_locations, "bob", false),
        Some("n2".to_string())
    );
    assert_eq!(forward_target(&g.cluster, &g.user_locations, "bob", true), None);
    g.on_peer_packet("n3", news("n3", true), 5);
    g.on_peer_packet("n2", news("n2", false), 5);
    assert_eq!(
        forward_target(&g.cluster, &g.user_locations, "bob", false),
        Some("n3".to_string())
    );
    g.on_peer_packet("n3", news("n3", false), 5);
    assert_eq!(forward_target(&g.cluster, &g.user_locations, "bob", false), None);
    assert_eq!(g.last_seen.get("bob"), Some(&3));
}

#[test]
fn joining_peer_takes_its_share() {
    let mut c = Some(cluster("n1", &[]));
    let mut g = Gateway::new(ServerConfig::default(), None, StrMap::new());
    for i in 0..50 {
        send(&mut g, "alice", Packet::ChatMessage(chat("m", "", &format!("u{i}"))));
    }
    let peer = PeerAddr { node_id: "n2".to_string(), addr: "h:1".to_string() };
    let e = add_peer(&mut c, &mut g.inboxes, &mut g.groups, &peer).unwrap();
    assert_eq!(e[0], Effect::OpenLink("n2".to_string(), "h:1".to_string()));
    let handed = e
        .iter()
        .filter(|x| matches!(x, Effect::ToPeer(n, Packet::PeerHandoffUser(_)) if n == "n2"))
        .count();
    assert_eq!(handed, e.len() - 2);
    assert!(handed > 0);
    assert_eq!(g.inboxes.entries.len(), 50 - handed);
    assert_eq!(cluster_size(&c), 2);
    assert!(!gateway_ready(&c, &StrSet::new()));
    assert!(gateway_ready(&c, &StrSet::from_vec(&vec!["n2".to_string()])));
    assert!(!gateway_ready(&c, &StrSet::from_vec(&vec!["n1".to_string(), "n9".to_string()])));
    assert!(gateway_ready(&None, &StrSet::new()));
    assert!(add_peer(&mut c, &mut g.inboxes, &mut g.groups, &peer).unwrap().is_empty());
    let me = PeerAddr { node_id: "n1".to_string(), addr: "h:0".to_string() };
    assert_eq!(
        add_peer(&mut c, &mut g.inboxes, &mut g.groups, &me),
        Err(MessengerError::Protocol("cannot add self as peer".to_string()))
    );
    let e = remove_peer(&mut c, &mut g.inboxes, &mut g.groups, "n2").unwrap();
    assert!(matches!(&e[0], Effect::ToPeers(Packet::PeerLeave(_), Some(n)) if n == "n2"));
    assert_eq!(e[1], Effect::CloseLink("n2".to_string()));
    assert_eq!(cluster_size(&c), 1);
    assert_eq!(
        remove_peer(&mut c, &mut g.inboxes, &mut g.groups, "n1"),
        Err(MessengerError::Protocol("cannot remove self".to_string()))
    );
    let mut none = None;
    assert_eq!(
        add_peer(&mut none, &mut g.inboxes, &mut g.groups, &peer),
        Err(MessengerError::Protocol("add_peer requires bind_cluster".to_string()))
    );
    assert_eq!(
        remove_peer(&mut none, &mut g.inboxes, &mut g.groups, "n2"),
        Err(MessengerError::Protocol("remove_peer requires bind_cluster".to_string()))
    );
    assert_eq!(node_id(&none), "local");
}

#[test]
fn handoff_is_merged_once_and_in_order() {
    let mut g = gateway();
    let mut late = chat("late", "a", "bob");
    late.seq = 9;
    let mut early = chat("early", "a", "bob");
    early.seq = 4;
    let h = PeerHandoffUser {
        user_id: "bob".to_string(),
        next_seq: 12,
        seen: vec!["old".to_string()],
        chats: vec![late, early],
        groups: vec![],
    };
    for _ in 0..2 {
        g.on_peer_packet("n2", Packet::PeerHandoffUser(h.clone()), 0);
        let inbox = g.inboxes.get("bob").unwrap();
        assert_eq!(inbox.next_seq, 12);
        assert_eq!(inbox.pending.iter().map(|m| m.seq).collect::<Vec<_>>(), vec![4, 9]);
        assert!(inbox.seen.contains("old"));
    }
}

#[test]
fn first_frames() {
    let c = Some(cluster("n1", &["n2"]));
    assert!(matches!(
        first_frame(&c, FirstFrame::Late),
        Opening::Refused(Some(_), MessengerError::Timeout("login"))
    ));
    assert!(matches!(
        first_frame(&c, FirstFrame::Closed),
        Opening::Refused(None, MessengerError::Closed)
    ));
    let token = HmacAuthenticator::new(b"ring").mint_token("n2", "peer");
    let hello = |t: &str| {
        FirstFrame::Packet(Packet::PeerHello(PeerHello {
            node_id: "n2".to_string(),
            auth_token: t.to_string(),
        }))
    };
    assert!(matches!(first_frame(&c, hello(&token)), Opening::Peer(n) if n == "n2"));
    assert!(matches!(
        first_frame(&c, hello("00")),
        Opening::Refused(Some(_), MessengerError::AuthFailed)
    ));
    assert!(matches!(
        first_frame(&None, hello(&token)),
        Opening::Refused(Some(_), MessengerError::AuthFailed)
    ));
    assert!(matches!(
        first_frame(&c, FirstFrame::Packet(Packet::Ping(Ping { seq: 1 }))),
        Opening::Refused(Some(_), MessengerError::Protocol(_))
    ));
}

fn login(user: &str, device: &str) -> Login {
    Login {
        user_id: user.to_string(),
        device_id: device.to_string(),
        auth_token: String::new(),
        client_version: String::new(),
        resume_after_seq: 0,
    }
}

#[test]
fn failed_logins_wait_longer_each_time() {
    let mut f = AuthFailures::new();
    let base = Duration::from_millis(250);
    let max = Duration::from_secs(1);
    let mut delays = vec![];
    for _ in 0..4 {
        match check_login(&mut f, &login("u", "d"), false, base, max) {
            LoginVerdict::Refused(d, _) => delays.push(d.as_millis()),
            LoginVerdict::Accepted => panic!("refused"),
        }
    }
    assert_eq!(delays, vec![250, 500, 1000, 1000]);
    assert!(matches!(
        check_login(&mut f, &login("u", "d"), true, base, max),
        LoginVerdict::Accepted
    ));
    assert!(matches!(
        check_login(&mut f, &login("u", "d"), false, base, max),
        LoginVerdict::Refused(d, _) if d.as_millis() == 250
    ));
    assert!(matches!(
        check_login(&mut f, &login("", "d"), true, base, max),
        LoginVerdict::Refused(d, _) if d.is_zero()
    ));
    assert_eq!(auth_backoff(base, Duration::from_secs(1 << 40), 30).as_millis(), 250 << 20);
}

#[test]
fn connections_are_limited_per_minute() {
    let mut l = ConnLimiter::new();
    let sec = 1_000_000_000u64;
    assert!(l.admit_connection("1.2.3.4", 2, 0));
    assert!(l.admit_connection("1.2.3.4", 2, sec));
    assert!(!l.admit_connection("1.2.3.4", 2, 2 * sec));
    assert!(l.admit_connection("5.6.7.8", 2, 2 * sec));
    assert!(l.admit_connection("1.2.3.4", 2, 60 * sec));
    assert!(l.admit_connection("1.2.3.4", 0, 60 * sec));
}

#[test]
fn the_minute_slides() {
    let mut l = ConnLimiter::new();
    let tenth = 100_000_000u64;
    assert!(l.admit_connection("a", 2, 0));
    assert!(l.admit_connection("a", 2, 599 * tenth));
    assert!(l.admit_connection("a", 2, 600 * tenth));
    assert!(!l.admit_connection("a", 2, 601 * tenth));
    assert!(!l.admit_connection("a", 2, 1198 * tenth));
    assert!(l.admit_connection("a", 2, 1199 * tenth));
    assert!(l.admit_connection("a", 2, 1200 * tenth));
    assert!(!l.admit_connection("a", 2, 1201 * tenth));
}

#[test]
fn newer_login_replaces_the_device() {
    let mut s = SessionTable::new();
    let mut seen = StrMap::new();
    assert!(register_session(&mut s, &mut seen, &login("u", "phone"), 1, 0).is_empty());
    assert!(register_session(&mut s, &mut seen, &login("u", "laptop"), 2, 0).is_empty());
    let e = register_session(&mut s, &mut seen, &login("u", "phone"), 3, 0);
    assert!(matches!(
        &e[..],
        [Effect::ToSession(1, Packet::Error(x))]
            if x.code == ErrorCode::ReplacedByNewSession.as_i32()
    ));
    assert_eq!(s.session_ids("u"), vec![2, 3]);
    s.touch("u", 2, 100);
    assert_eq!(s.idle(91, Duration::from_secs(0)), vec![("u".to_string(), 3)]);
    let rosters = StrMap::new();
    assert!(remove_session(&mut s, &mut seen, &rosters, &None, "u", 2, 50).is_empty());
    let e = remove_session(&mut s, &mut seen, &rosters, &None, "u", 3, 50);
    assert!(matches!(
        &e[..],
        [Effect::ToUsers(Packet::Presence(p), _)]
            if p.kind == PresenceKind::Unavailable.as_i32() && p.last_seen == 50
    ));
    assert!(!s.is_online("u"));
    assert_eq!(seen.get("u"), Some(&50));
    s.register(
        "v",
        SessionEntry { session_id: 9, device_id: "d".to_string(), last_seen: 0 },
    );
    assert!(s.is_online("v"));
}

#[test]
fn shutdown_notes_everyone() {
    let mut g = gateway();
    assert_eq!(g.take_session_id(), 1);
    assert_eq!(g.take_session_id(), 2);
    register_session(&mut g.sessions, &mut g.last_seen, &login("u", "d"), 1, 0);
    g.shutdown(42);
    assert!(!g.sessions.is_online("u"));
    assert_eq!(g.last_seen.get("u"), Some(&42));
}

#[test]
fn multi_device_publish_and_fetch() {
    let mut dir = KeyDirectory::memory();
    dir.publish(&PublishKeys {
        user_id: "alice".to_string(),
        device_id: "phone".to_string(),
        identity_key: "id-phone".to_string(),
        one_time_keys: vec!["otk-p".to_string()],
    });
    dir.publish(&PublishKeys {
        user_id: "alice".to_string(),
        device_id: "laptop".to_string(),
        identity_key: "id-laptop".to_string(),
        one_time_keys: vec!["otk-l1".to_string(), "otk-l2".to_string()],
    });

    let (laptop, again) = dir.fetch_bundle("alice", "laptop", "bob", None);
    assert!(laptop.found);
    assert_eq!(laptop.device_id, "laptop");
    assert_eq!(laptop.one_time_key, "otk-l1");
    assert_eq!(again.unwrap().one_time_keys, vec!["otk-l2".to_string()]);

    let (primary, _) = dir.fetch_bundle("alice", "", "bob", None);
    assert!(primary.found);
    assert_eq!(primary.device_id, "laptop");
    assert_eq!(primary.one_time_key, "otk-l2");

    dir.remove_device("alice", "laptop");
    let (gone, none) = dir.fetch_bundle("alice", "laptop", "bob", None);
    assert!(!gone.found);
    assert!(none.is_none());
    assert_eq!(gone.device_ids, vec!["phone".to_string()]);
}

#[test]
fn persist_dir_survives_reload() {
    let mut dir = KeyDirectory::memory();
    let stored = dir.publish(&PublishKeys {
        user_id: "bob".to_string(),
        device_id: "d1".to_string(),
        identity_key: "id-bob".to_string(),
        one_time_keys: vec!["otk1".to_string(), "otk2".to_string()],
    });

    let mut reloaded = KeyDirectory::memory();
    let (bundle, again) = reloaded.fetch_bundle("bob", "d1", "alice", Some(stored));
    assert!(bundle.found);
    assert_eq!(bundle.one_time_key, "otk1");
    assert!(again.is_some());
    let (bundle2, _) = reloaded.fetch_bundle("bob", "d1", "alice", None);
    assert_eq!(bundle2.one_time_key, "otk2");
}

#[test]
fn observability_answers() {
    let r = observability_response("GET /health HTTP/1.1", true, None);
    assert_eq!(
        r,
        "HTTP/1.1 200 OK\r\nContent-Type: text/plain; version=0.0.4; charset=utf-8\r\n\
         Content-Length: 2\r\nConnection: close\r\n\r\nok"
    );
    assert!(observability_response("GET /ready", false, None).contains("503"));
    assert!(observability_response("GET /ready", true, None).ends_with("ready"));
    assert!(observability_response("GET /metrics", true, None).contains("501"));
    assert!(observability_response("GET /metrics", true, Some(Ok("é".to_string())))
        .contains("Content-Length: 2\r\n"));
    assert!(observability_response("GET /metrics", true, Some(Err("x".to_string())))
        .ends_with("render error: x"));
    assert!(observability_response("POST /", true, None).contains("404 Not Found"));
}

#[test]
fn storage_keys() {
    assert_eq!(inbox_key("bob", 42), "messenger:inbox:bob:00000000000000000042");
    assert_eq!(
        inbox_key("b", u64::MAX),
        "messenger:inbox:b:18446744073709551615"
    );
    assert_eq!(device_key("u", "d"), "messenger:keys:u:d");
    assert_eq!(device_file("u", "d"), "keys/u/d.json");
}

#[test]
fn discovery_follows_the_registry() {
    let cfg = MeshDiscoveryConfig::default();
    let mut me = own_record(&cfg);
    assert_eq!(me.service, MESSENGER_SERVICE);
    let mut other = own_record(&cfg);
    other.instance_id = "node-1".to_string();
    me.service = MESSENGER_SERVICE.to_string();
    let mut foreign = own_record(&cfg);
    foreign.service = "orders".to_string();
    foreign.instance_id = "x".to_string();
    let peers = peers_in(&vec![me, other, foreign], &cfg.node_id);
    assert_eq!(peers.len(), 1);
    let known = StrSet::from_vec(&vec!["gone".to_string()]);
    let c = peer_changes(&known, &peers);
    assert_eq!(c.add, peers);
    assert_eq!(c.remove, vec!["gone".to_string()]);
    let c = peer_changes(&c.known, &peers);
    assert!(c.add.is_empty() && c.remove.is_empty());
}

#[test]
fn bundle_reaches_the_one_who_asked() {
    let mut g = gateway();
    let b = KeyBundle {
        user_id: "a".to_string(),
        device_id: String::new(),
        identity_key: String::new(),
        one_time_key: String::new(),
        for_user: "bob".to_string(),
        found: false,
        device_ids: vec![],
    };
    let e = g.on_peer_packet("n2", Packet::KeyBundle(b), 0);
    assert!(matches!(&e[..], [Effect::Deliver(u, _)] if u == "bob"));
}

#[test]
fn an_inbox_moves_with_its_messages() {
    let mut former = gateway();
    for id in ["m1", "m2", "m3"] {
        send(&mut former, "alice", Packet::ChatMessage(chat(id, "", "bob")));
    }
    send(
        &mut former,
        "bob",
        Packet::DeliveredAck(DeliveredAck {
            message_id: "m2".to_string(),
            from_user: String::new(),
        }),
    );
    let h = former.inboxes.get("bob").unwrap().build_handoff("bob");
    assert_eq!(h.chats.len(), 2);
    assert!(h.seen.contains(&"m1".to_string()));

    let mut home = gateway();
    let e = home.on_peer_packet("n1", Packet::PeerHandoffUser(h.clone()), 0);
    let entries: Vec<Packet> = e
        .into_iter()
        .map(|e| match e {
            Effect::Persist(p) => p,
            _ => panic!("an entry"),
        })
        .collect();
    assert_eq!(entries.len(), 3);
    assert!(matches!(&entries[0], Packet::SyncComplete(s) if s.latest_seq == 3));
    let rebuilt = replay(&entries);
    assert_eq!(pending_for(&rebuilt, "bob"), 2);
    assert_eq!(rebuilt.get("bob").unwrap().next_seq, 3);
    assert_eq!(pending_for(&home.inboxes, "bob"), 2);
    let e = home.on_peer_packet("n1", Packet::PeerHandoffUser(h), 0);
    assert!(e.is_empty());
    assert_eq!(pending_for(&home.inboxes, "bob"), 2);
    let (packets, latest) = home.inboxes.get("bob").unwrap().replay(0);
    let ids: Vec<&str> = packets
        .iter()
        .map(|p| match p {
            Packet::ChatMessage(m) => m.message_id.as_str(),
            _ => panic!("a chat message"),
        })
        .collect();
    assert_eq!((ids, latest), (vec!["m1", "m3"], 3));
    let again = send(&mut home, "alice", Packet::ChatMessage(chat("m2", "", "bob")));
    assert!(matches!(&again[..], [Effect::Reply(Packet::ServerAck(a))] if a.seq == 0));
    assert_eq!(pending_for(&home.inboxes, "bob"), 2);
}

#[test]
fn group_copies_move_with_an_inbox() {
    let mut inbox = lane_switchboards::messenger::inbox::Inbox::new();
    let copy = |id: &str| {
        Packet::GroupMessage(GroupMessage {
            message_id: id.to_string(),
            from_user: "a".to_string(),
            group_id: "g".to_string(),
            body: vec![1],
            sent_at: 0,
            media_id: String::new(),
            seq: 0,
            to_user: "bob".to_string(),
        })
    };
    inbox.store("x:bob", copy("x"), 10);
    inbox.store("y:bob", copy("y"), 10);
    let h = inbox.build_handoff("bob");
    let mut new = lane_switchboards::messenger::inbox::Inbox::new();
    assert_eq!(new.merge_handoff(h).len(), 2);
    assert_eq!(new.pending_count(), 2);
    assert_eq!(new.replay(0).1, 2);
}

#[test]
fn a_full_queue_ends_the_session() {
    let mut g = gateway();
    for (user, id) in [("slow", 1), ("other", 2)] {
        register_session(&mut g.sessions, &mut g.last_seen, &login(user, "d"), id, 0);
    }
    assert!(g.on_queued("slow", 1, true, 9).is_empty());
    assert!(g.sessions.is_online("slow"));
    let e = g.on_queued("slow", 1, false, 9);
    assert!(matches!(
        &e[..],
        [Effect::CloseSession(1), Effect::ToUsers(Packet::Presence(p), told)]
            if p.kind == 2 && *told == vec!["other".to_string()]
    ));
    assert!(!g.sessions.is_online("slow"));
    assert!(g.sessions.is_online("other"));
    assert_eq!(g.last_seen.get("slow"), Some(&9));
}

#[test]
fn keys_are_kept_per_device() {
    let mut g = gateway();
    for (device, key) in [("phone", "p1"), ("laptop", "l1")] {
        send(
            &mut g,
            "alice",
            Packet::PublishKeys(PublishKeys {
                user_id: String::new(),
                device_id: device.to_string(),
                identity_key: format!("id-{device}"),
                one_time_keys: vec![key.to_string()],
            }),
        );
    }
    let fetch = |g: &mut Gateway, device: &str| {
        let e = send(
            g,
            "bob",
            Packet::FetchKeys(FetchKeys {
                user_id: "alice".to_string(),
                device_id: device.to_string(),
                for_user: String::new(),
            }),
        );
        match e.into_iter().next() {
            Some(Effect::Deliver(_, Packet::KeyBundle(b))) => b,
            _ => panic!("a bundle"),
        }
    };
    let b = fetch(&mut g, "phone");
    assert_eq!((b.found, b.device_id.as_str(), b.one_time_key.as_str()), (true, "phone", "p1"));
    let b = fetch(&mut g, "");
    assert_eq!((b.found, b.device_id.as_str(), b.one_time_key.as_str()), (true, "laptop", "l1"));
    let e = send(
        &mut g,
        "alice",
        Packet::RemoveDeviceKeys(RemoveDeviceKeys {
            user_id: "bob".to_string(),
            device_id: "laptop".to_string(),
        }),
    );
    assert!(e.is_empty());
    assert!(!fetch(&mut g, "laptop").found);
    let b = fetch(&mut g, "");
    assert_eq!((b.device_id.as_str(), b.device_ids), ("phone", vec!["phone".to_string()]));
}

#[test]
fn keys_are_revoked_at_their_home() {
    let c = Some(cluster("n1", &["n2", "n3"]));
    let away = homed(&c, "user", false);
    let home = home_elsewhere(&c, &away).unwrap();
    let mut g = Gateway::new(ServerConfig::default(), c, StrMap::new());
    let e = send(
        &mut g,
        &away,
        Packet::RemoveDeviceKeys(RemoveDeviceKeys {
            user_id: String::new(),
            device_id: "d".to_string(),
        }),
    );
    assert!(matches!(
        &e[..],
        [Effect::ToPeer(n, Packet::RemoveDeviceKeys(k))] if *n == home && k.user_id == away
    ));
}

#[test]
fn rosters_reach_the_peers() {
    let c = Some(cluster("n1", &["n2"]));
    let mut here = Gateway::new(ServerConfig::default(), c, StrMap::new());
    let mut there =
        Gateway::new(ServerConfig::default(), Some(cluster("n2", &["n1"])), StrMap::new());
    for (user, id) in [("bob", 1), ("carol", 2)] {
        register_session(&mut there.sessions, &mut there.last_seen, &login(user, "d"), id, 0);
    }
    let e = send(
        &mut here,
        "alice",
        Packet::SubscribePresence(SubscribePresence {
            user_id: "eve".to_string(),
            contact_ids: vec!["bob".to_string()],
        }),
    );
    let roster = match e.into_iter().next() {
        Some(Effect::ToPeers(p, None)) => p,
        _ => panic!("the roster"),
    };
    assert!(there.on_peer_packet("n1", roster, 0).is_empty());
    let e = there.on_peer_packet(
        "n1",
        Packet::PeerPresence(PeerPresence {
            user_id: "alice".to_string(),
            online: true,
            node_id: "n1".to_string(),
            last_seen: 0,
        }),
        0,
    );
    assert!(matches!(
        &e[..],
        [Effect::ToUsers(Packet::Presence(_), told)] if *told == vec!["bob".to_string()]
    ));
}

#[test]
fn receipts_travel_to_the_senders_gateway() {
    let mut g = gateway();
    let summary = GroupAckSummary {
        message_id: "m".to_string(),
        group_id: "g".to_string(),
        delivered_by: vec![],
        read_by: vec!["bob".to_string()],
        member_count: 1,
        to_user: "alice".to_string(),
    };
    let e = g.on_peer_packet("n2", Packet::GroupAckSummary(summary.clone()), 0);
    assert_eq!(
        e,
        vec![Effect::Deliver("alice".to_string(), Packet::GroupAckSummary(summary))]
    );
}

#[test]
fn a_routed_group_message_is_acknowledged_last() {
    let mut g = gateway();
    for (op, subject) in [(GroupOp::Create, ""), (GroupOp::AddMember, "bob")] {
        send(
            &mut g,
            "alice",
            Packet::GroupEvent(GroupEvent {
                group_id: "g".to_string(),
                op: op.as_i32(),
                actor_user: String::new(),
                subject_user: subject.to_string(),
                version: 0,
                to_user: String::new(),
            }),
        );
    }
    let m = GroupMessage {
        message_id: "gm".to_string(),
        from_user: "alice".to_string(),
        group_id: "g".to_string(),
        body: vec![1],
        sent_at: 0,
        media_id: String::new(),
        seq: 0,
        to_user: String::new(),
    };
    let e = g.on_peer_packet("n2", Packet::GroupMessage(m.clone()), 0);
    assert!(matches!(
        &e[..],
        [
            Effect::Persist(Packet::GroupMessage(_)),
            Effect::Deliver(b, Packet::GroupMessage(_)),
            Effect::Deliver(a, Packet::ServerAck(k)),
        ] if b == "bob" && a == "alice" && k.message_id == "gm"
    ));
    let again = g.on_peer_packet("n2", Packet::GroupMessage(m), 0);
    assert!(matches!(&again[..], [Effect::Deliver(_, Packet::ServerAck(_))]));
}
