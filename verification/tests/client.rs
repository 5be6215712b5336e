use lane_switchboards::error::IoError;
use lane_switchboards::messenger::client::{
    chat_reply, group_event_reply, group_key_message_id, group_send_reply, is_bundle_for,
    login_request, pong_reply, retry_delay, LoginProgress, LoginStep, MessengerClient,
};
use lane_switchboards::messenger::codec::Packet;
use lane_switchboards::messenger::error::MessengerError;
use lane_switchboards::messenger::transfer::{Download, DownloadStep, Upload, UploadStep};
use lane_switchboards::messenger::wire::{
    GroupEvent, GroupOp, KeyBundle, LoginAck, MediaAck, MediaChunk, MediaStart, Ping, Pong, PresenceKind,
    ProtocolError, ServerAck, SyncComplete,
};
use lane_switchboards::messenger::ws::{self, Dial, UrlParts};

fn login_ack(ok: bool) -> Packet {
    Packet::LoginAck(LoginAck {
        ok,
        error: "no".to_string(),
        session_id: "s-1".to_string(),
        pending_messages: 1,
    })
}

#[test]
fn requests_carry_the_user() {
    let c = MessengerClient::new("alice");
    assert_eq!(c.user_id(), "alice");
    assert!(matches!(
        c.send_chat_with_media("bob", "m", &vec![1], "f", 9),
        Packet::ChatMessage(m) if m.from_user == "alice" && m.to_user == "bob"
            && m.media_id == "f" && m.sent_at == 9 && m.seq == 0
    ));
    assert!(matches!(c.ack_delivered("m"), Packet::DeliveredAck(a) if a.from_user == "alice"));
    assert!(matches!(c.ack_read("m"), Packet::ReadAck(a) if a.message_id == "m"));
    assert!(matches!(
        c.subscribe_presence(&vec!["bob".to_string()]),
        Packet::SubscribePresence(s) if s.contact_ids == vec!["bob".to_string()]
    ));
    assert!(matches!(
        c.framed_send_presence(PresenceKind::Unavailable),
        Packet::Presence(p) if p.kind == PresenceKind::Unavailable.as_i32() && p.last_seen == 0
    ));
    assert!(matches!(
        c.group_event("g", GroupOp::AddMember, "bob"),
        Packet::GroupEvent(e) if e.actor_user == "alice" && e.subject_user == "bob"
            && e.op == GroupOp::AddMember.as_i32()
    ));
    assert!(matches!(
        c.send_group("g", "m", &vec![2], 3),
        Packet::GroupMessage(m) if m.group_id == "g" && m.body == vec![2]
    ));
    assert!(matches!(
        c.publish_keys("d", "id", &vec!["k".to_string()]),
        Packet::PublishKeys(k) if k.user_id == "alice" && k.one_time_keys.len() == 1
    ));
    assert!(matches!(
        c.fetch_key_bundle_for_device("bob", "d"),
        Packet::FetchKeys(f) if f.for_user == "alice" && f.device_id == "d"
    ));
    assert!(matches!(
        c.remove_device_keys("d"),
        Packet::RemoveDeviceKeys(k) if k.user_id == "alice" && k.device_id == "d"
    ));
}

#[test]
fn login_collects_the_replay() {
    assert!(matches!(
        login_request("u", "d", "t", "0.1", 4),
        Packet::Login(l) if l.user_id == "u" && l.resume_after_seq == 4
    ));
    let mut l = LoginProgress::new();
    assert!(matches!(l.on_packet(login_ack(true)), LoginStep::Wait));
    assert!(matches!(l.on_packet(Packet::Ping(Ping { seq: 1 })), LoginStep::Wait));
    let done = l.on_packet(Packet::SyncComplete(SyncComplete {
        delivered: 1,
        latest_seq: 9,
        user_id: String::new(),
    }));
    assert!(matches!(done, LoginStep::Done(9)));
    assert_eq!(l.session_id.as_deref(), Some("s-1"));
    assert_eq!(l.replayed.len(), 1);
}

#[test]
fn login_failures() {
    assert!(matches!(
        LoginProgress::new().on_packet(login_ack(false)),
        LoginStep::Failed(MessengerError::Protocol(m)) if m == "no"
    ));
    assert!(matches!(
        LoginProgress::new().on_packet(Packet::Ping(Ping { seq: 1 })),
        LoginStep::Failed(MessengerError::Protocol(m)) if m == "expected LoginAck, got Ping"
    ));
}

#[test]
fn replies_are_recognised() {
    let mut c = MessengerClient::new("alice");
    assert!(matches!(c.ping(), Packet::Ping(p) if p.seq == 1));
    assert_eq!(c.alloc_ping_seq(), 2);
    assert_eq!(pong_reply(&Packet::Pong(Pong { seq: 2 }), 2), Some(Ok(())));
    assert_eq!(
        pong_reply(&Packet::Pong(Pong { seq: 1 }), 2),
        Some(Err(MessengerError::Protocol("pong seq mismatch".to_string())))
    );
    let ack = Packet::ServerAck(ServerAck {
        message_id: "m".to_string(),
        seq: 5,
        to_user: String::new(),
    });
    assert_eq!(chat_reply(&ack, "m"), Some(5));
    assert_eq!(chat_reply(&ack, "n"), None);
    assert_eq!(group_send_reply(&ack, "m"), Some(Ok(())));
    let err = Packet::Error(ProtocolError { code: 1, detail: "d".to_string() });
    assert_eq!(
        group_event_reply(&err, "g"),
        Some(Err(MessengerError::Protocol("d".to_string())))
    );
    let ev = Packet::GroupEvent(GroupEvent {
        group_id: "g".to_string(),
        op: 1,
        actor_user: String::new(),
        subject_user: String::new(),
        version: 3,
        to_user: String::new(),
    });
    assert_eq!(group_event_reply(&ev, "g"), Some(Ok(3)));
    assert_eq!(group_event_reply(&ev, "h"), None);
    let b = Packet::KeyBundle(KeyBundle {
        user_id: "x".to_string(),
        device_id: String::new(),
        identity_key: String::new(),
        one_time_key: String::new(),
        for_user: String::new(),
        found: false,
        device_ids: vec![],
    });
    assert!(is_bundle_for(&b, "alice"));
    assert_eq!(group_key_message_id("g", "bob"), "gsk-g-bob");
}

#[test]
fn retries_back_off_and_stop() {
    let e = MessengerError::Closed;
    let millis = |n: u32| retry_delay(n, 10, &e).map(|d| d.as_millis());
    assert_eq!(millis(0), Some(50));
    assert_eq!(millis(1), Some(100));
    assert_eq!(millis(6), Some(3200));
    assert_eq!(millis(7), Some(5000));
    assert_eq!(millis(8), Some(5000));
    assert_eq!(millis(9), None);
    assert!(retry_delay(0, 0, &e).is_none());
    assert!(retry_delay(0, 3, &MessengerError::AuthFailed).is_none());
    assert!(retry_delay(0, 3, &MessengerError::Io(IoError::other("x".to_string()))).is_some());
    assert!(retry_delay(0, 3, &MessengerError::Timeout("x")).is_some());
}

fn ack(ok: bool, complete: bool) -> Packet {
    Packet::MediaAck(MediaAck {
        media_id: "f".to_string(),
        ok,
        complete,
        received_bytes: 70_000,
        error: "bad".to_string(),
    })
}

#[test]
fn upload_sends_a_chunk_per_acknowledgement() {
    let data: Vec<u8> = (0..70_000u32).map(|i| i as u8).collect();
    let (mut u, start) = Upload::start("f", "n", "t", &data);
    assert!(matches!(
        start,
        Packet::MediaStart(m) if m.total_size == 70_000 && m.sha256.len() == 64
    ));
    let first = match u.on_packet(&ack(true, false)) {
        UploadStep::Send(Packet::MediaChunk(c)) => c,
        _ => panic!("a chunk"),
    };
    assert_eq!((first.offset, first.data.len(), first.last), (0, 65_536, false));
    assert!(matches!(u.on_packet(&Packet::Pong(Pong { seq: 0 })), UploadStep::Wait));
    let second = match u.on_packet(&ack(true, false)) {
        UploadStep::Send(Packet::MediaChunk(c)) => c,
        _ => panic!("a chunk"),
    };
    assert_eq!((second.offset, second.data.len(), second.last), (65_536, 4_464, true));
    assert!(matches!(u.on_packet(&ack(true, true)), UploadStep::Done(70_000)));
    let (mut v, _) = Upload::start("f", "n", "t", &data);
    assert!(matches!(
        v.on_packet(&ack(false, false)),
        UploadStep::Failed(MessengerError::Media(m)) if m == "bad"
    ));
    let (mut w, _) = Upload::start("f", "n", "t", &vec![1]);
    w.on_packet(&ack(true, false));
    assert!(matches!(
        w.on_packet(&ack(true, false)),
        UploadStep::Failed(MessengerError::Media(m)) if m == "server did not finalize upload"
    ));
}

fn media_start(sha: &str) -> Packet {
    Packet::MediaStart(MediaStart {
        media_id: "f".to_string(),
        file_name: "n".to_string(),
        mime_type: "t".to_string(),
        total_size: 3,
        sha256: sha.to_string(),
    })
}

fn chunk(data: &[u8], offset: u64, last: bool) -> Packet {
    Packet::MediaChunk(MediaChunk { media_id: "f".to_string(), offset, data: data.to_vec(), last })
}

#[test]
fn download_collects_and_verifies() {
    let sha = "ba7816bf8f01cfea414140de5dae2223b00361a396177a9cb410ff61f20015ad";
    let (mut d, ask) = Download::start("f");
    assert!(matches!(ask, Packet::MediaFetch(f) if f.from_offset == 0));
    assert!(matches!(d.on_packet(&media_start(sha)), DownloadStep::Wait));
    assert!(matches!(d.on_packet(&chunk(b"ab", 0, false)), DownloadStep::Wait));
    match d.on_packet(&chunk(b"c", 2, true)) {
        DownloadStep::Done(m) => {
            assert_eq!(m.data, b"abc");
            assert_eq!(m.file_name, "n");
        }
        _ => panic!("done"),
    }
    let (mut bad, _) = Download::start("f");
    bad.on_packet(&media_start(sha));
    assert!(matches!(
        bad.on_packet(&chunk(b"abd", 0, true)),
        DownloadStep::Failed(MessengerError::Media(m)) if m == "downloaded blob failed sha256 check"
    ));
    let (mut none, _) = Download::start("f");
    assert!(matches!(
        none.on_packet(&Packet::Error(ProtocolError { code: 1, detail: "gone".to_string() })),
        DownloadStep::Failed(MessengerError::Media(m)) if m == "gone"
    ));
}

#[test]
fn websocket_urls_tell_where_to_connect() {
    let dial = |url: &str| MessengerClient::connect_ws(url, false).unwrap();
    assert_eq!(
        dial("ws://127.0.0.1:9001/"),
        Dial { addr: "127.0.0.1:9001".to_string(), use_tls: false }
    );
    assert_eq!(
        dial("wss://host/messenger"),
        Dial { addr: "host:443".to_string(), use_tls: true }
    );
    assert_eq!(dial("ws://host/x"), Dial { addr: "host:80".to_string(), use_tls: false });
    assert_eq!(dial("foo:bar"), Dial { addr: "127.0.0.1:80".to_string(), use_tls: false });
    assert!(MessengerClient::connect_ws("ws://host/x", true).unwrap().use_tls);
    assert_eq!(
        MessengerClient::connect_ws("no url", false),
        Err(MessengerError::Protocol(
            "bad ws url: relative URL without a base".to_string()
        ))
    );
}

#[test]
fn parts_of_a_url_are_dialed() {
    let parts = |host: Option<&str>, port: Option<u16>, scheme: &str| UrlParts {
        host: host.map(|h| h.to_string()),
        port,
        scheme: scheme.to_string(),
    };
    assert_eq!(ws::dial(&parts(None, None, "x"), false).addr, "127.0.0.1:80");
    assert_eq!(ws::dial(&parts(Some("h"), Some(7), "ws"), false).addr, "h:7");
    assert!(ws::dial(&parts(None, None, "wss"), false).use_tls);
    assert!(!ws::dial(&parts(None, None, "ws"), false).use_tls);
}
