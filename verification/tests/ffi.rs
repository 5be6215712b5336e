use lane_switchboards::ffi::error::{FfiError, FfiErrorCode, LaneError};
use lane_switchboards::ffi::events::{packet_to_event, LaneEvent};
use lane_switchboards::ffi::host::{
    contacts_from_csv, is_retryable, login_events, ping_interval, retry_after, worker_threads,
};
use lane_switchboards::ffi::json::{event_json, event_to_json, json_escape};
use lane_switchboards::ffi::session::{
    Answer, Cmd, ConnectConfig, ConnectOptions, SessionCore, Transport,
};
use lane_switchboards::ffi::{
    protocol_version, version, DEFAULT_MAX_FRAME, DEFAULT_MAX_MEDIA, MEDIA_CHUNK_SIZE,
    PING_INTERVAL_SECS, PROTOCOL_VERSION,
};
use lane_switchboards::messenger::client::LoginOutcome;
use lane_switchboards::messenger::codec::Packet;
use lane_switchboards::messenger::error::MessengerError;
use lane_switchboards::messenger::ws::Dial;
use lane_switchboards::messenger::wire::{
    ChatMessage, ErrorCode, KeyBundle, MediaAck, MediaChunk, MediaStart, Ping, Pong, Presence,
    ProtocolError, ServerAck,
};

#[test]
fn messenger_errors_map_once() {
    assert_eq!(FfiError::Messenger(MessengerError::AuthFailed).code(), FfiErrorCode::AuthFailed);
    assert_eq!(FfiError::Messenger(MessengerError::Closed).code(), FfiErrorCode::Closed);
    assert_eq!(FfiError::Messenger(MessengerError::Timeout("x")).code(), FfiErrorCode::Timeout);
    assert_eq!(
        FfiError::Messenger(MessengerError::Protocol("p".to_string())).code(),
        FfiErrorCode::Protocol
    );
    assert_eq!(
        FfiError::InvalidArgument("x".to_string()).code(),
        FfiErrorCode::InvalidArgument
    );
    assert_eq!(FfiError::NotConnected.code(), FfiErrorCode::NotConnected);
}

#[test]
fn version_and_constants() {
    assert!(!version().is_empty());
    assert_eq!(PROTOCOL_VERSION, 1);
    assert_eq!(protocol_version(), 1);
    assert_eq!(DEFAULT_MAX_FRAME, 256 * 1024);
    assert_eq!(MEDIA_CHUNK_SIZE, 64 * 1024);
    assert_eq!(DEFAULT_MAX_MEDIA, 64 * 1024 * 1024);
    assert_eq!(PING_INTERVAL_SECS, 30);
}

#[test]
fn codes_texts_and_bindings() {
    assert_eq!(FfiErrorCode::Success.as_i32(), 0);
    assert_eq!(FfiErrorCode::Internal.as_i32(), 14);
    assert_eq!(FfiError::E2ee("x".to_string()).detail(), "e2ee: x");
    let e = FfiError::Messenger(MessengerError::UnsupportedVersion(3));
    assert_eq!(e.code().as_i32(), 5);
    assert_eq!(
        LaneError::from_ffi(&e),
        LaneError::Internal { message: "unsupported protocol version: 3".to_string() }
    );
    assert_eq!(
        LaneError::from_ffi(&FfiError::Messenger(MessengerError::Closed)).to_string(),
        "connection closed"
    );
}

fn chat_packet() -> Packet {
    Packet::ChatMessage(ChatMessage {
        message_id: "m\"1".to_string(),
        from_user: "a".to_string(),
        to_user: "b\\".to_string(),
        body: vec![0, 255],
        sent_at: 1,
        seq: 2,
        media_id: "\n\u{1}é".to_string(),
    })
}

#[test]
fn events_as_json() {
    let ev = packet_to_event(&chat_packet()).unwrap();
    assert_eq!(
        event_to_json(&ev),
        "{\"type\":\"ChatMessage\",\"message_id\":\"m\\\"1\",\"from_user\":\"a\",\
         \"to_user\":\"b\\\\\",\"body_hex\":\"00ff\",\"sent_at\":1,\"seq\":2,\
         \"media_id\":\"\\n\\u0001é\"}"
    );
    assert_eq!(
        event_json(&ev, ""),
        "{\"type\":\"ChatMessage\",\"message_id\":\"m\"1\",\"from_user\":\"a\",\"seq\":2}"
    );
    let sync = LaneEvent::SyncMessage(Box::new(LaneEvent::Pong { seq: 3 }));
    assert_eq!(
        event_to_json(&sync),
        "{\"type\":\"SyncMessage\",\"inner\":{\"type\":\"Pong\",\"seq\":3}}"
    );
    assert_eq!(event_json(&sync, "D"), "{\"type\":\"Other\",\"debug\":\"D\"}");
    let p = packet_to_event(&Packet::Presence(Presence {
        user_id: "u".to_string(),
        kind: -2,
        last_seen: 9,
    }))
    .unwrap();
    assert_eq!(
        event_to_json(&p),
        "{\"type\":\"Presence\",\"user_id\":\"u\",\"kind\":-2,\"last_seen\":9}"
    );
    assert_eq!(json_escape("\u{7f}\t"), "\\u007f\\t");
    assert_eq!(
        event_to_json(&LaneEvent::Disconnected { reason: "x".to_string() }),
        "{\"type\":\"Disconnected\",\"reason\":\"x\"}"
    );
}

#[test]
fn packets_that_hosts_do_not_see() {
    assert_eq!(packet_to_event(&Packet::Ping(Ping { seq: 1 })), None);
    assert_eq!(
        packet_to_event(&Packet::Error(ProtocolError {
            code: ErrorCode::ReplacedByNewSession.as_i32(),
            detail: String::new(),
        })),
        Some(LaneEvent::ReplacedByNewSession)
    );
}

fn start(s: &mut SessionCore, id: u64, cmd: Cmd) -> Packet {
    let plan = s.handle_cmd(id, cmd, 100).expect("a plan");
    assert!(s.sent(plan.waiter, Ok(())).is_none());
    plan.packet
}

#[test]
fn commands_wait_for_their_replies() {
    let mut s = SessionCore::new("alice");
    let ping = start(&mut s, 1, Cmd::Ping);
    assert!(matches!(ping, Packet::Ping(p) if p.seq == 1));
    let chat = start(
        &mut s,
        2,
        Cmd::SendChat {
            to_user: "bob".to_string(),
            message_id: "m".to_string(),
            body: vec![1],
            media_id: String::new(),
        },
    );
    assert!(matches!(
        chat,
        Packet::ChatMessage(m) if m.from_user == "alice" && m.sent_at == 100 && m.seq == 0
    ));
    let h = s.dispatch_packet(&Packet::Pong(Pong { seq: 1 }));
    assert!(matches!(h.answer, Some((1, Answer::Done))));
    assert!(h.event.is_none());
    let h = s.dispatch_packet(&Packet::ServerAck(ServerAck {
        message_id: "m".to_string(),
        seq: 8,
        to_user: String::new(),
    }));
    assert!(matches!(h.answer, Some((2, Answer::Number(8)))));
    assert!(matches!(h.event, Some(LaneEvent::ServerAck(_))));
    assert!(s.waiters.is_empty());
}

#[test]
fn errors_settle_the_first_command() {
    let mut s = SessionCore::new("alice");
    start(&mut s, 1, Cmd::Ping);
    start(&mut s, 2, Cmd::FetchKeyBundle { user_id: "b".to_string(), device_id: String::new() });
    start(&mut s, 3, Cmd::CreateGroup { group_id: "g".to_string() });
    let err = Packet::Error(ProtocolError { code: 3, detail: "no".to_string() });
    let h = s.dispatch_packet(&err);
    match h.answer {
        Some((3, Answer::Failed(e))) => assert_eq!(e.code(), FfiErrorCode::Protocol),
        _ => panic!("the group command"),
    }
    assert_eq!(s.waiters.len(), 2);
    let failed = s.fail_all_waiters(&FfiError::Messenger(MessengerError::Closed));
    assert_eq!(failed.len(), 2);
    match &failed[1] {
        (2, Answer::Failed(e)) => assert_eq!(e.detail(), "internal: connection closed"),
        _ => panic!("the key command"),
    }
    assert!(s.waiters.is_empty());
}

#[test]
fn bundles_uploads_and_downloads() {
    let mut s = SessionCore::new("alice");
    start(&mut s, 1, Cmd::FetchKeyBundle { user_id: "b".to_string(), device_id: String::new() });
    let h = s.dispatch_packet(&Packet::KeyBundle(KeyBundle {
        user_id: "b".to_string(),
        device_id: "d".to_string(),
        identity_key: "i".to_string(),
        one_time_key: "o".to_string(),
        for_user: String::new(),
        found: true,
        device_ids: vec!["d".to_string()],
    }));
    assert!(matches!(h.answer, Some((1, Answer::Bundle(b))) if b.one_time_key == "o"));

    let data: Vec<u8> = (0..70_000u32).map(|i| i as u8).collect();
    start(
        &mut s,
        2,
        Cmd::UploadMedia {
            media_id: "f".to_string(),
            file_name: "n".to_string(),
            mime_type: "t".to_string(),
            data: data.clone(),
        },
    );
    let ack = |complete: bool| {
        Packet::MediaAck(MediaAck {
            media_id: "f".to_string(),
            ok: true,
            complete,
            received_bytes: 70_000,
            error: String::new(),
        })
    };
    let mut got = vec![];
    for _ in 0..3 {
        if let Some(Packet::MediaChunk(c)) = s.dispatch_packet(&ack(false)).send {
            assert_eq!(c.offset as usize, got.len());
            got.extend_from_slice(&c.data);
            assert_eq!(c.last, got.len() == data.len());
        }
    }
    assert_eq!(got, data);
    assert!(matches!(s.dispatch_packet(&ack(true)).answer, Some((2, Answer::Number(70_000)))));

    start(&mut s, 3, Cmd::FetchMedia { media_id: "f".to_string() });
    s.dispatch_packet(&Packet::MediaStart(MediaStart {
        media_id: "f".to_string(),
        file_name: "n".to_string(),
        mime_type: "t".to_string(),
        total_size: 3,
        sha256: "ba7816bf8f01cfea414140de5dae2223b00361a396177a9cb410ff61f20015ad".to_string(),
    }));
    let h = s.dispatch_packet(&Packet::MediaChunk(MediaChunk {
        media_id: "f".to_string(),
        offset: 0,
        data: b"abc".to_vec(),
        last: true,
    }));
    assert!(matches!(h.answer, Some((3, Answer::Media(m))) if m.data == b"abc"));
}

#[test]
fn commands_without_a_reply_and_failed_sends() {
    let mut s = SessionCore::new("alice");
    let plan = s.handle_cmd(1, Cmd::AckRead { message_id: "m".to_string() }, 0).unwrap();
    assert!(plan.waiter.is_none());
    assert!(matches!(s.sent(plan.waiter, Ok(())), Some(Answer::Done)));
    let plan = s.handle_cmd(2, Cmd::Ping, 0).unwrap();
    match s.sent(plan.waiter, Err(MessengerError::Closed)) {
        Some(Answer::Failed(e)) => assert_eq!(e.code(), FfiErrorCode::Closed),
        _ => panic!("a failure"),
    }
    assert!(s.waiters.is_empty());
    assert!(s.handle_cmd(3, Cmd::Close, 0).is_none());
}

#[test]
fn login_starts_with_events() {
    let v = login_events(&LoginOutcome {
        session_id: "s-1".to_string(),
        replayed: vec![chat_packet(), Packet::Ping(Ping { seq: 1 })],
        latest_seq: 2,
    });
    assert_eq!(v.len(), 3);
    assert!(matches!(&v[0], LaneEvent::LoginAck(a) if a.pending_messages == 2 && a.ok));
    assert!(matches!(&v[1], LaneEvent::SyncMessage(_)));
    assert!(matches!(&v[2], LaneEvent::SyncComplete(s) if s.delivered == 2 && s.latest_seq == 2));
}

#[test]
fn options_retries_and_contacts() {
    let o = ConnectOptions::default();
    assert_eq!(o.port, 9000);
    assert_eq!(o.client_version, "ffi-0.1.0");
    assert_eq!(o.check().unwrap_err().code(), FfiErrorCode::InvalidArgument);
    assert_eq!(ConnectOptions::client_version_or(String::new(), "uniffi-"), "uniffi-0.1.0");
    let e = FfiError::Messenger(MessengerError::Timeout("x"));
    assert!(is_retryable(&e));
    assert_eq!(retry_after(0, 3, &e), Some(50));
    assert_eq!(retry_after(9, 12, &e), Some(3200));
    assert_eq!(retry_after(2, 3, &e), None);
    assert_eq!(retry_after(0, 3, &FfiError::NotConnected), None);
    assert!(ping_interval(0).is_none());
    assert_eq!(
        contacts_from_csv(" a, ,b\u{a0},c"),
        vec!["a".to_string(), "b".to_string(), "c".to_string()]
    );
    assert!(contacts_from_csv("").is_empty());
}

#[test]
fn bindings_config_becomes_options() {
    let config = |version: &str| ConnectConfig {
        host: "h".to_string(),
        port: 7,
        use_tls: true,
        user_id: "u".to_string(),
        device_id: "d".to_string(),
        auth_token: "t".to_string(),
        client_version: version.to_string(),
        resume_after_seq: 5,
        ping_interval_secs: 0,
        auto_reconnect: true,
        max_reconnect_attempts: 3,
        use_websocket: false,
        ws_url: String::new(),
    };
    let o = config("").into_options();
    assert_eq!((o.host.as_str(), o.port, o.resume_after_seq), ("h", 7, 5));
    assert_eq!(o.client_version, "uniffi-0.1.0");
    assert!(o.check().is_ok());
    assert_eq!((o.auto_reconnect, o.max_reconnect_attempts), (true, 3));
    assert_eq!(o.transport, Transport::Tcp);
    assert_eq!(config("9").into_options().client_version, "9");
}

#[test]
fn threads_for_hosts() {
    assert_eq!(worker_threads(Some(1), Some(64)), 1);
    assert_eq!(worker_threads(None, Some(1)), 2);
    assert_eq!(worker_threads(None, Some(5)), 5);
    assert_eq!(worker_threads(None, Some(64)), 8);
    assert_eq!(worker_threads(None, None), 4);
}

#[test]
fn options_tell_where_to_connect() {
    let mut o = ConnectOptions::default();
    assert_eq!(o.dial().unwrap(), Dial { addr: "127.0.0.1:9000".to_string(), use_tls: false });
    o.transport = Transport::WebSocket;
    o.ws_url = "wss://h/".to_string();
    assert_eq!(o.dial().unwrap(), Dial { addr: "h:443".to_string(), use_tls: true });
    o.ws_url = "?".to_string();
    assert!(matches!(
        o.dial(),
        Err(FfiError::Messenger(MessengerError::Protocol(m))) if m.starts_with("bad ws url: ")
    ));
}
