use lane_switchboards::ffi::events::LaneEvent;
use lane_switchboards::ffi::host::{establish_session, login_events};
use lane_switchboards::ffi::session::{Answer, Cmd, SessionCore};
use lane_switchboards::messenger::auth::{Authenticator, HmacAuthenticator};
use lane_switchboards::messenger::client::{
    login_request, LoginOutcome, LoginProgress, LoginStep,
};
use lane_switchboards::collections::StrMap;
use lane_switchboards::messenger::codec::Packet;
use lane_switchboards::messenger::dispatch::{Gateway, ServerConfig};
use lane_switchboards::messenger::e2ee::{E2eeDevice, PeerKeyBundle};
use lane_switchboards::messenger::effects::Effect;
use lane_switchboards::messenger::login::{
    check_login, first_frame, register_session, welcome, FirstFrame, LoginVerdict, Opening,
};
use lane_switchboards::messenger::sharing::{KeyDistribution, ShareStep};
use lane_switchboards::messenger::wire::{EncryptedGroupPayload, EncryptedPayload};
use lane_switchboards::time::Duration;

const SECRET: &str = "ffi-test-secret";

struct Host {
    user: String,
    session_id: u64,
    core: SessionCore,
    login: Option<LoginProgress>,
    upload: Option<String>,
    events: Vec<LaneEvent>,
    answers: Vec<(u64, Answer)>,
}

/// A gateway and the hosts connected to it, without a network in between.
struct World {
    gateway: Gateway,
    auth: HmacAuthenticator,
    hosts: Vec<Host>,
    commands: u64,
}

impl World {
    fn boot() -> World {
        World {
            gateway: Gateway::new(ServerConfig::default(), None, StrMap::new()),
            auth: HmacAuthenticator::new(SECRET.as_bytes()),
            hosts: vec![],
            commands: 0,
        }
    }

    fn connect(&mut self, user: &str, device: &str) -> usize {
        let token = self.auth.mint_token(user, device);
        let first = login_request(user, device, &token, "ffi-test", 0);
        let login = match first_frame(&self.gateway.cluster, FirstFrame::Packet(first)) {
            Opening::Client(l) => l,
            _ => panic!("a login"),
        };
        let valid = self.auth.verify(&login.user_id, &login.device_id, &login.auth_token);
        let base = Duration::from_millis(1);
        assert!(matches!(
            check_login(&mut self.gateway.auth_failures, &login, valid, base, base),
            LoginVerdict::Accepted
        ));
        let session_id = self.gateway.take_session_id();
        self.hosts.push(Host {
            user: user.to_string(),
            session_id,
            core: SessionCore::new(user),
            login: Some(LoginProgress::new()),
            upload: None,
            events: vec![],
            answers: vec![],
        });
        let me = self.hosts.len() - 1;
        let kicked = register_session(
            &mut self.gateway.sessions,
            &mut self.gateway.last_seen,
            &login,
            session_id,
            0,
        );
        self.apply(me, kicked);
        let greeting = welcome(
            &self.gateway.cluster,
            &self.gateway.inboxes,
            &self.gateway.sessions,
            &self.gateway.rosters,
            &login,
            session_id,
            0,
        );
        self.apply(me, greeting);
        assert!(matches!(self.hosts[me].events[0], LaneEvent::LoginAck(_)));
        assert!(self.hosts[me].events.iter().any(|e| matches!(e, LaneEvent::SyncComplete(_))));
        me
    }

    fn apply(&mut self, from: usize, effects: Vec<Effect>) {
        for e in effects {
            match e {
                Effect::Reply(p) => self.receive(from, p),
                Effect::Deliver(user, p) => {
                    for i in 0..self.hosts.len() {
                        if self.hosts[i].user == user {
                            self.receive(i, p.clone());
                        }
                    }
                }
                Effect::ToSession(id, p) => {
                    for i in 0..self.hosts.len() {
                        if self.hosts[i].session_id == id {
                            self.receive(i, p.clone());
                        }
                    }
                }
                Effect::ToSessions(p) => {
                    for i in 0..self.hosts.len() {
                        self.receive(i, p.clone());
                    }
                }
                Effect::ToUsers(p, told) => {
                    for i in 0..self.hosts.len() {
                        if told.contains(&self.hosts[i].user) {
                            self.receive(i, p.clone());
                        }
                    }
                }
                _ => {}
            }
        }
    }

    fn receive(&mut self, i: usize, p: Packet) {
        if let Some(mut l) = self.hosts[i].login.take() {
            match l.on_packet(p) {
                LoginStep::Wait => self.hosts[i].login = Some(l),
                LoginStep::Done(latest_seq) => {
                    let events = login_events(&LoginOutcome {
                        session_id: l.session_id.unwrap(),
                        replayed: l.replayed,
                        latest_seq,
                    });
                    self.hosts[i].events.extend(events);
                }
                LoginStep::Failed(_) => panic!("a login"),
            }
            return;
        }
        let h = self.hosts[i].core.dispatch_packet(&p);
        if let Some(a) = h.answer {
            self.hosts[i].answers.push(a);
        }
        if let Some(e) = h.event {
            self.hosts[i].events.push(e);
        }
        if let Some(p) = h.send {
            self.serve(i, p);
        }
    }

    fn serve(&mut self, i: usize, p: Packet) {
        let user = self.hosts[i].user.clone();
        let id = self.hosts[i].session_id;
        let mut upload = self.hosts[i].upload.take();
        let (effects, end) = self.gateway.on_client_packet(&mut upload, &user, id, p, 0);
        assert!(end.is_none());
        self.hosts[i].upload = upload;
        self.apply(i, effects);
    }

    fn call(&mut self, i: usize, cmd: Cmd) -> Answer {
        self.commands += 1;
        let id = self.commands;
        let plan = self.hosts[i].core.handle_cmd(id, cmd, 0).expect("a packet");
        if let Some(a) = self.hosts[i].core.sent(plan.waiter, Ok(())) {
            self.serve(i, plan.packet);
            return a;
        }
        self.serve(i, plan.packet);
        let at = self.hosts[i].answers.iter().position(|a| a.0 == id).expect("an answer");
        self.hosts[i].answers.remove(at).1
    }

    fn number(&mut self, i: usize, cmd: Cmd) -> u64 {
        match self.call(i, cmd) {
            Answer::Number(n) => n,
            _ => panic!("a number"),
        }
    }

    fn wait_event(&self, i: usize, pred: impl Fn(&LaneEvent) -> bool) -> &LaneEvent {
        self.hosts[i].events.iter().find(|e| pred(e)).expect("an event")
    }
}

fn chat(to: &str, id: &str, body: &[u8]) -> Cmd {
    Cmd::SendChat {
        to_user: to.to_string(),
        message_id: id.to_string(),
        body: body.to_vec(),
        media_id: String::new(),
    }
}

#[test]
fn connect_ping_close() {
    let mut w = World::boot();
    let alice = w.connect("alice", "phone-1");
    assert!(matches!(w.call(alice, Cmd::Ping), Answer::Done));
    assert!(w.hosts[alice].core.handle_cmd(9, Cmd::Close, 0).is_none());
}

#[test]
fn chat_round_trip() {
    let mut w = World::boot();
    let alice = w.connect("alice", "a1");
    let bob = w.connect("bob", "b1");
    let seq = w.number(alice, chat("bob", "m-1", b"hello from ffi"));
    assert!(seq > 0);
    match w.wait_event(bob, |e| matches!(e, LaneEvent::ChatMessage(m) if m.message_id == "m-1")) {
        LaneEvent::ChatMessage(m) => assert_eq!(m.body, b"hello from ffi"),
        _ => unreachable!(),
    }
    w.call(bob, Cmd::AckDelivered { message_id: "m-1".to_string() });
    w.call(bob, Cmd::AckRead { message_id: "m-1".to_string() });
    w.wait_event(alice, |e| matches!(e, LaneEvent::DeliveredAck(a) if a.message_id == "m-1"));
    w.wait_event(alice, |e| matches!(e, LaneEvent::ReadAck(a) if a.message_id == "m-1"));
}

#[test]
fn duplicate_message_id_sentinel_seq() {
    let mut w = World::boot();
    let alice = w.connect("alice", "a1");
    let _bob = w.connect("bob", "b1");
    let seq1 = w.number(alice, chat("bob", "dedup-1", b"once"));
    assert!(seq1 > 0);
    let seq2 = w.number(alice, chat("bob", "dedup-1", b"again"));
    assert_eq!(seq2, 0);
}

#[test]
fn same_device_kick_emits_replaced() {
    let mut w = World::boot();
    let old = w.connect("akash", "phone-1");
    let new = w.connect("akash", "phone-1");
    w.wait_event(old, |e| matches!(e, LaneEvent::ReplacedByNewSession));
    assert!(matches!(w.call(new, Cmd::Ping), Answer::Done));
}

#[test]
fn media_round_trip() {
    let mut w = World::boot();
    let alice = w.connect("alice", "a1");
    let pdf = b"%PDF-1.4 ffi media test";
    let stored = w.number(
        alice,
        Cmd::UploadMedia {
            media_id: "pdf-ffi".to_string(),
            file_name: "report.pdf".to_string(),
            mime_type: "application/pdf".to_string(),
            data: pdf.to_vec(),
        },
    );
    assert_eq!(stored, pdf.len() as u64);
    let bob = w.connect("bob", "b1");
    match w.call(bob, Cmd::FetchMedia { media_id: "pdf-ffi".to_string() }) {
        Answer::Media(down) => {
            assert_eq!(down.data, pdf);
            assert_eq!(down.file_name, "report.pdf");
        }
        _ => panic!("a blob"),
    }
}

/// The payload as the body of a message: its type, the key and the ciphertext.
fn to_body(p: &EncryptedPayload) -> Vec<u8> {
    let mut v = vec![p.message_type as u8, p.sender_key.len() as u8];
    v.extend_from_slice(p.sender_key.as_bytes());
    v.extend_from_slice(&p.ciphertext);
    v
}

fn from_body(v: &[u8]) -> EncryptedPayload {
    let n = v[1] as usize;
    EncryptedPayload {
        message_type: v[0] as u32,
        sender_key: String::from_utf8(v[2..2 + n].to_vec()).unwrap(),
        ciphertext: v[2 + n..].to_vec(),
    }
}

fn publish(w: &mut World, i: usize, e2ee: &mut E2eeDevice, device: &str, count: usize) {
    let one_time_keys = e2ee.generate_one_time_keys(count);
    let cmd = Cmd::PublishE2ee {
        device_id: device.to_string(),
        identity_key: e2ee.identity_key_base64(),
        one_time_keys,
    };
    assert!(matches!(w.call(i, cmd), Answer::Done));
    e2ee.mark_keys_published();
}

fn fetch(w: &mut World, i: usize, user: &str) -> Answer {
    w.call(
        i,
        Cmd::FetchKeyBundle { user_id: user.to_string(), device_id: String::new() },
    )
}

#[test]
fn e2ee_chat_opacity() {
    let mut w = World::boot();
    let alice = w.connect("alice", "a1");
    let bob = w.connect("bob", "b1");
    let mut alice_e2ee = E2eeDevice::generate();
    let mut bob_e2ee = E2eeDevice::generate();
    publish(&mut w, alice, &mut alice_e2ee, "a1", 5);
    publish(&mut w, bob, &mut bob_e2ee, "b1", 5);

    let plain = b"secret-ffi-plaintext";
    match fetch(&mut w, alice, "bob") {
        Answer::Bundle(b) => assert!(establish_session(&mut alice_e2ee, "bob", &b).is_ok()),
        _ => panic!("a bundle"),
    }
    let sealed = alice_e2ee.encrypt_for_peer("bob", plain).unwrap();
    let seq = w.number(
        alice,
        Cmd::SendEncryptedChat {
            to_user: "bob".to_string(),
            message_id: "e2ee-1".to_string(),
            ciphertext: to_body(&sealed),
        },
    );
    assert!(seq > 0);
    match w.wait_event(bob, |e| matches!(e, LaneEvent::ChatMessage(m) if m.message_id == "e2ee-1"))
    {
        LaneEvent::ChatMessage(m) => {
            assert!(
                !m.body.windows(plain.len()).any(|w| w == plain),
                "ciphertext must not contain plaintext"
            );
            let dec = bob_e2ee.decrypt_from_sender("alice", &from_body(&m.body)).unwrap();
            assert_eq!(dec, plain);
        }
        _ => unreachable!(),
    }
}

#[test]
fn e2ee_megolm_three_members() {
    let mut w = World::boot();
    let alice = w.connect("alice", "a1");
    let bob = w.connect("bob", "b1");
    let carol = w.connect("carol", "c1");
    let mut alice_e2ee = E2eeDevice::generate();
    let mut bob_e2ee = E2eeDevice::generate();
    let mut carol_e2ee = E2eeDevice::generate();
    publish(&mut w, alice, &mut alice_e2ee, "a1", 5);
    publish(&mut w, bob, &mut bob_e2ee, "b1", 5);
    publish(&mut w, carol, &mut carol_e2ee, "c1", 5);

    let group = || "g-megolm".to_string();
    w.number(alice, Cmd::CreateGroup { group_id: group() });
    w.number(alice, Cmd::AddMember { group_id: group(), user: "bob".to_string() });
    w.number(alice, Cmd::AddMember { group_id: group(), user: "carol".to_string() });

    let id = alice_e2ee.create_group_sender_session("g-megolm");
    let share = alice_e2ee.group_session_key_share("g-megolm").unwrap();
    let mut d = KeyDistribution::new(
        "g-megolm",
        share.session_key.into_bytes(),
        vec!["bob".to_string(), "carol".to_string()],
    );
    let mut keys = None;
    loop {
        match d.step(&mut alice_e2ee, keys.take()).unwrap() {
            ShareStep::Fetch(user) => match fetch(&mut w, alice, &user) {
                Answer::Bundle(b) => {
                    assert!(b.found);
                    keys = Some(PeerKeyBundle {
                        identity_key: b.identity_key,
                        one_time_key: b.one_time_key,
                    });
                }
                _ => panic!("a bundle"),
            },
            ShareStep::Send { to_user, message_id, payload } => {
                w.number(
                    alice,
                    Cmd::SendEncryptedChat { to_user, message_id, ciphertext: to_body(&payload) },
                );
            }
            ShareStep::Done => break,
        }
    }

    for (member, e2ee) in [(bob, &mut bob_e2ee), (carol, &mut carol_e2ee)] {
        match w.wait_event(member, |e| matches!(e, LaneEvent::ChatMessage(_))) {
            LaneEvent::ChatMessage(m) => {
                let key = e2ee.decrypt_from_sender("alice", &from_body(&m.body)).unwrap();
                let key = String::from_utf8(key).unwrap();
                e2ee.import_group_session_key("g-megolm", &id, &key).unwrap();
            }
            _ => unreachable!(),
        }
    }

    let secret = b"encrypted group payload ffi";
    let sealed = alice_e2ee.encrypt_group_message("g-megolm", secret).unwrap();
    assert!(matches!(
        w.call(
            alice,
            Cmd::SendEncryptedGroup {
                group_id: group(),
                message_id: "gm-megolm-1".to_string(),
                ciphertext: sealed.ciphertext,
            }
        ),
        Answer::Done
    ));
    for (name, member, e2ee) in [("bob", bob, &bob_e2ee), ("carol", carol, &carol_e2ee)] {
        match w.wait_event(member, |e| {
            matches!(e, LaneEvent::GroupMessage(m) if m.message_id == "gm-megolm-1")
        }) {
            LaneEvent::GroupMessage(m) => {
                assert!(
                    !m.body.windows(secret.len()).any(|w| w == secret),
                    "{name}: ciphertext opacity"
                );
                let payload = EncryptedGroupPayload {
                    session_id: id.clone(),
                    ciphertext: m.body.clone(),
                };
                let plain = e2ee.decrypt_group_message("g-megolm", &payload).unwrap();
                assert_eq!(plain, secret, "{name}");
            }
            _ => unreachable!(),
        }
    }
}

#[test]
fn group_ack_summary_via_ffi() {
    let mut w = World::boot();
    let alice = w.connect("alice", "a1");
    let bob = w.connect("bob", "b1");
    let carol = w.connect("carol", "c1");

    w.number(alice, Cmd::CreateGroup { group_id: "g-ffi".to_string() });
    for user in ["bob", "carol"] {
        let cmd = Cmd::AddMember { group_id: "g-ffi".to_string(), user: user.to_string() };
        w.number(alice, cmd);
    }
    w.call(
        alice,
        Cmd::SendGroup {
            group_id: "g-ffi".to_string(),
            message_id: "gm-1".to_string(),
            body: b"hello group".to_vec(),
        },
    );

    for member in [bob, carol] {
        w.wait_event(
            member,
            |e| matches!(e, LaneEvent::GroupMessage(m) if m.message_id == "gm-1"),
        );
        w.call(member, Cmd::AckDelivered { message_id: "gm-1".to_string() });
        w.call(member, Cmd::AckRead { message_id: "gm-1".to_string() });
    }

    let mut saw_full = false;
    let mut summaries = 0;
    for ev in &w.hosts[alice].events {
        if let LaneEvent::GroupAckSummary(s) = ev {
            assert_eq!((s.message_id.as_str(), s.group_id.as_str()), ("gm-1", "g-ffi"));
            summaries += 1;
            if s.read_by.len() >= 2 {
                assert_eq!(s.member_count, 2);
                assert_eq!(s.delivered_by, vec!["bob".to_string(), "carol".to_string()]);
                saw_full = true;
            }
        }
    }
    assert!(saw_full, "expected full GroupAckSummary");
    assert_eq!(summaries, 4);
    w.call(bob, Cmd::AckRead { message_id: "gm-1".to_string() });
    let after = w.hosts[alice].events.iter();
    assert_eq!(after.filter(|e| matches!(e, LaneEvent::GroupAckSummary(_))).count(), 4);
}

#[test]
fn presence_roster_via_ffi() {
    let mut w = World::boot();
    let alice = w.connect("alice", "a1");
    let bob = w.connect("bob", "b1");
    let carol = w.connect("carol", "c1");
    let subscribe = |id: &str| Cmd::SubscribePresence { contact_ids: vec![id.to_string()] };
    assert!(matches!(w.call(alice, subscribe("bob")), Answer::Done));
    assert!(matches!(w.call(bob, subscribe("alice")), Answer::Done));
    for h in &mut w.hosts {
        h.events.clear();
    }

    w.call(alice, Cmd::SendPresence { kind: 1 });

    let got = |w: &World, i: usize, user: &str| {
        w.hosts[i]
            .events
            .iter()
            .any(|e| matches!(e, LaneEvent::Presence(p) if p.user_id == user))
    };
    assert!(got(&w, bob, "alice"), "bob on roster");
    assert!(!got(&w, carol, "alice"), "carol not on roster");

    w.call(carol, Cmd::SendPresence { kind: 1 });
    assert!(!got(&w, alice, "carol"));
    assert!(!got(&w, bob, "carol"));
}
