use lane_switchboards::ffi::error::{FfiError, FfiErrorCode};
use lane_switchboards::ffi::events::KeyBundleInfo;
use lane_switchboards::ffi::host::{
    establish_and_encrypt, establish_session, export_pickle, import_pickle,
};
use lane_switchboards::messenger::e2ee::{E2eeDevice, PeerKeyBundle};
use lane_switchboards::messenger::error::E2eeError;
use lane_switchboards::messenger::sharing::{key_recipients, KeyDistribution, ShareStep};
use lane_switchboards::messenger::wire::{
    EncryptedGroupPayload, EncryptedPayload, GroupSessionKeyShare, KeyBundle,
};
use prost::bytes::{Buf, BufMut};
use prost::encoding::{bytes, skip_field, string, uint32, DecodeContext, WireType};
use prost::{DecodeError, Message};

/// What travels of an encrypted message, of an encrypted group message and of a
/// shared session key: texts, a number and bytes under field numbers.
#[derive(Debug, Default, Clone, PartialEq)]
struct Body {
    texts: [String; 3],
    number: u32,
    data: Vec<u8>,
}

impl Message for Body {
    fn encode_raw(&self, buf: &mut impl BufMut) {
        string::encode(1, &self.texts[0], buf);
        string::encode(2, &self.texts[1], buf);
        string::encode(3, &self.texts[2], buf);
        uint32::encode(4, &self.number, buf);
        bytes::encode(5, &self.data, buf);
    }

    fn merge_field(
        &mut self,
        tag: u32,
        wire_type: WireType,
        buf: &mut impl Buf,
        ctx: DecodeContext,
    ) -> Result<(), DecodeError> {
        match tag {
            1 => string::merge(wire_type, &mut self.texts[0], buf, ctx),
            2 => string::merge(wire_type, &mut self.texts[1], buf, ctx),
            3 => string::merge(wire_type, &mut self.texts[2], buf, ctx),
            4 => uint32::merge(wire_type, &mut self.number, buf, ctx),
            5 => bytes::merge(wire_type, &mut self.data, buf, ctx),
            _ => skip_field(wire_type, tag, buf, ctx),
        }
    }

    fn encoded_len(&self) -> usize {
        string::encoded_len(1, &self.texts[0])
            + string::encoded_len(2, &self.texts[1])
            + string::encoded_len(3, &self.texts[2])
            + uint32::encoded_len(4, &self.number)
            + bytes::encoded_len(5, &self.data)
    }

    fn clear(&mut self) {
        *self = Body::default();
    }
}

fn share_to_bytes(s: &GroupSessionKeyShare) -> Vec<u8> {
    Body {
        texts: [s.group_id.clone(), s.session_id.clone(), s.session_key.clone()],
        ..Body::default()
    }
    .encode_to_vec()
}

fn share_from_bytes(b: &[u8]) -> Option<GroupSessionKeyShare> {
    let [group_id, session_id, session_key] = Body::decode(b).ok()?.texts;
    Some(GroupSessionKeyShare { group_id, session_id, session_key })
}

fn payload_to_bytes(p: &EncryptedPayload) -> Vec<u8> {
    Body {
        texts: [p.sender_key.clone(), String::new(), String::new()],
        number: p.message_type,
        data: p.ciphertext.clone(),
    }
    .encode_to_vec()
}

fn payload_from_bytes(b: &[u8]) -> Option<EncryptedPayload> {
    let body = Body::decode(b).ok()?;
    let [sender_key, _, _] = body.texts;
    Some(EncryptedPayload { sender_key, message_type: body.number, ciphertext: body.data })
}

fn group_payload_to_bytes(p: &EncryptedGroupPayload) -> Vec<u8> {
    Body {
        texts: [p.session_id.clone(), String::new(), String::new()],
        number: 0,
        data: p.ciphertext.clone(),
    }
    .encode_to_vec()
}

fn group_payload_from_bytes(b: &[u8]) -> Option<EncryptedGroupPayload> {
    let body = Body::decode(b).ok()?;
    let [session_id, _, _] = body.texts;
    Some(EncryptedGroupPayload { session_id, ciphertext: body.data })
}

fn is_encrypted_body(b: &[u8]) -> bool {
    payload_from_bytes(b).is_some()
}

fn is_encrypted_group_body(b: &[u8]) -> bool {
    group_payload_from_bytes(b).is_some()
}

fn setup_pair() -> (E2eeDevice, E2eeDevice, PeerKeyBundle) {
    let mut bob = E2eeDevice::generate();
    let otk = bob.generate_one_time_keys(1);
    bob.mark_keys_published();
    let bundle =
        PeerKeyBundle { identity_key: bob.identity_key_base64(), one_time_key: otk[0].clone() };
    (E2eeDevice::generate(), bob, bundle)
}

#[test]
fn session_establishment_and_round_trip() {
    let (mut alice, mut bob, bundle) = setup_pair();
    alice.establish_outbound("bob", &bundle).unwrap();

    let secret = b"forward-secret payload";
    let body = payload_to_bytes(&alice.encrypt_for_peer("bob", secret).unwrap());
    assert!(is_encrypted_body(&body));
    assert!(!E2eeDevice::body_contains_substring(&body, secret));

    let body = payload_from_bytes(&body).unwrap();
    let plain = bob.decrypt_from_sender("alice", &body).unwrap();
    assert_eq!(plain, secret);

    let reply = bob.encrypt_for_peer("alice", b"acknowledged").unwrap();
    let got = alice.decrypt_from_sender("bob", &reply).unwrap();
    assert_eq!(got, b"acknowledged");
}

#[test]
fn out_of_order_messages_decrypt() {
    let (mut alice, mut bob, bundle) = setup_pair();
    alice.establish_outbound("bob", &bundle).unwrap();

    let m1 = alice.encrypt_for_peer("bob", b"one").unwrap();
    let m2 = alice.encrypt_for_peer("bob", b"two").unwrap();
    let m3 = alice.encrypt_for_peer("bob", b"three").unwrap();

    assert_eq!(bob.decrypt_from_sender("alice", &m2).unwrap(), b"two");
    assert_eq!(bob.decrypt_from_sender("alice", &m1).unwrap(), b"one");
    assert_eq!(bob.decrypt_from_sender("alice", &m3).unwrap(), b"three");
}

#[test]
fn safety_number_is_stable() {
    let a = E2eeDevice::generate();
    let b = E2eeDevice::generate();
    let ka = a.identity_key_base64();
    let kb = b.identity_key_base64();
    let s1 = E2eeDevice::safety_number(&ka, &kb);
    let s2 = E2eeDevice::safety_number(&kb, &ka);
    assert_eq!(s1, s2);
    assert!(s1.contains(' '));
    assert_eq!(s1.len(), 76);
    assert!(s1.split(' ').all(|g| g.len() == 5 || g.len() == 4));
}

#[test]
fn safety_number_of_known_keys() {
    // SHA-256 of "abc" in groups of five digits.
    assert_eq!(
        E2eeDevice::safety_number("bc", "a"),
        "ba781 6bf8f 01cfe a4141 40de5 dae22 23b00 361a3 96177 a9cb4 10ff6 1f200 15ad"
    );
}

#[test]
fn megolm_group_round_trip() {
    let mut alice = E2eeDevice::generate();
    let mut bob = E2eeDevice::generate();

    let group_id = "g-e2ee";
    let session_id = alice.create_group_sender_session(group_id);
    let key_b64 = alice.export_group_session_key(group_id).unwrap();
    bob.import_group_session_key(group_id, &session_id, &key_b64).unwrap();

    let secret = b"group secret payload";
    let body = group_payload_to_bytes(&alice.encrypt_group_message(group_id, secret).unwrap());
    assert!(is_encrypted_group_body(&body));
    assert!(!E2eeDevice::body_contains_substring(&body, secret));

    let body = group_payload_from_bytes(&body).unwrap();
    let plain = bob.decrypt_group_message(group_id, &body).unwrap();
    assert_eq!(plain, secret);

    let body2 = alice.encrypt_group_message(group_id, b"second").unwrap();
    assert_eq!(bob.decrypt_group_message(group_id, &body2).unwrap(), b"second");
}

#[test]
fn megolm_key_share_via_olm() {
    let (mut alice, mut bob, bundle) = setup_pair();
    alice.establish_outbound("bob", &bundle).unwrap();

    let group_id = "g-share";
    alice.create_group_sender_session(group_id);
    let share = alice.group_session_key_share(group_id).unwrap();
    let olm_body = alice.encrypt_for_peer("bob", &share_to_bytes(&share)).unwrap();
    let olm_body = payload_to_bytes(&olm_body);
    assert!(is_encrypted_body(&olm_body));
    assert!(!E2eeDevice::body_contains_substring(&olm_body, share.session_key.as_bytes()));

    let olm_body = payload_from_bytes(&olm_body).unwrap();
    let received = bob.decrypt_from_sender("alice", &olm_body).unwrap();
    let received = share_from_bytes(&received);
    assert_eq!(received, Some(share));
    assert!(bob.import_group_key_share(received).unwrap());

    let body = alice.encrypt_group_message(group_id, b"via share").unwrap();
    assert_eq!(bob.decrypt_group_message(group_id, &body).unwrap(), b"via share");
}

#[test]
fn failures_of_a_device() {
    let (mut alice, mut bob, bundle) = setup_pair();
    assert!(matches!(
        alice.encrypt_for_peer("bob", b"x"),
        Err(E2eeError::NoSession(p)) if p == "bob"
    ));
    assert!(matches!(
        alice.encrypt_group_message("g", b"x"),
        Err(E2eeError::NoGroupSession(g)) if g == "g"
    ));
    assert!(alice.export_group_session_key("g").is_err());
    assert!(alice.group_session_key_share("g").is_err());
    assert!(matches!(
        alice.establish_outbound(
            "bob",
            &PeerKeyBundle { identity_key: "?".to_string(), one_time_key: String::new() }
        ),
        Err(E2eeError::Key(_))
    ));
    assert!(!alice.has_olm_session("bob"));
    assert!(matches!(
        alice.import_group_session_key("g", "s", "?"),
        Err(E2eeError::SessionKey(_))
    ));
    assert!(!alice.import_group_key_share(None).unwrap());
    assert!(matches!(
        alice.decrypt_from_sender(
            "bob",
            &EncryptedPayload {
                sender_key: String::new(),
                message_type: 2,
                ciphertext: vec![1, 2, 3]
            }
        ),
        Err(E2eeError::Decode(_))
    ));
    assert!(matches!(
        alice.decrypt_group_message(
            "g",
            &EncryptedGroupPayload { session_id: String::new(), ciphertext: vec![] }
        ),
        Err(E2eeError::Decode(_))
    ));
    alice.establish_outbound("bob", &bundle).unwrap();
    assert!(alice.has_olm_session("bob"));
    let first = alice.encrypt_for_peer("bob", b"one").unwrap();
    assert_eq!(first.message_type, 0);
    assert_eq!(bob.decrypt_from_sender("alice", &first).unwrap(), b"one");
    assert!(matches!(
        bob.decrypt_from_sender("alice", &first),
        Err(E2eeError::Decryption(_))
    ));
    let reply = bob.encrypt_for_peer("alice", b"two").unwrap();
    assert_eq!(reply.message_type, 1);
    let mut carol = E2eeDevice::generate();
    assert!(matches!(
        carol.decrypt_from_sender("bob", &reply),
        Err(E2eeError::NotPreKeyMessage)
    ));
    assert!(matches!(
        carol.decrypt_from_sender("alice", &first),
        Err(E2eeError::SessionCreation(_))
    ));
    bob.create_group_sender_session("g");
    let gm = bob.encrypt_group_message("g", b"x").unwrap();
    assert!(matches!(
        carol.decrypt_group_message("g", &gm),
        Err(E2eeError::NoInboundGroupSession { .. })
    ));
}

#[test]
fn incomplete_bundle_is_refused() {
    let mut b = KeyBundle {
        user_id: "x".to_string(),
        device_id: String::new(),
        identity_key: "i".to_string(),
        one_time_key: "o".to_string(),
        for_user: String::new(),
        found: true,
        device_ids: vec![],
    };
    assert!(PeerKeyBundle::from_wire(&b).is_ok());
    b.found = false;
    assert_eq!(PeerKeyBundle::from_wire(&b), Err(E2eeError::IncompleteBundle));
    b.found = true;
    b.one_time_key = String::new();
    assert_eq!(PeerKeyBundle::from_wire(&b), Err(E2eeError::IncompleteBundle));
}

#[test]
fn e2ee_pickle_round_trip() {
    let a = E2eeDevice::generate();
    let key = a.identity_key_base64();
    let pickle = export_pickle(&a, "test-passphrase");
    let b = match import_pickle(pickle.as_bytes(), "test-passphrase") {
        Ok(d) => d,
        Err(e) => panic!("{}", e.detail()),
    };
    assert_eq!(b.identity_key_base64(), key);
    assert!(import_pickle(pickle.as_bytes(), "other").is_err());
    assert!(import_pickle(&[0xff, 0xfe], "test-passphrase").is_err());
}

#[test]
fn e2ee_generate_and_safety_number() {
    let a = E2eeDevice::generate();
    let b = E2eeDevice::generate();
    let n1 = E2eeDevice::safety_number(&a.identity_key_base64(), &b.identity_key_base64());
    let n2 = E2eeDevice::safety_number(&b.identity_key_base64(), &a.identity_key_base64());
    assert_eq!(n1, n2);
    assert!(!n1.is_empty());
}

#[test]
fn substring_search() {
    assert!(E2eeDevice::body_contains_substring(b"abcd", b"bc"));
    assert!(E2eeDevice::body_contains_substring(b"abcd", b"cd"));
    assert!(!E2eeDevice::body_contains_substring(b"abcd", b"ce"));
    assert!(!E2eeDevice::body_contains_substring(b"ab", b"abc"));
}

#[test]
fn e2ee_error_texts() {
    assert_eq!(
        E2eeError::NoSession("bob".to_string()).to_string(),
        "no Olm session with bob; call establish_outbound first"
    );
    assert_eq!(
        E2eeError::NoInboundGroupSession {
            group_id: "g".to_string(),
            session_id: "s".to_string()
        }
        .to_string(),
        "no Megolm inbound session s for group g"
    );
}

#[test]
fn one_time_keys_are_counted() {
    let mut d = E2eeDevice::generate();
    assert_eq!(d.generate_one_time_keys(3).len(), 3);
    assert_eq!(d.generate_one_time_keys(2).len(), 5);
    d.mark_keys_published();
    let mut keys = d.generate_one_time_keys(2);
    assert_eq!(keys.len(), 2);
    keys.dedup();
    assert_eq!(keys.len(), 2);
}

#[test]
fn messages_are_first_ones_until_an_answer() {
    let (mut alice, mut bob, bundle) = setup_pair();
    alice.establish_outbound("bob", &bundle).unwrap();
    let one = alice.encrypt_for_peer("bob", b"one").unwrap();
    let two = alice.encrypt_for_peer("bob", b"two").unwrap();
    assert_eq!((one.message_type, two.message_type), (0, 0));
    assert_eq!(one.sender_key, alice.identity_key_base64());
    assert_eq!(bob.decrypt_from_sender("alice", &one).unwrap(), b"one");
    let answer = bob.encrypt_for_peer("alice", b"yes").unwrap();
    assert_eq!(answer.message_type, 1);
    assert_eq!(alice.decrypt_from_sender("bob", &answer).unwrap(), b"yes");
    assert_eq!(alice.encrypt_for_peer("bob", b"three").unwrap().message_type, 1);
    assert_eq!(bob.decrypt_from_sender("alice", &two).unwrap(), b"two");
}

#[test]
fn empty_first_message_opens_the_channel_only() {
    let (mut alice, mut bob, bundle) = setup_pair();
    alice.establish_outbound("bob", &bundle).unwrap();
    let empty = alice.encrypt_for_peer("bob", b"").unwrap();
    assert!(matches!(
        bob.decrypt_from_sender("alice", &empty),
        Err(E2eeError::Decryption(_))
    ));
    assert!(bob.has_olm_session("alice"));
    let next = alice.encrypt_for_peer("bob", b"next").unwrap();
    assert_eq!(bob.decrypt_from_sender("alice", &next).unwrap(), b"next");
}

#[test]
fn group_key_reads_what_follows() {
    let mut alice = E2eeDevice::generate();
    assert_eq!(alice.group_messages_sent("g"), None);
    let id = alice.create_group_sender_session("g");
    let early = alice.encrypt_group_message("g", b"early").unwrap();
    let key = alice.export_group_session_key("g").unwrap();
    let later: Vec<_> = (0u8..4)
        .map(|i| alice.encrypt_group_message("g", &[i]).unwrap())
        .collect();
    assert_eq!(alice.group_messages_sent("g"), Some(5));
    let mut bob = E2eeDevice::generate();
    bob.import_group_session_key("g", &id, &key).unwrap();
    for i in [3usize, 0, 2, 1, 1] {
        assert_eq!(bob.decrypt_group_message("g", &later[i]).unwrap(), vec![i as u8]);
    }
    assert!(matches!(
        bob.decrypt_group_message("g", &early),
        Err(E2eeError::MegolmDecryption(_))
    ));
}

#[test]
fn low_order_keys_are_refused() {
    let mut alice = E2eeDevice::generate();
    let zero = "A".repeat(43);
    assert!(matches!(
        alice.establish_outbound(
            "bob",
            &PeerKeyBundle { identity_key: zero.clone(), one_time_key: zero }
        ),
        Err(E2eeError::SessionCreation(_))
    ));
    assert!(!alice.has_olm_session("bob"));
}

fn info(keys: &PeerKeyBundle, found: bool) -> KeyBundleInfo {
    KeyBundleInfo {
        user_id: "bob".to_string(),
        device_id: String::new(),
        identity_key: keys.identity_key.clone(),
        one_time_key: keys.one_time_key.clone(),
        found,
        device_ids: vec![],
    }
}

#[test]
fn hosts_open_channels_with_bundles() {
    let (mut alice, mut bob, keys) = setup_pair();
    match establish_session(&mut alice, "bob", &info(&keys, false)) {
        Err(FfiError::E2ee(m)) => assert_eq!(m, "peer key bundle not found"),
        _ => panic!("refused"),
    }
    let p = establish_and_encrypt(&mut alice, "bob", &info(&keys, false), b"hi");
    let p = match p {
        Ok(p) => p,
        Err(e) => panic!("{}", e.detail()),
    };
    assert_eq!(bob.decrypt_from_sender("alice", &p).unwrap(), b"hi");
    let bad = PeerKeyBundle { identity_key: "?".to_string(), one_time_key: String::new() };
    assert!(establish_session(&mut alice, "bob", &info(&bad, true)).is_ok());
    match establish_session(&mut alice, "eve", &info(&bad, true)) {
        Err(e) => {
            assert_eq!(e.code(), FfiErrorCode::E2ee);
            assert!(e.detail().starts_with("e2ee: vodozemac key: "));
        }
        Ok(()) => panic!("refused"),
    }
}

#[test]
fn group_key_goes_to_every_other_member() {
    let (mut alice, mut bob, keys) = setup_pair();
    let id = alice.create_group_sender_session("g");
    let key = alice.export_group_session_key("g").unwrap();
    let members: Vec<String> =
        ["alice", "bob", "carol"].iter().map(|m| m.to_string()).collect();
    let recipients = key_recipients(&members, "alice");
    assert_eq!(recipients, vec!["bob".to_string(), "carol".to_string()]);
    let mut d = KeyDistribution::new("g", key.clone().into_bytes(), recipients);
    assert_eq!(d.step(&mut alice, None).unwrap(), ShareStep::Fetch("bob".to_string()));
    match d.step(&mut alice, Some(keys)).unwrap() {
        ShareStep::Send { to_user, message_id, payload } => {
            assert_eq!(to_user, "bob");
            assert_eq!(message_id, "gsk-g-bob");
            let got = bob.decrypt_from_sender("alice", &payload).unwrap();
            assert_eq!(got, key.as_bytes());
            bob.import_group_session_key("g", &id, &key).unwrap();
        }
        _ => panic!("a message"),
    }
    assert_eq!(d.step(&mut alice, None).unwrap(), ShareStep::Fetch("carol".to_string()));
    let bad = PeerKeyBundle { identity_key: "?".to_string(), one_time_key: String::new() };
    assert!(matches!(d.step(&mut alice, Some(bad)), Err(E2eeError::Key(_))));
    let (_, _, fresh) = setup_pair();
    assert!(matches!(
        d.step(&mut alice, Some(fresh)).unwrap(),
        ShareStep::Send { to_user, .. } if to_user == "carol"
    ));
    assert_eq!(d.step(&mut alice, None).unwrap(), ShareStep::Done);
}

#[test]
fn a_stray_message_leaves_the_channel_usable() {
    let (mut alice, mut bob, bundle) = setup_pair();
    alice.establish_outbound("bob", &bundle).unwrap();
    let first = alice.encrypt_for_peer("bob", b"one").unwrap();
    assert_eq!(bob.decrypt_from_sender("alice", &first).unwrap(), b"one");

    let mut carol = E2eeDevice::generate();
    carol.establish_outbound("bob", &bundle).unwrap();
    let stray = carol.encrypt_for_peer("bob", b"stray").unwrap();
    assert!(matches!(bob.decrypt_from_sender("alice", &stray), Err(E2eeError::Decryption(_))));
    assert!(matches!(bob.decrypt_from_sender("alice", &first), Err(E2eeError::Decryption(_))));

    let second = alice.encrypt_for_peer("bob", b"two").unwrap();
    assert_eq!(bob.decrypt_from_sender("alice", &second).unwrap(), b"two");
    let reply = bob.encrypt_for_peer("alice", b"three").unwrap();
    assert_eq!(reply.message_type, 1);
    assert_eq!(alice.decrypt_from_sender("bob", &reply).unwrap(), b"three");
}

#[test]
fn exported_keys_come_back_whole() {
    let mut bob = E2eeDevice::generate();
    let published = bob.generate_one_time_keys(2);
    bob.mark_keys_published();
    let mut fresh = bob.generate_one_time_keys(3);
    let text = export_pickle(&bob, "pass");
    let mut copy = import_pickle(text.as_bytes(), "pass").unwrap();
    assert_eq!(copy.identity_key_base64(), bob.identity_key_base64());
    let mut again = copy.generate_one_time_keys(0);
    fresh.sort();
    again.sort();
    assert_eq!(again, fresh);

    for key in published.iter().chain(fresh.iter()) {
        let bundle =
            PeerKeyBundle { identity_key: bob.identity_key_base64(), one_time_key: key.clone() };
        let mut alice = E2eeDevice::generate();
        alice.establish_outbound("bob", &bundle).unwrap();
        let body = alice.encrypt_for_peer("bob", b"hello").unwrap();
        assert_eq!(copy.decrypt_from_sender(key, &body).unwrap(), b"hello");
        let mut late = E2eeDevice::generate();
        late.establish_outbound("bob", &bundle).unwrap();
        let body = late.encrypt_for_peer("bob", b"used up").unwrap();
        assert!(matches!(
            copy.decrypt_from_sender("late", &body),
            Err(E2eeError::SessionCreation(_))
        ));
    }
    assert!(matches!(
        import_pickle(text.as_bytes(), "other"),
        Err(FfiError::E2ee(m)) if m.starts_with("account pickle: ")
    ));
}
