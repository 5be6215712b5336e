use lane_switchboards::messenger::codec::{split_frames, Frame, Packet, PacketType};
use lane_switchboards::messenger::inbox::{message_is, Inbox};
use lane_switchboards::messenger::journal::{compact, replay, replay_decoded, JOURNAL_FILE};
use lane_switchboards::messenger::wire::{ChatMessage, DeliveredAck, GroupMessage, SyncComplete};
use lane_switchboards::messenger::ws::encode_frame;

fn chat(id: &str, to: &str, seq: u64) -> Packet {
    Packet::ChatMessage(ChatMessage {
        message_id: id.to_string(),
        from_user: "a".to_string(),
        to_user: to.to_string(),
        body: b"x".to_vec(),
        sent_at: 1,
        seq,
        media_id: String::new(),
    })
}

fn delivered(id: &str, user: &str) -> Packet {
    Packet::DeliveredAck(DeliveredAck {
        message_id: id.to_string(),
        from_user: user.to_string(),
    })
}

#[test]
fn replay_restores_pending_and_drops_delivered() {
    assert!(replay(&vec![]).entries.is_empty());
    let inboxes = replay(&vec![chat("m1", "bob", 1), chat("m2", "bob", 2), delivered("m1", "bob")]);
    let bob = inboxes.get("bob").expect("bob inbox");
    assert_eq!(bob.pending.len(), 1);
    assert!(message_is(&bob.pending[0].packet, "m2"));
    assert_eq!(bob.next_seq, 2, "seq high-water mark survives");
}

#[test]
fn seq_never_regresses_after_full_delivery_and_compaction() {
    let first = replay(&vec![chat("m1", "bob", 7), delivered("m1", "bob")]);
    assert_eq!(first.get("bob").map(|i| i.next_seq), Some(7));
    let compacted = compact(&first);
    assert_eq!(
        compacted,
        vec![Packet::SyncComplete(SyncComplete {
            delivered: 0,
            latest_seq: 7,
            user_id: "bob".to_string(),
        })]
    );
    let second = replay(&compacted);
    assert_eq!(second.get("bob").map(|i| i.next_seq), Some(7));
    assert!(second.get("bob").is_some_and(|i| i.pending.is_empty()));
}

#[test]
fn compaction_keeps_what_is_waiting() {
    let g = Packet::GroupMessage(GroupMessage {
        message_id: "g1".to_string(),
        from_user: "a".to_string(),
        group_id: "g".to_string(),
        body: vec![],
        sent_at: 0,
        media_id: String::new(),
        seq: 3,
        to_user: "bob".to_string(),
    });
    let inboxes = replay(&vec![chat("m9", "bob", 9), g, chat("m9", "bob", 9), chat("c", "eve", 1)]);
    let again = replay(&compact(&inboxes));
    for user in ["bob", "eve"] {
        let x = inboxes.get(user).unwrap();
        let y = again.get(user).unwrap();
        assert_eq!(x.next_seq, y.next_seq);
        let seqs = |i: &Inbox| i.pending.iter().map(|m| m.seq).collect::<Vec<_>>();
        assert_eq!(seqs(x), seqs(y));
    }
    assert_eq!(
        inboxes.get("bob").unwrap().pending.iter().map(|m| m.seq).collect::<Vec<_>>(),
        vec![3, 9]
    );
    assert_eq!(JOURNAL_FILE, "inbox.wal");
}

#[test]
fn inbox_hands_over_and_replays() {
    let mut i = Inbox::new();
    for k in 1..4 {
        assert_eq!(i.store(&format!("m{k}"), chat(&format!("m{k}"), "bob", 0), 10), Some(k));
    }
    assert_eq!(i.store("m1", chat("m1", "bob", 0), 10), None);
    assert!(i.mark_delivered("m2"));
    assert!(!i.mark_delivered("m2"));
    assert_eq!(i.pending_count(), 2);
    let (packets, latest) = i.replay(0);
    assert_eq!(packets.len(), 2);
    assert_eq!(latest, 3);
    assert_eq!(i.replay(3).1, 3);
    let h = i.build_handoff("bob");
    assert_eq!(h.chats.len(), 2);
    assert_eq!(h.next_seq, 3);
    assert!(i.mark_delivered("m1"));
    assert_eq!(i.pending.len(), 1);
}

#[test]
fn replay_stops_at_what_cannot_be_decoded() {
    let entry = |id: &str, seq: u64| Some(chat(id, "bob", seq));
    let inboxes = replay_decoded(vec![entry("m1", 1), entry("m2", 2), None, entry("m3", 3)]);
    let bob = inboxes.get("bob").unwrap();
    assert_eq!((bob.pending.len(), bob.next_seq), (2, 2));
    let whole = replay_decoded(vec![entry("m1", 1), entry("m2", 2)]);
    assert_eq!(whole.get("bob").unwrap().pending.len(), 2);
    assert!(replay_decoded(vec![None, entry("m1", 1)]).get("bob").is_none());
}

#[test]
fn torn_tail_is_tolerated() {
    let whole = Frame { ty: PacketType::ChatMessage, payload: b"m1".to_vec() };
    let mut bytes = encode_frame(&whole).unwrap();
    bytes.extend_from_slice(&[1u8, 0x20, 0, 0]);
    let frames = split_frames(&bytes);
    assert_eq!(frames, vec![whole]);
    let decoded = frames.iter().map(|_| Some(chat("m1", "bob", 1))).collect();
    let inboxes = replay_decoded(decoded);
    assert_eq!(inboxes.get("bob").map(|i| i.pending.len()), Some(1));
}
