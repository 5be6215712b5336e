use bytes::{BufMut, BytesMut};
use lane_switchboards::messenger::codec::{
    split_frames, Frame, FrameCodec, Packet, PacketType, DEFAULT_MAX_FRAME, HEADER_LEN,
    PROTOCOL_VERSION,
};
use lane_switchboards::messenger::error::MessengerError;
use lane_switchboards::messenger::wire::{Ping, Pong};
use lane_switchboards::messenger::ws::{decode_frame, encode_frame};

fn ping(seq: u8) -> Frame {
    Frame { ty: PacketType::Ping, payload: vec![0x08, seq] }
}

#[test]
fn partial_frame_returns_none() {
    let mut codec = FrameCodec::default();
    let mut buf = BytesMut::new();
    codec.encode(&ping(1), &mut buf).unwrap();
    let full = buf.clone();
    for cut in 0..full.len() {
        let mut partial = BytesMut::from(&full[..cut]);
        assert!(codec.decode(&mut partial).unwrap().is_none(), "cut at {cut}");
    }
}

#[test]
fn unknown_packet_type_errors() {
    let mut codec = FrameCodec::default();
    let mut buf = BytesMut::from(&[PROTOCOL_VERSION, 0xEE, 0, 0, 0, 0][..]);
    assert!(matches!(codec.decode(&mut buf), Err(MessengerError::UnknownPacketType(0xEE))));
}

#[test]
fn wrong_version_errors() {
    let mut codec = FrameCodec::default();
    let mut buf = BytesMut::from(&[9u8, 0x03, 0, 0, 0, 0][..]);
    assert!(matches!(codec.decode(&mut buf), Err(MessengerError::UnsupportedVersion(9))));
}

#[test]
fn oversized_frame_rejected_before_buffering() {
    let mut codec = FrameCodec::with_max_frame(16);
    let mut header = BytesMut::from(&[PROTOCOL_VERSION, 0x20][..]);
    header.put_u32(1_000_000);
    assert!(matches!(
        codec.decode(&mut header),
        Err(MessengerError::FrameTooLarge { size: 1_000_000, max: 16 })
    ));
}

#[test]
fn pipelined_frames_decode_in_order() {
    let mut codec = FrameCodec::default();
    let mut buf = BytesMut::new();
    for seq in 0..5u8 {
        codec.encode(&ping(seq), &mut buf).unwrap();
    }
    for seq in 0..5u8 {
        let f = codec.decode(&mut buf).unwrap().unwrap();
        assert_eq!(f, ping(seq));
    }
    assert!(codec.decode(&mut buf).unwrap().is_none());
}

#[test]
fn encode_decode_round_trip() {
    let f = ping(42);
    let bytes = encode_frame(&f).unwrap();
    assert_eq!(bytes, vec![1, 0x03, 0, 0, 0, 2, 0x08, 42]);
    let decoded = decode_frame(&bytes).unwrap();
    assert_eq!(decoded, f);
}

#[test]
fn every_identifier_round_trips_through_a_frame() {
    let mut known = 0;
    for id in 0..=255u8 {
        match PacketType::try_from(id) {
            Ok(ty) => {
                known += 1;
                assert_eq!(ty.wire_id(), id);
                let f = Frame { ty, payload: vec![id; 300] };
                let bytes = encode_frame(&f).unwrap();
                assert_eq!(bytes.len(), HEADER_LEN + 300);
                assert_eq!(decode_frame(&bytes).unwrap(), f);
            }
            Err(e) => assert_eq!(e, MessengerError::UnknownPacketType(id)),
        }
    }
    assert_eq!(known, 31);
}

#[test]
fn oversized_payload_is_not_encoded() {
    let f = Frame { ty: PacketType::MediaChunk, payload: vec![0; DEFAULT_MAX_FRAME + 1] };
    assert!(matches!(
        encode_frame(&f),
        Err(MessengerError::FrameTooLarge { size, max }) if size == max + 1
    ));
    let mut buf = BytesMut::new();
    assert!(FrameCodec::with_max_frame(3).encode(
        &Frame { ty: PacketType::Ping, payload: vec![0; 4] },
        &mut buf
    ).is_err());
    assert!(buf.is_empty());
}

#[test]
fn short_and_incomplete_messages() {
    assert_eq!(
        decode_frame(&[1, 3]),
        Err(MessengerError::Protocol("frame too short".to_string()))
    );
    assert_eq!(
        decode_frame(&[1, 3, 0, 0, 0, 9, 1]),
        Err(MessengerError::Protocol("incomplete frame".to_string()))
    );
    assert_eq!(decode_frame(&[2, 3, 0, 0, 0, 0]), Err(MessengerError::UnsupportedVersion(2)));
}

#[test]
fn torn_tail_and_garbage_end_the_split() {
    let mut bytes = encode_frame(&ping(1)).unwrap();
    bytes.extend_from_slice(&encode_frame(&ping(2)).unwrap());
    let whole = bytes.len();
    bytes.extend_from_slice(&[1u8, 0x20, 0, 0]);
    assert_eq!(split_frames(&bytes), vec![ping(1), ping(2)]);
    bytes.truncate(whole - 1);
    assert_eq!(split_frames(&bytes), vec![ping(1)]);
    assert_eq!(split_frames(&[0xff; 20]), vec![]);
}

#[test]
fn error_texts() {
    assert_eq!(
        MessengerError::UnknownPacketType(0xe).to_string(),
        "unknown packet type: 0x0e"
    );
    assert_eq!(
        MessengerError::FrameTooLarge { size: 10, max: 7 }.to_string(),
        "frame too large: 10 bytes (max 7)"
    );
    assert_eq!(MessengerError::Timeout("login").to_string(), "timeout waiting for login");
    assert_eq!(MessengerError::AuthFailed.to_string(), "authentication failed");
    assert_eq!(MessengerError::Closed.to_string(), "connection closed");
    assert_eq!(
        MessengerError::Media("x".to_string()).to_string(),
        "media transfer failed: x"
    );
}

#[test]
fn packet_knows_its_type() {
    let p = Packet::Ping(Ping { seq: 1 });
    assert_eq!(p.packet_type(), PacketType::Ping);
    assert_eq!(p.packet_type().name(), "Ping");
    assert_eq!(p.clone(), p);
}

#[test]
fn type_tells_the_variant() {
    let a = Packet::Ping(Ping { seq: 1 });
    let b = Packet::Ping(Ping { seq: 2 });
    let c = Packet::Pong(Pong { seq: 1 });
    assert_eq!(a.packet_type(), b.packet_type());
    assert_ne!(a.packet_type(), c.packet_type());
    for p in [a, b, c] {
        let id = p.packet_type().wire_id();
        assert_eq!(PacketType::try_from(id).unwrap(), p.packet_type());
    }
}

#[test]
fn later_packets_have_numbers_too() {
    for (ty, id) in [
        (PacketType::SubscribePresence, 0x11),
        (PacketType::GroupAckSummary, 0x42),
        (PacketType::PeerMediaReady, 0x57),
        (PacketType::RemoveDeviceKeys, 0x63),
    ] {
        assert_eq!(ty.wire_id(), id);
        assert_eq!(PacketType::try_from(id), Ok(ty));
    }
}
