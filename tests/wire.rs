use tunnelto::codec::{ControlPacket, DecodeError};
use tunnelto::gossip::{decode_answer, encode_answer, PeerCommand, PeerDecodeError};
use tunnelto::ident::{StreamId, ID_LEN};

fn sid(b: u8) -> StreamId {
    StreamId { bytes: vec![b; ID_LEN] }
}

#[test]
fn init_frame_layout() {
    let bytes = ControlPacket::Init(sid(7)).serialize();
    let mut expected = vec![0x01u8];
    expected.extend_from_slice(&[7u8; 16]);
    assert_eq!(bytes, expected);
}

#[test]
fn data_frame_layout() {
    let payload = b"HTTP/1.1 200 OK\r\n\r\npong".to_vec();
    let bytes = ControlPacket::Data(sid(1), payload.clone()).serialize();
    assert_eq!(bytes[0], 0x02);
    assert_eq!(&bytes[1..17], &[1u8; 16]);
    assert_eq!(&bytes[17..21], &[0, 0, 0, payload.len() as u8]);
    assert_eq!(&bytes[21..], &payload[..]);
}

#[test]
fn ping_frame_is_one_byte() {
    assert_eq!(ControlPacket::Ping.serialize(), vec![0x05u8]);
}

#[test]
fn every_tag_round_trips() {
    let packets = vec![
        ControlPacket::Init(sid(1)),
        ControlPacket::Data(sid(2), b"GET /ping HTTP/1.1\r\nHost: x\r\n\r\n".to_vec()),
        ControlPacket::Data(sid(2), vec![]),
        ControlPacket::Refused(sid(3)),
        ControlPacket::End(sid(4)),
        ControlPacket::Ping,
    ];
    for p in packets {
        let bytes = p.serialize();
        let back = ControlPacket::deserialize(&bytes).unwrap();
        assert_eq!(back.serialize(), bytes);
        match (&p, &back) {
            (ControlPacket::Init(a), ControlPacket::Init(b)) => assert_eq!(a.bytes, b.bytes),
            (ControlPacket::Data(a, x), ControlPacket::Data(b, y)) => {
                assert_eq!(a.bytes, b.bytes);
                assert_eq!(x, y);
            }
            (ControlPacket::Refused(a), ControlPacket::Refused(b)) => assert_eq!(a.bytes, b.bytes),
            (ControlPacket::End(a), ControlPacket::End(b)) => assert_eq!(a.bytes, b.bytes),
            (ControlPacket::Ping, ControlPacket::Ping) => {}
            _ => panic!("packet kind changed"),
        }
    }
}

#[test]
fn empty_frame_is_refused() {
    assert!(matches!(ControlPacket::deserialize(&[]), Err(DecodeError::Empty)));
}

#[test]
fn unknown_tag_is_refused() {
    assert!(matches!(ControlPacket::deserialize(&[9]), Err(DecodeError::UnknownTag(9))));
    assert!(matches!(ControlPacket::deserialize(&[0, 1, 2]), Err(DecodeError::UnknownTag(0))));
}

#[test]
fn wrong_lengths_are_refused() {
    assert!(matches!(ControlPacket::deserialize(&[5, 0]), Err(DecodeError::BadLength)));
    assert!(matches!(ControlPacket::deserialize(&[1, 2, 3]), Err(DecodeError::BadLength)));
    let mut data = ControlPacket::Data(sid(1), vec![1, 2, 3]).serialize();
    data.push(4);
    assert!(matches!(ControlPacket::deserialize(&data), Err(DecodeError::BadLength)));
    data.truncate(19);
    assert!(matches!(ControlPacket::deserialize(&data), Err(DecodeError::BadLength)));
}

#[test]
fn stream_id_from_bytes() {
    assert!(StreamId::from_bytes(&[1u8; 16]).is_some());
    assert!(StreamId::from_bytes(&[1u8; 15]).is_none());
    let a = StreamId::generate();
    let b = StreamId::generate();
    assert_eq!(a.bytes.len(), 16);
    assert!(a.same(&a.duplicate()));
    assert!(!a.same(&b));
}

#[test]
fn who_has_frame_layout() {
    let bytes = PeerCommand::WhoHas("alpha".to_string()).serialize();
    assert_eq!(bytes, vec![1, 0, 5, b'a', b'l', b'p', b'h', b'a']);
}

#[test]
fn forward_stream_round_trips() {
    let bytes = PeerCommand::ForwardStream("alpha".to_string()).serialize();
    assert_eq!(bytes[0], 2);
    match PeerCommand::deserialize(&bytes) {
        Ok(PeerCommand::ForwardStream(s)) => assert_eq!(s, "alpha"),
        other => panic!("unexpected {:?}", other),
    }
}

#[test]
fn peer_command_errors() {
    assert!(matches!(PeerCommand::deserialize(&[1, 0]), Err(PeerDecodeError::Truncated)));
    assert!(matches!(PeerCommand::deserialize(&[7, 0, 0]), Err(PeerDecodeError::UnknownTag(7))));
    assert!(matches!(PeerCommand::deserialize(&[1, 0, 2, b'a']), Err(PeerDecodeError::BadLength)));
    assert!(matches!(PeerCommand::deserialize(&[1, 0, 1, 0xff]), Err(PeerDecodeError::BadText)));
}

#[test]
fn who_has_answers() {
    assert_eq!(encode_answer(true), 1);
    assert_eq!(encode_answer(false), 0);
    assert_eq!(decode_answer(1), Some(true));
    assert_eq!(decode_answer(0), Some(false));
    assert_eq!(decode_answer(2), None);
}
