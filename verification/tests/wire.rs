use ipfusch::error::IpfuschError;
use ipfusch::protocol::{
    control_body_len, decode_control, decode_control_datagram, encode_control,
    encode_control_datagram, frame_control, hash_token, read_control_frame, same_digest,
    start_message, take_control_frame, token_matches, unknown_variant, write_control_frame,
    ControlMessage, DataHeader, DATA_HEADER_SIZE, DATA_MAGIC, PROTOCOL_VERSION,
};

#[test]
fn data_header_roundtrip() {
    let header = DataHeader::new(7, 2, 99, 123_456, 1400);
    let encoded = header.encode();
    let decoded = DataHeader::decode(&encoded).expect("decode must succeed");
    assert_eq!(header, decoded);
}

#[test]
fn control_roundtrip() {
    let msg = ControlMessage::Hello {
        version: PROTOCOL_VERSION,
        client_name: "ipfusch-test".to_string(),
        token_hash: Some(hash_token("abc")),
        capabilities: vec!["tcp".to_string(), "udp".to_string()],
    };
    let mut bytes = Vec::new();
    write_control_frame(&mut bytes, &msg).expect("serialize");
    let got = read_control_frame(bytes.as_slice()).expect("deserialize");
    match got {
        ControlMessage::Hello { client_name, .. } => assert_eq!(client_name, "ipfusch-test"),
        _ => panic!("unexpected message type"),
    }
}

#[test]
fn header_bytes_are_little_endian() {
    let header = DataHeader {
        magic: DATA_MAGIC,
        version: 1,
        flags: 0x0203,
        session_id: 0x0405_0607_0809_0a0b,
        stream_id: 0x0c0d_0e0f,
        seq: 0x1011_1213_1415_1617,
        send_mono_ns: 0x1819_1a1b_1c1d_1e1f,
        payload_len: 0x2021_2223,
    };
    let bytes = header.encode();
    let mut want: Vec<u8> = Vec::new();
    want.extend_from_slice(&DATA_MAGIC.to_le_bytes());
    want.extend_from_slice(&1u16.to_le_bytes());
    want.extend_from_slice(&0x0203u16.to_le_bytes());
    want.extend_from_slice(&0x0405_0607_0809_0a0bu64.to_le_bytes());
    want.extend_from_slice(&0x0c0d_0e0fu32.to_le_bytes());
    want.extend_from_slice(&0x1011_1213_1415_1617u64.to_le_bytes());
    want.extend_from_slice(&0x1819_1a1b_1c1d_1e1fu64.to_le_bytes());
    want.extend_from_slice(&0x2021_2223u32.to_le_bytes());
    assert_eq!(bytes.to_vec(), want);
    assert_eq!(DataHeader::decode(&bytes).unwrap().encode(), bytes);
}

#[test]
fn wrong_headers_are_refused() {
    let good = DataHeader::new(1, 1, 1, 1, 1).encode();
    assert!(matches!(
        DataHeader::decode(&good[..DATA_HEADER_SIZE - 1]),
        Err(IpfuschError::InvalidPacketHeader)
    ));
    let mut magic = good;
    magic[0] ^= 1;
    assert!(matches!(DataHeader::decode(&magic), Err(IpfuschError::InvalidPacketHeader)));
    let mut version = good;
    version[4] = 2;
    match DataHeader::decode(&version) {
        Err(e) => assert_eq!(e.to_string(), "protocol mismatch: expected 1, got 2"),
        Ok(h) => panic!("{h:?}"),
    }
}

#[test]
fn every_message_survives_a_frame() {
    let mut bytes = Vec::new();
    write_control_frame(
        &mut bytes,
        &ControlMessage::StartSession {
            session_id: u64::MAX,
            transport: "quic \u{1f980}".to_string(),
            streams: 65535,
            duration_ms: 10_000,
            payload_bytes: 262_144,
            interval_ms: 100,
            rate_bps: Some(3),
        },
    )
    .unwrap();
    match read_control_frame(&bytes).unwrap() {
        ControlMessage::StartSession {
            session_id,
            transport,
            streams,
            duration_ms,
            payload_bytes,
            interval_ms,
            rate_bps,
        } => {
            assert_eq!(session_id, u64::MAX);
            assert_eq!(transport, "quic \u{1f980}");
            assert_eq!(streams, 65535);
            assert_eq!(duration_ms, 10_000);
            assert_eq!(payload_bytes, 262_144);
            assert_eq!(interval_ms, 100);
            assert_eq!(rate_bps, Some(3));
        }
        other => panic!("{other:?}"),
    }
    let first = bytes.len();
    let stop = ControlMessage::StopSession { session_id: 5 };
    write_control_frame(&mut bytes, &stop).unwrap();
    assert!(matches!(
        read_control_frame(&bytes[first..]).unwrap(),
        ControlMessage::StopSession { session_id: 5 }
    ));
    let ack = ControlMessage::Ack {
        session_id: 6,
        accepted: false,
        reason: Some("no".to_string()),
    };
    match decode_control(&encode_control(&ack).unwrap()).unwrap() {
        ControlMessage::Ack { session_id, accepted, reason } => {
            assert_eq!((session_id, accepted, reason.as_deref()), (6, false, Some("no")));
        }
        other => panic!("{other:?}"),
    }
}

#[test]
fn stop_message_is_written_byte_for_byte() {
    let body = encode_control(&ControlMessage::StopSession { session_id: 0x0102 }).unwrap();
    assert_eq!(body, vec![3, 0, 0, 0, 2, 1, 0, 0, 0, 0, 0, 0]);
    let frame = frame_control(&body).unwrap();
    assert_eq!(frame[..4].to_vec(), vec![12, 0, 0, 0]);
    assert_eq!(frame[4..].to_vec(), body);
    assert_eq!(control_body_len(&frame[..4]), 12);
    assert_eq!(control_body_len(&[1, 2, 3, 4]), 0x0403_0201);
    let ack = encode_control(&ControlMessage::Ack {
        session_id: 1,
        accepted: true,
        reason: None,
    })
    .unwrap();
    assert_eq!(ack, vec![2, 0, 0, 0, 1, 0, 0, 0, 0, 0, 0, 0, 1, 0]);
}

#[test]
fn frames_end_where_the_next_one_begins() {
    let mut bytes = Vec::new();
    write_control_frame(&mut bytes, &ControlMessage::StopSession { session_id: 8 }).unwrap();
    let first = bytes.len();
    write_control_frame(&mut bytes, &ControlMessage::StopSession { session_id: 9 }).unwrap();
    bytes.push(77);
    let (message, taken) = take_control_frame(&bytes).unwrap();
    assert!(matches!(message, ControlMessage::StopSession { session_id: 8 }));
    assert_eq!((taken, first), (16, 16));
    let (message, taken) = take_control_frame(&bytes[first..]).unwrap();
    assert!(matches!(message, ControlMessage::StopSession { session_id: 9 }));
    assert_eq!(bytes[first + taken..].to_vec(), vec![77]);
    // What is left over in the body of a frame is taken with it.
    let body = encode_control(&ControlMessage::StopSession { session_id: 8 }).unwrap();
    let long = frame_control(&[body, vec![1, 2]].concat()).unwrap();
    assert_eq!(take_control_frame(&long).unwrap().1, 18);
    for n in 0..first {
        match take_control_frame(&bytes[..n]) {
            Err(e) => assert_eq!(e.to_string(), "io error: failed to fill whole buffer"),
            Ok(m) => panic!("{m:?}"),
        }
    }
}

#[test]
fn short_frames_are_refused() {
    let mut bytes = Vec::new();
    write_control_frame(&mut bytes, &ControlMessage::StopSession { session_id: 1 }).unwrap();
    for n in [0, 3, 4, bytes.len() - 1] {
        match read_control_frame(&bytes[..n]) {
            Err(e) => assert_eq!(e.to_string(), "io error: failed to fill whole buffer"),
            Ok(m) => panic!("{m:?}"),
        }
    }
}

#[test]
fn unreadable_messages_say_why() {
    fn why(body: &[u8]) -> String {
        decode_control(body).unwrap_err().to_string()
    }
    let end = "serialization error: io error: unexpected end of file";
    assert_eq!(why(&[]), end);
    assert_eq!(why(&[0, 0, 0]), end);
    assert_eq!(why(&[0, 0, 0, 0, 1]), end);
    assert_eq!(why(&[1, 0, 0, 0, 1]), end);
    assert_eq!(why(&[3, 0, 0, 0, 1]), end);
    // An answer that is neither yes nor no.
    let ack = [2, 0, 0, 0, 1, 0, 0, 0, 0, 0, 0, 0, 7, 0];
    assert_eq!(
        why(&ack),
        "serialization error: invalid u8 while decoding bool, expected 0 or 1, found 7"
    );
    // A name that is no text, and one that is longer than the rest.
    let name = [0, 0, 0, 0, 1, 0, 1, 0, 0, 0, 0, 0, 0, 0, 0xff];
    assert_eq!(
        why(&name),
        "serialization error: string is not valid utf8: \
            invalid utf-8 sequence of 1 bytes from index 0"
    );
    let long = [0, 0, 0, 0, 1, 0, 9, 0, 0, 0, 0, 0, 0, 0, 0x61];
    assert_eq!(why(&long), "serialization error: io error: ");
    let mut frame = vec![15, 0, 0, 0];
    frame.extend_from_slice(&name);
    assert_eq!(read_control_frame(&frame).unwrap_err().to_string(), why(&name));
    assert_eq!(take_control_frame(&frame).unwrap_err().to_string(), why(&name));
}

#[test]
fn unknown_messages_are_refused() {
    match decode_control(&[9, 0, 0, 0]) {
        Err(e) => assert_eq!(
            e.to_string(),
            "serialization error: invalid value: integer `9`, expected variant index 0 <= i < 4"
        ),
        Ok(m) => panic!("{m:?}"),
    }
    let unknown = decode_control(&[9, 0, 0, 0]).unwrap_err();
    assert_eq!(unknown_variant(9).to_string(), unknown.to_string());
    assert!(matches!(decode_control(&[]), Err(IpfuschError::Serialization(_))));
    assert!(matches!(decode_control(&[3, 0, 0, 0, 1]), Err(IpfuschError::Serialization(_))));
}

#[test]
fn start_is_put_together_from_its_values() {
    match start_message(1, "tcp".to_string(), 2, 3, 4, 5, None) {
        Ok(ControlMessage::StartSession { payload_bytes, .. }) => assert_eq!(payload_bytes, 4),
        other => panic!("{other:?}"),
    }
}

#[test]
fn datagrams_carry_control_messages() {
    let msg = ControlMessage::StopSession { session_id: 77 };
    let datagram = encode_control_datagram(&msg).unwrap();
    assert_eq!(datagram[..12].to_vec(), b"IPFUSCH_CTRL".to_vec());
    assert!(matches!(
        decode_control_datagram(&datagram),
        Some(ControlMessage::StopSession { session_id: 77 })
    ));
    assert!(decode_control_datagram(&datagram[1..]).is_none());
    assert!(decode_control_datagram(&datagram[..11]).is_none());
    assert!(decode_control_datagram(&datagram[..15]).is_none());
    assert!(decode_control_datagram(&DataHeader::new(1, 2, 3, 4, 5).encode()).is_none());
}

#[test]
fn token_digest_is_sha256() {
    let want: [u8; 32] = [
        0xba, 0x78, 0x16, 0xbf, 0x8f, 0x01, 0xcf, 0xea, 0x41, 0x41, 0x40, 0xde, 0x5d, 0xae, 0x22,
        0x23, 0xb0, 0x03, 0x61, 0xa3, 0x96, 0x17, 0x7a, 0x9c, 0xb4, 0x10, 0xff, 0x61, 0xf2, 0x00,
        0x15, 0xad,
    ];
    assert_eq!(hash_token("abc"), want);
    assert!(same_digest(&want, &hash_token("abc")));
    assert!(!same_digest(&want, &hash_token("abd")));
    let mut last = want;
    last[31] ^= 0x80;
    assert!(!same_digest(&want, &last));
}

#[test]
fn tokens_admit() {
    assert!(token_matches(None, None));
    assert!(token_matches(None, Some([0; 32])));
    assert!(!token_matches(Some("abc"), None));
    assert!(token_matches(Some("abc"), Some(hash_token("abc"))));
    assert!(!token_matches(Some("abc"), Some(hash_token("abd"))));
}

#[test]
fn errors_say_what_went_wrong() {
    assert_eq!(IpfuschError::InvalidPacketHeader.to_string(), "invalid packet header");
    assert_eq!(IpfuschError::AuthRejected.to_string(), "auth token rejected");
    assert_eq!(IpfuschError::Io("gone".to_string()).to_string(), "io error: gone");
    assert_eq!(
        IpfuschError::Serialization("odd".to_string()).to_string(),
        "serialization error: odd"
    );
    assert_eq!(IpfuschError::Timeout.to_string(), "timeout waiting for packet response");
}

#[test]
fn greetings_are_written_byte_for_byte() {
    let hello = ControlMessage::Hello {
        version: 0x0102,
        client_name: "h\u{e9}".to_string(),
        token_hash: Some([7; 32]),
        capabilities: vec!["a".to_string(), String::new()],
    };
    let mut want: Vec<u8> = vec![0, 0, 0, 0, 2, 1, 3, 0, 0, 0, 0, 0, 0, 0, b'h', 0xc3, 0xa9, 1];
    want.extend_from_slice(&[7; 32]);
    want.extend_from_slice(&[2, 0, 0, 0, 0, 0, 0, 0]);
    want.extend_from_slice(&[1, 0, 0, 0, 0, 0, 0, 0, b'a']);
    want.extend_from_slice(&[0, 0, 0, 0, 0, 0, 0, 0]);
    assert_eq!(encode_control(&hello).unwrap(), want);
    let plain = ControlMessage::Hello {
        version: 1,
        client_name: String::new(),
        token_hash: None,
        capabilities: Vec::new(),
    };
    let mut want: Vec<u8> = vec![0, 0, 0, 0, 1, 0];
    want.extend_from_slice(&[0; 8]);
    want.push(0);
    want.extend_from_slice(&[0; 8]);
    assert_eq!(encode_control(&plain).unwrap(), want);
}

#[test]
fn requests_are_written_byte_for_byte() {
    let start = ControlMessage::StartSession {
        session_id: 1,
        transport: "tcp".to_string(),
        streams: 2,
        duration_ms: 3,
        payload_bytes: 4,
        interval_ms: 5,
        rate_bps: Some(6),
    };
    let mut want: Vec<u8> = vec![1, 0, 0, 0];
    want.extend_from_slice(&1u64.to_le_bytes());
    want.extend_from_slice(&3u64.to_le_bytes());
    want.extend_from_slice(b"tcp");
    want.extend_from_slice(&2u16.to_le_bytes());
    want.extend_from_slice(&3u64.to_le_bytes());
    want.extend_from_slice(&4u64.to_le_bytes());
    want.extend_from_slice(&5u64.to_le_bytes());
    want.push(1);
    want.extend_from_slice(&6u64.to_le_bytes());
    assert_eq!(encode_control(&start).unwrap(), want);
    assert!(decode_control(&want).is_ok());
    let mut longer = want.clone();
    longer.push(99);
    assert!(decode_control(&longer).is_ok());
    assert!(decode_control(&want[..want.len() - 1]).is_err());
    let refused = ControlMessage::Ack {
        session_id: 0,
        accepted: false,
        reason: Some("n".to_string()),
    };
    let mut want: Vec<u8> = vec![2, 0, 0, 0];
    want.extend_from_slice(&[0; 8]);
    want.extend_from_slice(&[0, 1, 1, 0, 0, 0, 0, 0, 0, 0, b'n']);
    assert_eq!(encode_control(&refused).unwrap(), want);
    let mut odd = want.clone();
    odd[12] = 2;
    assert!(decode_control(&odd).is_err());
    let mut broken = want.clone();
    *broken.last_mut().unwrap() = 0xff;
    assert!(decode_control(&broken).is_err());
}
