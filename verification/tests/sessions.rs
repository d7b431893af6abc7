use ipfusch::certs::{load_certs, load_private_key, some_certificates, some_key, PemError};
use ipfusch::client::{
    client_bind, hello_message, start_session, validate_ack, StreamClient,
};
use ipfusch::config::{Address, ServerTransport, Transport};
use ipfusch::error::IpfuschError;
use ipfusch::net::StreamRunSpec;
use ipfusch::protocol::{
    decode_control_datagram, encode_control_datagram, hash_token, ControlMessage, DataHeader,
    DATA_HEADER_SIZE,
};
use ipfusch::server::{
    ack_message, listeners, make_room, negotiate, refusal, EchoStep, HeaderRead, PayloadRead,
    ServerSession, UdpServer, Verdict,
};

fn spec(token: Option<&str>) -> StreamRunSpec {
    StreamRunSpec {
        session_id: 11,
        stream_id: 3,
        host: Address::V4 { ip: 0x7f00_0001, port: 5201 },
        transport: Transport::Quic,
        duration_ns: 2_000_000_000,
        warmup_ns: 1_000_000_000,
        payload_bytes: 3,
        rate_bps: Some(24_000),
        token: token.map(|t| t.to_string()),
        timeout_ns: 750_000_000,
    }
}

fn peer(port: u16) -> Address {
    Address::V4 { ip: 0x0a00_0001, port }
}

#[test]
fn clients_greet_servers() {
    match hello_message(&spec(Some("abc"))) {
        ControlMessage::Hello { version, client_name, token_hash, capabilities } => {
            assert_eq!(version, 1);
            assert_eq!(client_name, "ipfusch-stream-3");
            assert_eq!(token_hash, Some(hash_token("abc")));
            assert_eq!(capabilities, vec!["quic".to_string(), "multistream".to_string()]);
        }
        other => panic!("{other:?}"),
    }
    assert!(matches!(hello_message(&spec(None)), ControlMessage::Hello { token_hash: None, .. }));
    match start_session(&spec(None)) {
        ControlMessage::StartSession {
            session_id,
            transport,
            streams,
            duration_ms,
            payload_bytes,
            interval_ms,
            rate_bps,
        } => {
            assert_eq!((session_id, streams, duration_ms), (11, 1, 2000));
            assert_eq!((payload_bytes, interval_ms, rate_bps), (3, 100, Some(24_000)));
            assert_eq!(transport, "quic");
        }
        other => panic!("{other:?}"),
    }
    assert_eq!(client_bind(peer(1)), "0.0.0.0:0");
    assert_eq!(client_bind(Address::V6 { ip: 1, port: 1, flowinfo: 0, scope_id: 0 }), "[::]:0");
}

#[test]
fn clients_take_answers() {
    let ack = |accepted: bool, reason: Option<&str>| ControlMessage::Ack {
        session_id: 0,
        accepted,
        reason: reason.map(|r| r.to_string()),
    };
    assert_eq!(validate_ack(ack(true, None)), Ok(()));
    assert_eq!(validate_ack(ack(true, Some("odd"))), Ok(()));
    assert_eq!(validate_ack(ack(false, Some("full"))), Err("full".to_string()));
    assert_eq!(validate_ack(ack(false, None)), Err("session rejected".to_string()));
    assert_eq!(
        validate_ack(ControlMessage::StopSession { session_id: 1 }),
        Err("unexpected control response".to_string())
    );
}

#[test]
fn streams_send_and_are_answered() {
    let mut client = StreamClient::new(spec(None), 1_000, 1_500);
    assert!(client.running(1_000));
    assert!(client.running(3_000_000_999));
    assert!(!client.running(3_000_001_000));
    assert_eq!(client.pace(1_500), None);
    assert_eq!(client.pace(2_000), Some(1_001_500));
    assert_eq!(client.pace(2_001_500), None);
    let packet = client.next_packet(77);
    assert_eq!(packet.len(), DATA_HEADER_SIZE + 3);
    assert_eq!(packet[DATA_HEADER_SIZE..].to_vec(), vec![0, 0, 0]);
    let header = DataHeader::decode(&packet[..DATA_HEADER_SIZE]).unwrap();
    assert_eq!(header, DataHeader::new(11, 3, 1, 77, 3));
    let event = client.event(77, 1_000_000_999, Some(&packet), 99).unwrap();
    assert_eq!((event.stream_id, event.seq, event.bytes), (3, 1, 3));
    assert_eq!((event.send_mono_ns, event.recv_mono_ns), (77, Some(99)));
    assert!(!event.measured);
    let event = client.event(77, 1_000_001_000, None, 99).unwrap();
    assert_eq!(event.recv_mono_ns, None);
    assert!(event.measured);
    let short = client.event(77, 0, Some(&packet[..39]), 99).unwrap();
    assert_eq!(short.recv_mono_ns, None);
    let second = client.next_packet(78);
    let late = client.event(78, 0, Some(&packet), 99).unwrap();
    assert_eq!((late.seq, late.recv_mono_ns), (2, None));
    assert_eq!(client.event(78, 0, Some(&second), 99).unwrap().recv_mono_ns, Some(99));
    let junk = [0u8; DATA_HEADER_SIZE];
    assert!(matches!(
        client.event(78, 0, Some(&junk), 99),
        Err(IpfuschError::InvalidPacketHeader)
    ));
}

#[test]
fn streams_without_a_rate_do_not_wait() {
    let mut unpaced = spec(None);
    unpaced.rate_bps = None;
    let mut client = StreamClient::new(unpaced, 0, 500);
    assert_eq!(client.pace(0), None);
    assert_eq!(client.pace(0), None);
}

#[test]
fn servers_listen_where_asked() {
    let one = listeners(peer(5201), ServerTransport::Udp);
    assert_eq!((one.tcp, one.udp, one.quic), (None, Some(peer(5201)), None));
    assert_eq!(listeners(peer(1), ServerTransport::Tcp).tcp, Some(peer(1)));
    assert_eq!(listeners(peer(1), ServerTransport::Quic).quic, Some(peer(1)));
    let all = listeners(peer(5201), ServerTransport::All);
    assert_eq!((all.tcp, all.udp, all.quic), (Some(peer(5201)), Some(peer(5202)), Some(peer(5203))));
    let last = listeners(peer(65534), ServerTransport::All);
    assert_eq!((last.udp, last.quic), (Some(peer(65535)), Some(peer(65535))));
    let six = Address::V6 { ip: 9, port: 10, flowinfo: 4, scope_id: 5 };
    let all = listeners(six, ServerTransport::All);
    assert_eq!(all.tcp, Some(six));
    assert_eq!(all.udp, Some(Address::V6 { ip: 9, port: 11, flowinfo: 0, scope_id: 0 }));
}

#[test]
fn servers_judge_requests() {
    let hello = hello_message(&spec(Some("abc")));
    let start = start_session(&spec(Some("abc")));
    let good = negotiate(Some("abc"), &hello, &start);
    assert_eq!((good.session_id, good.accepted, good.reason.clone()), (11, true, None));
    assert_eq!(refusal(&good), None);
    assert_eq!(validate_ack(ack_message(&good)), Ok(()));
    assert!(negotiate(None, &hello, &start).accepted);
    let wrong = negotiate(Some("xyz"), &hello, &start);
    assert_eq!((wrong.session_id, wrong.accepted), (11, false));
    assert_eq!(refusal(&wrong), Some("token rejected".to_string()));
    assert_eq!(validate_ack(ack_message(&wrong)), Err("token rejected".to_string()));
    let old = ControlMessage::Hello {
        version: 7,
        client_name: String::new(),
        token_hash: None,
        capabilities: Vec::new(),
    };
    let verdict = negotiate(Some("abc"), &old, &start);
    assert_eq!(verdict.reason, Some("protocol version mismatch: 7".to_string()));
    assert_eq!(verdict.session_id, 11);
    let verdict = negotiate(None, &start, &hello);
    assert_eq!(verdict.reason, Some("invalid control flow".to_string()));
    assert_eq!(verdict.session_id, 0);
    let silent = Verdict { session_id: 1, accepted: false, reason: None };
    assert_eq!(refusal(&silent), Some("session rejected".to_string()));
}

#[test]
fn server_sessions_follow_the_protocol() {
    let client = spec(Some("abc"));
    let mut session = ServerSession::new(Some("abc".to_string()));
    assert!(session.on_control(hello_message(&client)).is_none());
    let verdict = session.on_control(start_session(&client)).unwrap();
    assert!(verdict.accepted);
    assert_eq!(verdict.session_id, 11);
    let mut stream = StreamClient::new(client, 0, 0);
    let packet = stream.next_packet(1);
    assert_eq!(session.on_header(&packet[..DATA_HEADER_SIZE]).unwrap(), 3);
    assert!(session.on_header(&packet[1..DATA_HEADER_SIZE + 1]).is_err());
    let mut turned_away = ServerSession::new(Some("abc".to_string()));
    turned_away.on_control(hello_message(&spec(None)));
    let verdict = turned_away.on_control(start_session(&spec(None))).unwrap();
    assert_eq!(verdict.reason, Some("token rejected".to_string()));
}

/// A session whose client is let in.
fn open_session() -> ServerSession {
    let client = spec(Some("abc"));
    let mut session = ServerSession::new(Some("abc".to_string()));
    session.on_control(hello_message(&client));
    assert!(session.on_control(start_session(&client)).unwrap().accepted);
    session
}

/// What a session sends back on a line that holds these bytes and then ends, and how it ends.
fn serve(mut line: &[u8]) -> (Vec<u8>, Result<(), String>) {
    fn header(line: &mut &[u8]) -> HeaderRead {
        match line.split_first_chunk::<DATA_HEADER_SIZE>() {
            Some((header, rest)) => {
                *line = rest;
                HeaderRead::Full(*header)
            }
            None => HeaderRead::End,
        }
    }
    let mut session = open_session();
    let mut written = Vec::new();
    let mut step = session.on_header_read(header(&mut line));
    loop {
        step = match step {
            EchoStep::Echo(bytes) => {
                written.extend_from_slice(&bytes);
                session.on_header_read(header(&mut line))
            }
            EchoStep::TakePayload(len) => {
                if line.len() < len as usize {
                    session.on_payload_read(PayloadRead::Failed("early eof".to_string()))
                } else {
                    line = &line[len as usize..];
                    session.on_payload_read(PayloadRead::Full)
                }
            }
            EchoStep::Finish => return (written, Ok(())),
            EchoStep::Fail(e) => return (written, Err(e.to_string())),
        }
    }
}

#[test]
fn lines_are_echoed_by_their_headers() {
    let mut stream = StreamClient::new(spec(None), 0, 0);
    let mut line = Vec::new();
    let mut heads = Vec::new();
    for now in 1..4 {
        let packet = stream.next_packet(now);
        assert_eq!(packet.len(), DATA_HEADER_SIZE + 3);
        heads.extend_from_slice(&packet[..DATA_HEADER_SIZE]);
        line.extend_from_slice(&packet);
    }
    let empty = DataHeader::new(11, 3, 9, 9, 0).encode();
    heads.extend_from_slice(&empty);
    line.extend_from_slice(&empty);
    assert_eq!(serve(&[]), (Vec::new(), Ok(())));
    assert_eq!(serve(&line), (heads.clone(), Ok(())));
    for part in [1, DATA_HEADER_SIZE - 1] {
        let cut = [&line[..], &line[..part]].concat();
        assert_eq!(serve(&cut), (heads.clone(), Ok(())));
    }
    for part in [0, 2] {
        let cut = [&line[..], &line[..DATA_HEADER_SIZE + part]].concat();
        let failed = Err("io error: early eof".to_string());
        assert_eq!(serve(&cut), (heads.clone(), failed));
    }
    let bad = [&line[..], &[0u8; DATA_HEADER_SIZE], &line[..]].concat();
    assert_eq!(serve(&bad), (heads, Err("invalid packet header".to_string())));
}

#[test]
fn sessions_end_with_what_the_system_says() {
    let mut session = open_session();
    match session.on_header_read(HeaderRead::Failed("reset".to_string())) {
        EchoStep::Fail(e) => assert_eq!(e.to_string(), "io error: reset"),
        other => panic!("{other:?}"),
    }
}

#[test]
fn echoes_answer_the_packets_of_their_stream() {
    let mut stream = StreamClient::new(spec(None), 0, 0);
    let first = stream.next_packet(1);
    let (echo, outcome) = serve(&first);
    assert_eq!(outcome, Ok(()));
    assert_eq!(stream.event(1, 0, Some(&echo), 9).unwrap().recv_mono_ns, Some(9));
    let second = stream.next_packet(2);
    let (other, _) = serve(&second);
    assert_ne!(other, echo);
    assert_eq!(stream.event(2, 0, Some(&echo), 9).unwrap().recv_mono_ns, None);
}

#[test]
fn buffers_grow_and_never_shrink() {
    let mut buf = vec![7u8, 8];
    make_room(&mut buf, 1);
    assert_eq!(buf, vec![7, 8]);
    make_room(&mut buf, 4);
    assert_eq!(buf, vec![7, 8, 0, 0]);
}

#[test]
fn datagram_servers_let_clients_in() {
    let client = spec(Some("abc"));
    let mut server = UdpServer::new(Some("abc".to_string()));
    let mut stream = StreamClient::new(client.clone(), 0, 0);
    let packet = stream.next_packet(1);
    assert!(server.on_datagram(peer(1), &packet).unwrap().is_none());
    let greeting = encode_control_datagram(&hello_message(&client)).unwrap();
    let reply = server.on_datagram(peer(1), &greeting).unwrap().unwrap();
    let ack = decode_control_datagram(&reply).unwrap();
    assert!(matches!(ack, ControlMessage::Ack { session_id: 0, accepted: true, reason: None }));
    assert_eq!(validate_ack(ack), Ok(()));
    let echo = server.on_datagram(peer(1), &packet).unwrap().unwrap();
    assert_eq!(echo, packet[..DATA_HEADER_SIZE].to_vec());
    assert_eq!(stream.event(1, 0, Some(&echo), 9).unwrap().recv_mono_ns, Some(9));
    assert!(server.on_datagram(peer(2), &packet).unwrap().is_none());
    let six = Address::V6 { ip: 0x0a00_0001, port: 1, flowinfo: 0, scope_id: 0 };
    assert!(server.on_datagram(six, &packet).unwrap().is_none());
    let wrong = encode_control_datagram(&hello_message(&spec(Some("xyz")))).unwrap();
    let reply = server.on_datagram(peer(2), &wrong).unwrap().unwrap();
    assert_eq!(
        validate_ack(decode_control_datagram(&reply).unwrap()),
        Err("token or protocol rejected".to_string())
    );
    assert!(server.on_datagram(peer(2), &packet).unwrap().is_none());
    let stop = encode_control_datagram(&ControlMessage::StopSession { session_id: 1 }).unwrap();
    assert!(server.on_datagram(peer(1), &stop).unwrap().is_none());
    assert!(server.on_datagram(peer(1), &packet[..39]).unwrap().is_none());
    assert!(server.on_datagram(peer(1), &[0u8; 64]).unwrap().is_none());
    let mut open = UdpServer::new(None);
    assert!(open.on_datagram(peer(9), &packet).unwrap().is_some());
}

#[test]
fn certificates_are_found_in_pem() {
    let pem = "junk\n-----BEGIN CERTIFICATE-----\nAQID\n-----END CERTIFICATE-----\n\
               -----BEGIN CERTIFICATE-----\nBAU=\n-----END CERTIFICATE-----\n";
    assert_eq!(load_certs(pem).unwrap(), vec![vec![1, 2, 3], vec![4, 5]]);
    assert!(matches!(load_certs("nothing here"), Err(PemError::NothingFound)));
    assert!(matches!(
        load_certs("-----BEGIN CERTIFICATE-----\nAQID\n"),
        Err(PemError::Unreadable(_))
    ));
    assert!(matches!(load_private_key(pem), Err(PemError::NothingFound)));
    assert!(matches!(
        load_private_key("-----BEGIN CERTIFICATE-----\n!\n-----END CERTIFICATE-----\n"),
        Err(PemError::Unreadable(_))
    ));
}

#[test]
fn keys_are_found_in_pem() {
    let kind = "PRIVATE KEY";
    let pem = format!("-----BEGIN {kind}-----\nAQID\n-----END {kind}-----\n");
    assert_eq!(load_private_key(&pem).unwrap(), vec![1, 2, 3]);
    assert!(matches!(load_certs(&pem), Err(PemError::NothingFound)));
}

#[test]
fn what_was_found_is_taken() {
    assert_eq!(some_certificates(Ok(vec![vec![1]])).unwrap(), vec![vec![1]]);
    assert!(matches!(some_certificates(Ok(Vec::new())), Err(PemError::NothingFound)));
    assert!(matches!(
        some_certificates(Err("bad".to_string())),
        Err(PemError::Unreadable(m)) if m == "bad"
    ));
    assert_eq!(some_key(Ok(Some(vec![2]))).unwrap(), vec![2]);
    assert!(matches!(some_key(Ok(None)), Err(PemError::NothingFound)));
    assert!(matches!(some_key(Err("bad".to_string())), Err(PemError::Unreadable(_))));
}
