use link_session::duration::Duration;
use link_session::encoding::{encode_to_vec, Decode, DecodeError, Encode};
use link_session::link::error::Error;
use link_session::link::ghostxform::{GhostXForm, Slope};
use link_session::link::measurement::{MeasurementEndpointV4, SocketAddrV4};
use link_session::link::node::NodeId;
use link_session::link::payload::{
    parse_payload, GhostTime, HostTime, Payload, PayloadEntry, PayloadEntryHeader, PrevGhostTime,
};
use link_session::link::pingresponder::{
    encode_message, parse_message_header, MessageHeader, PingReply, PingResponder,
    MAX_MESSAGE_SIZE, MESSAGE_TYPES, PING, PONG, PROTOCOL_HEADER,
};
use link_session::link::sessions::{SessionId, SessionMembership};

fn micros(n: i64) -> Duration {
    Duration::microseconds(n)
}

fn host(n: i64) -> PayloadEntry {
    PayloadEntry::HostTime(HostTime { time: micros(n) })
}

fn ghost(n: i64) -> PayloadEntry {
    PayloadEntry::GhostTime(GhostTime { time: micros(n) })
}

fn prev_ghost(n: i64) -> PayloadEntry {
    PayloadEntry::PrevGhostTime(PrevGhostTime { time: micros(n) })
}

fn session_id() -> SessionId {
    SessionId(NodeId::from_array([1, 2, 3, 4, 5, 6, 7, 8]))
}

fn membership() -> PayloadEntry {
    PayloadEntry::SessionMembership(SessionMembership { session_id: session_id() })
}

fn responder() -> PingResponder {
    PingResponder::new(session_id(), GhostXForm::default())
}

#[test]
fn roundtrip() {
    let payload = Payload {
        entries: vec![PayloadEntry::HostTime(HostTime::default())],
    };

    let message = encode_message(PING, &payload).unwrap();

    let header = parse_message_header(&message).unwrap();
    assert_eq!(header, (MessageHeader { message_type: PING }, 9));
}

#[test]
fn message_exact_bytes() {
    let message = encode_message(PONG, &Payload { entries: vec![host(258)] }).unwrap();
    let mut expected = b"_link_v\x01\x02__ht\x00\x00\x00\x08".to_vec();
    expected.extend_from_slice(&[0, 0, 0, 0, 0, 0, 1, 2]);
    assert_eq!(message, expected);
    assert_eq!(&message[..8], &PROTOCOL_HEADER);
    assert_eq!(MESSAGE_TYPES, ["PING", "PONG"]);
}

#[test]
fn message_size_is_limited() {
    // 31 entries of 16 bytes make 496 bytes, and 9 more of headers 505.
    let fits = Payload { entries: vec![host(1); 31] };
    assert_eq!(fits.size(), 496);
    assert_eq!(encode_message(PING, &fits).unwrap().len(), 505);
    let too_long = Payload { entries: vec![host(1); 32] };
    assert_eq!(
        encode_message(PING, &too_long),
        Err(Error::Protocol("exceeded maximum message size"))
    );
    assert_eq!(MAX_MESSAGE_SIZE, 512);
}

#[test]
fn message_header_errors() {
    assert_eq!(
        parse_message_header(b"_link_v\x01"),
        Err(Error::Protocol("invalid message size"))
    );
    assert_eq!(
        parse_message_header(b"_link_v\x02\x01"),
        Err(Error::Protocol("invalid protocol header"))
    );
    let (header, size) = parse_message_header(b"_link_v\x01\x63rest").unwrap();
    assert_eq!(header.message_type, 0x63);
    assert_eq!(size, 9);
}

#[test]
fn message_header_codec() {
    let header = MessageHeader { message_type: 2 };
    assert_eq!(encode_to_vec(&header), vec![2]);
    assert_eq!(header.encoded_size(), 1);
    assert_eq!(MessageHeader::decode_from(&[2, 9]), Ok((header, 1)));
    assert_eq!(MessageHeader::decode_from(&[]), Err(DecodeError::UnexpectedEnd));
}

#[test]
fn endpoint_exact_bytes() {
    let endpoint = MeasurementEndpointV4 {
        endpoint: Some(SocketAddrV4 { ip: 0xc0a8_0105, port: 0x1f90 }),
    };
    let encoded = endpoint.encode().unwrap();
    assert_eq!(
        encoded,
        vec![b'm', b'e', b'p', b'4', 0, 0, 0, 6, 192, 168, 1, 5, 0x1f, 0x90]
    );
    assert_eq!(endpoint.encoded_size(), 6);
    assert_eq!(MeasurementEndpointV4::decode_from(&encoded[8..]), Ok((endpoint, 6)));
}

#[test]
fn absent_endpoint_is_all_zero() {
    let absent = MeasurementEndpointV4 { endpoint: None };
    let bytes = encode_to_vec(&absent);
    assert_eq!(bytes, vec![0; 6]);
    let (decoded, size) = MeasurementEndpointV4::decode_from(&bytes).unwrap();
    assert_eq!(decoded.endpoint, Some(SocketAddrV4 { ip: 0, port: 0 }));
    assert_eq!(size, 6);
}

#[test]
fn short_endpoint_is_refused() {
    assert_eq!(
        MeasurementEndpointV4::decode_from(&[1, 2, 3, 4, 5]),
        Err(DecodeError::UnexpectedEnd)
    );
    assert_eq!(
        MeasurementEndpointV4::decode_from(&[1, 2, 3]),
        Err(DecodeError::UnexpectedEnd)
    );
}

#[test]
fn entry_header_codec() {
    let header = PayloadEntryHeader { key: 0x6162_6364, size: 5 };
    assert_eq!(header.encode(), b"abcd\x00\x00\x00\x05".to_vec());
    assert_eq!(PayloadEntryHeader::decode_from(&header.encode()), Ok((header, 8)));
    assert_eq!(
        PayloadEntryHeader::decode_from(b"abcd\x00\x00\x00"),
        Err(DecodeError::UnexpectedEnd)
    );
}

#[test]
fn payload_is_read_back() {
    let entries = vec![
        host(-5),
        ghost(i64::MAX),
        prev_ghost(i64::MIN),
        membership(),
        PayloadEntry::MeasurementEndpointV4(MeasurementEndpointV4 {
            endpoint: Some(SocketAddrV4 { ip: 7, port: 8 }),
        }),
        host(6),
    ];
    let payload = Payload { entries: entries.clone() };
    let bytes = payload.encode();
    assert_eq!(bytes.len(), payload.size());
    assert_eq!(bytes.len(), 94);
    assert_eq!(parse_payload(&bytes).unwrap().entries, entries);
}

#[test]
fn times_are_cut_to_microseconds() {
    let time = Duration::from_parts(1, 999).unwrap();
    let bytes = Payload { entries: vec![PayloadEntry::HostTime(HostTime { time })] }.encode();
    assert_eq!(parse_payload(&bytes).unwrap().entries, vec![host(1_000_000)]);
    let time = Duration::from_parts(9_223_372_036_854_775, 0).unwrap();
    let bytes = Payload { entries: vec![PayloadEntry::GhostTime(GhostTime { time })] }.encode();
    assert_eq!(parse_payload(&bytes).unwrap().entries, vec![ghost(0)]);
}

#[test]
fn unknown_entries_are_left_out() {
    let mut bytes = PayloadEntryHeader { key: 0x7465_7374, size: 3 }.encode();
    bytes.extend_from_slice(&[1, 2, 3]);
    bytes.append(&mut Payload { entries: vec![host(4)] }.encode());
    bytes.append(&mut PayloadEntryHeader { key: 0, size: 0 }.encode());
    assert_eq!(parse_payload(&bytes).unwrap().entries, vec![host(4)]);
    assert!(parse_payload(&[]).unwrap().entries.is_empty());
}

#[test]
fn broken_payloads_are_refused() {
    let bytes = Payload { entries: vec![host(4)] }.encode();
    assert_eq!(parse_payload(&bytes[..7]).unwrap_err(), DecodeError::UnexpectedEnd);
    assert_eq!(parse_payload(&bytes[..15]).unwrap_err(), DecodeError::UnexpectedEnd);
    let mut wrong = PayloadEntryHeader { key: 0x5f5f_6874, size: 7 }.encode();
    wrong.extend_from_slice(&[0; 7]);
    assert_eq!(parse_payload(&wrong).unwrap_err(), DecodeError::SizeMismatch);
    let mut wrong = PayloadEntryHeader { key: 0x5f5f_6874, size: 9 }.encode();
    wrong.extend_from_slice(&[0; 9]);
    assert_eq!(parse_payload(&wrong).unwrap_err(), DecodeError::SizeMismatch);
    let huge = PayloadEntryHeader { key: 0, size: u32::MAX }.encode();
    assert_eq!(parse_payload(&huge).unwrap_err(), DecodeError::UnexpectedEnd);
}

#[test]
fn ping_is_answered() {
    let ping = encode_message(PING, &Payload { entries: vec![host(11), prev_ghost(12)] }).unwrap();
    match responder().respond(&ping, micros(99)) {
        PingReply::Pong(pong) => {
            let (header, size) = parse_message_header(&pong).unwrap();
            assert_eq!(header.message_type, PONG);
            assert_eq!(
                parse_payload(&pong[size..]).unwrap().entries,
                vec![host(11), prev_ghost(12), membership(), ghost(99)]
            );
        }
        other => panic!("{:?}", other),
    }
}

#[test]
fn only_asked_entries_are_sent_back() {
    let ping = encode_message(PING, &Payload { entries: vec![ghost(1), membership()] }).unwrap();
    match responder().respond(&ping, micros(2)) {
        PingReply::Pong(pong) => assert_eq!(
            pong,
            encode_message(PONG, &Payload { entries: vec![membership(), ghost(2)] }).unwrap()
        ),
        other => panic!("{:?}", other),
    }
    let empty = encode_message(PING, &Payload { entries: vec![] }).unwrap();
    assert!(matches!(responder().respond(&empty, micros(2)), PingReply::Pong(_)));
}

#[test]
fn other_datagrams_are_dropped() {
    let node = responder();
    let t = micros(2);
    assert!(matches!(node.respond(b"", t), PingReply::HeaderMismatch));
    assert!(matches!(node.respond(b"_link_", t), PingReply::HeaderMismatch));
    assert!(matches!(node.respond(b"_asdp_v\x01\x01", t), PingReply::HeaderMismatch));
    assert!(matches!(
        node.respond(b"_link_v\x01", t),
        PingReply::Malformed(Error::Protocol("invalid message size"))
    ));
    assert!(matches!(node.respond(b"_link_v\x01\x02", t), PingReply::Invalid));
    assert!(matches!(
        node.respond(b"_link_v\x01\x01abc", t),
        PingReply::Malformed(Error::Decode(DecodeError::UnexpectedEnd))
    ));
}

#[test]
fn long_ping_is_dropped() {
    let two = encode_message(PING, &Payload { entries: vec![host(1), host(2)] }).unwrap();
    let mut padded = two.clone();
    padded.append(&mut PayloadEntryHeader { key: 1, size: 0 }.encode());
    assert_eq!(padded.len(), 9 + 40);
    assert!(matches!(responder().respond(&padded, micros(2)), PingReply::Pong(_)));
    let three = encode_message(PING, &Payload { entries: vec![host(1), host(2), host(3)] }).unwrap();
    assert!(matches!(responder().respond(&three, micros(2)), PingReply::Invalid));
}

#[test]
fn responder_follows_its_node() {
    let mut node = responder();
    let other = SessionId(NodeId::from_array([9; 8]));
    let x_form = GhostXForm { slope: Slope { bits: 1.5f64.to_bits() }, intercept: micros(4) };
    node.update_node_state(other, x_form);
    assert_eq!(node.session_id, other);
    assert_eq!(node.ghost_x_form, x_form);
    let ping = encode_message(PING, &Payload { entries: vec![] }).unwrap();
    match node.respond(&ping, micros(3)) {
        PingReply::Pong(pong) => assert_eq!(
            parse_payload(&pong[9..]).unwrap().entries,
            vec![
                PayloadEntry::SessionMembership(SessionMembership { session_id: other }),
                ghost(3)
            ]
        ),
        other => panic!("{:?}", other),
    }
}
