//! What the operations on messages give for what they are given.
//!
//! As in [`session_laws`](crate::link::session_laws), a law speaks of calls.

use crate::duration::Duration;
use crate::encoding::{
    encode_to_vec, lemma_be_bytes_len, lemma_be_bytes_listed, lemma_be_value_bound,
    lemma_be_value_listed, lemma_widths, Decode, DecodeError, Encode,
};
use crate::link::error::Error;
use crate::link::ghostxform::GhostXForm;
use crate::link::measurement::{MeasurementEndpointV4, SocketAddrV4};
use crate::link::node::NodeId;
use crate::link::payload::{
    entries_encoding, entries_on_wire, law_header_roundtrip, law_payload_roundtrip,
    law_read_entries_exact, parse_payload, GhostTime, HostTime, Payload, PayloadEntry,
    PayloadEntryHeader, PrevGhostTime,
};
use crate::link::pingresponder::{
    echoed, encode_message, is_answered, is_echoed, law_message_parts, law_pong_readable,
    parse_message_header, pong_entries, MessageHeader, PingReply, PingResponder,
    MESSAGE_TYPES, PING, PONG, PROTOCOL_HEADER,
};
use crate::link::sessions::{SessionId, SessionMembership};
use vstd::prelude::*;

verus! {

/// An entry that holds a time is written as a header, which has the key of its
/// kind and the size eight, and the whole microseconds of the time.
pub proof fn law_times_written(
    time: Duration,
    micros: i64,
    value: Vec<u8>,
    host: Vec<u8>,
    ghost_time: Vec<u8>,
    prev_ghost: Vec<u8>,
)
    requires
        call_ensures(Duration::microseconds_or_zero, (&time,), micros),
        call_ensures(encode_to_vec::<i64>, (&micros,), value),
        call_ensures(
            encode_to_vec::<PayloadEntry>,
            (&PayloadEntry::HostTime(HostTime { time }),),
            host,
        ),
        call_ensures(
            encode_to_vec::<PayloadEntry>,
            (&PayloadEntry::GhostTime(GhostTime { time }),),
            ghost_time,
        ),
        call_ensures(
            encode_to_vec::<PayloadEntry>,
            (&PayloadEntry::PrevGhostTime(PrevGhostTime { time }),),
            prev_ghost,
        ),
    ensures
        host@ == seq![0x5fu8, 0x5f, 0x68, 0x74, 0, 0, 0, 8] + value@,
        ghost_time@ == seq![0x5fu8, 0x5f, 0x67, 0x74, 0, 0, 0, 8] + value@,
        prev_ghost@ == seq![0x5fu8, 0x70, 0x67, 0x74, 0, 0, 0, 8] + value@,
{
    lemma_header_bytes(0x5f5f6874, 8);
    lemma_header_bytes(0x5f5f6774, 8);
    lemma_header_bytes(0x5f706774, 8);
}

/// The bytes of a header.
proof fn lemma_header_bytes(key: u32, size: u32)
    ensures
        (PayloadEntryHeader { key, size }).encoding() == seq![
            (key / 0x100_0000) as u8,
            (key / 0x1_0000 % 0x100) as u8,
            (key / 0x100 % 0x100) as u8,
            (key % 0x100) as u8,
            (size / 0x100_0000) as u8,
            (size / 0x1_0000 % 0x100) as u8,
            (size / 0x100 % 0x100) as u8,
            (size % 0x100) as u8,
        ],
{
    lemma_be_bytes_listed(key as nat);
    lemma_be_bytes_listed(size as nat);
}

/// The session that a node is in is written as the key "sess", the size eight, and
/// the identifier of the session, on its own as in a payload.
pub proof fn law_membership_written(
    session_id: SessionId,
    id: Vec<u8>,
    encoded: Result<Vec<u8>, Error>,
    entry: Vec<u8>,
)
    requires
        call_ensures(encode_to_vec::<NodeId>, (&session_id.0,), id),
        call_ensures(
            SessionMembership::encode,
            (&SessionMembership { session_id },),
            encoded,
        ),
        call_ensures(
            encode_to_vec::<PayloadEntry>,
            (&PayloadEntry::SessionMembership(SessionMembership { session_id }),),
            entry,
        ),
    ensures
        entry@ == seq![0x73u8, 0x65, 0x73, 0x73, 0, 0, 0, 8] + id@,
        encoded matches Ok(bytes) && bytes@ == entry@,
{
    lemma_header_bytes(0x73657373, 8);
}

/// Where a node can be measured is written as the key "mep4", the size six, the
/// four bytes of the address and the two of the port, on its own as in a payload;
/// where it cannot be measured, these six bytes are zero.
pub proof fn law_endpoint_written(
    endpoint: Option<SocketAddrV4>,
    encoded: Result<Vec<u8>, Error>,
    entry: Vec<u8>,
)
    requires
        call_ensures(
            MeasurementEndpointV4::encode,
            (&MeasurementEndpointV4 { endpoint },),
            encoded,
        ),
        call_ensures(
            encode_to_vec::<PayloadEntry>,
            (&PayloadEntry::MeasurementEndpointV4(MeasurementEndpointV4 { endpoint }),),
            entry,
        ),
    ensures
        entry@ == seq![0x6du8, 0x65, 0x70, 0x34, 0, 0, 0, 6] + match endpoint {
            Some(address) => seq![
                (address.ip / 0x100_0000) as u8,
                (address.ip / 0x1_0000 % 0x100) as u8,
                (address.ip / 0x100 % 0x100) as u8,
                (address.ip % 0x100) as u8,
                (address.port / 0x100) as u8,
                (address.port % 0x100) as u8,
            ],
            None => seq![0u8, 0, 0, 0, 0, 0],
        },
        encoded matches Ok(bytes) && bytes@ == entry@,
{
    lemma_header_bytes(0x6d657034, 6);
    lemma_be_bytes_listed(0);
    if let Some(address) = endpoint {
        lemma_be_bytes_listed(address.ip as nat);
        lemma_be_bytes_listed(address.port as nat);
    }
}

/// A payload is written entry by entry: one more entry adds its bytes at the end,
/// and no entries are no bytes. Its size is the number of its bytes.
pub proof fn law_payload_written(
    payload: Payload,
    written: Vec<u8>,
    size: usize,
    front: Payload,
    front_written: Vec<u8>,
    entry: PayloadEntry,
    entry_written: Vec<u8>,
)
    requires
        call_ensures(Payload::encode, (&payload,), written),
        call_ensures(Payload::size, (&payload,), size),
        call_ensures(Payload::encode, (&front,), front_written),
        call_ensures(encode_to_vec::<PayloadEntry>, (&entry,), entry_written),
    ensures
        payload.entries@.len() == 0 ==> written@.len() == 0,
        payload.entries@ == front.entries@.push(entry) ==> written@ == front_written@
            + entry_written@,
        written@.len() <= usize::MAX ==> size == written@.len(),
{
    if payload.entries@ == front.entries@.push(entry) {
        assert(payload.entries@.drop_last() == front.entries@);
    }
}

/// What was written is read back: as many entries, in the same order and of the
/// same kinds. Times come back in whole microseconds, sessions and addresses as
/// they were, and a missing address as zeros. This is said of the entry at `i`.
pub proof fn law_payload_read_back(
    payload: Payload,
    written: Vec<u8>,
    data: &[u8],
    read: Result<Payload, DecodeError>,
    i: int,
)
    requires
        call_ensures(Payload::encode, (&payload,), written),
        data@ == written@,
        call_ensures(parse_payload, (data,), read),
        0 <= i < payload.entries@.len(),
    ensures
        read matches Ok(p) && {
            &&& p.entries@.len() == payload.entries@.len()
            &&& match payload.entries@[i] {
                PayloadEntry::HostTime(sent) => p.entries@[i] matches PayloadEntry::HostTime(e)
                    && e.time == Duration::of_micros(sent.time.micros_or_zero()),
                PayloadEntry::GhostTime(sent) => p.entries@[i] matches PayloadEntry::GhostTime(e)
                    && e.time == Duration::of_micros(sent.time.micros_or_zero()),
                PayloadEntry::PrevGhostTime(sent) => p.entries@[i] matches
                    PayloadEntry::PrevGhostTime(e) && e.time == Duration::of_micros(
                    sent.time.micros_or_zero(),
                ),
                PayloadEntry::SessionMembership(sent) => p.entries@[i] matches
                    PayloadEntry::SessionMembership(e) && e.session_id == sent.session_id,
                PayloadEntry::MeasurementEndpointV4(sent) => p.entries@[i] matches
                    PayloadEntry::MeasurementEndpointV4(e) && e.endpoint == match sent.endpoint {
                    Some(address) => Some(address),
                    None => Some(SocketAddrV4 { ip: 0, port: 0 }),
                },
            }
        },
{
    law_payload_roundtrip(payload.entries@);
}

/// An entry of an unknown kind is passed over: what is read is what is read of the
/// bytes that follow it.
pub proof fn law_unknown_passed_over(
    key: u32,
    size: u32,
    key_written: Vec<u8>,
    size_written: Vec<u8>,
    value: Seq<u8>,
    rest: &[u8],
    data: &[u8],
    read: Result<Payload, DecodeError>,
    read_rest: Result<Payload, DecodeError>,
)
    requires
        key != 0x5f5f6874 && key != 0x5f5f6774 && key != 0x5f706774 && key != 0x73657373 && key
            != 0x6d657034,
        value.len() == size,
        call_ensures(encode_to_vec::<u32>, (&key,), key_written),
        call_ensures(encode_to_vec::<u32>, (&size,), size_written),
        data@ == key_written@ + size_written@ + value + rest@,
        call_ensures(parse_payload, (data,), read),
        call_ensures(parse_payload, (rest,), read_rest),
    ensures
        match read_rest {
            Ok(q) => read matches Ok(p) && p.entries@ == q.entries@,
            Err(error) => read matches Err(e) && e == error,
        },
{
    assert(data@ == key.encoding() + size.encoding() + (value + rest@));
    lemma_header_in_front(key, size, data@, value + rest@);
    assert(data@.skip(8 + size) == rest@);
}

/// The header in front of some bytes is found.
proof fn lemma_header_in_front(key: u32, size: u32, data: Seq<u8>, rest: Seq<u8>)
    requires
        data == key.encoding() + size.encoding() + rest,
    ensures
        data.len() == 8 + rest.len(),
        PayloadEntryHeader::decoding(data) == Some((PayloadEntryHeader { key, size }, 8nat)),
{
    lemma_be_bytes_len(key as nat, 4);
    lemma_be_bytes_len(size as nat, 4);
    law_header_roundtrip(PayloadEntryHeader { key, size }, rest);
}

/// Bytes that end before the header or the value of their first entry does are
/// refused as cut short, and a first entry of a known kind that announces another
/// size than its kind has is refused as such.
pub proof fn law_payload_refused(
    key: u32,
    size: u32,
    key_written: Vec<u8>,
    size_written: Vec<u8>,
    rest: Seq<u8>,
    data: &[u8],
    read: Result<Payload, DecodeError>,
    short: &[u8],
    read_short: Result<Payload, DecodeError>,
)
    requires
        call_ensures(encode_to_vec::<u32>, (&key,), key_written),
        call_ensures(encode_to_vec::<u32>, (&size,), size_written),
        data@ == key_written@ + size_written@ + rest,
        call_ensures(parse_payload, (data,), read),
        0 < short@.len() < 8,
        call_ensures(parse_payload, (short,), read_short),
    ensures
        read_short matches Err(error) && error is UnexpectedEnd,
        size > rest.len() ==> (read matches Err(error) && error is UnexpectedEnd),
        size <= rest.len() && (key == 0x5f5f6874 || key == 0x5f5f6774 || key == 0x5f706774 || key
            == 0x73657373) && size != 8 ==> (read matches Err(error) && error is SizeMismatch),
        size <= rest.len() && key == 0x6d657034 && size != 6 ==> (read matches Err(error)
            && error is SizeMismatch),
{
    lemma_header_in_front(key, size, data@, rest);
}

/// A message is the eight bytes that every message starts with, its type, and its
/// payload. It is made just where these are at most 512 bytes.
pub proof fn law_message_written(
    message_type: u8,
    payload: Payload,
    body: Vec<u8>,
    encoded: Result<Vec<u8>, Error>,
)
    requires
        call_ensures(Payload::encode, (&payload,), body),
        call_ensures(encode_message, (message_type, &payload), encoded),
    ensures
        match encoded {
            Ok(bytes) => 9 + body@.len() <= 512 && bytes@ == seq![
                0x5fu8,
                0x6c,
                0x69,
                0x6e,
                0x6b,
                0x5f,
                0x76,
                1,
                message_type,
            ] + body@,
            Err(error) => 9 + body@.len() > 512 && error.is_protocol(
                "exceeded maximum message size"@,
            ),
        },
{
    lemma_be_bytes_listed(message_type as nat);
    lemma_protocol_header();
}

/// The bytes that every message starts with.
pub(crate) proof fn lemma_protocol_header()
    ensures
        PROTOCOL_HEADER@ == seq![0x5fu8, 0x6c, 0x69, 0x6e, 0x6b, 0x5f, 0x76, 1],
{
    assert(PROTOCOL_HEADER@ =~= seq![0x5fu8, 0x6c, 0x69, 0x6e, 0x6b, 0x5f, 0x76, 1]);
}

/// The header of a message is found just where there are nine bytes or more and
/// the first eight are those that every message starts with. The ninth is its
/// type, and the payload follows.
pub proof fn law_message_header_read(
    data: &[u8],
    parsed: Result<(MessageHeader, usize), Error>,
)
    requires
        call_ensures(parse_message_header, (data,), parsed),
    ensures
        match parsed {
            Ok((header, size)) => {
                &&& data@.len() >= 9
                &&& data@.take(8) == seq![0x5fu8, 0x6c, 0x69, 0x6e, 0x6b, 0x5f, 0x76, 1]
                &&& header.message_type == data@[8]
                &&& size == 9
            },
            Err(error) => if data@.len() < 9 {
                error.is_protocol("invalid message size"@)
            } else {
                &&& data@.take(8) != seq![0x5fu8, 0x6c, 0x69, 0x6e, 0x6b, 0x5f, 0x76, 1]
                &&& error.is_protocol("invalid protocol header"@)
            },
        },
{
    lemma_protocol_header();
}

/// A datagram is answered just where it has the header of a message, is of type 1,
/// has at most 40 bytes of payload, and its payload `body` can be read. What is
/// not answered is told apart in that order.
pub proof fn law_ping_told_apart(
    responder: &PingResponder,
    datagram: &[u8],
    ghost_time: Duration,
    reply: PingReply,
    body: &[u8],
    read: Result<Payload, DecodeError>,
)
    requires
        call_ensures(PingResponder::respond, (responder, datagram, ghost_time), reply),
        datagram@.len() >= 9 ==> body@ == datagram@.skip(9),
        call_ensures(parse_payload, (body,), read),
    ensures
        if datagram@.len() < 8 || datagram@.take(8) != seq![
            0x5fu8,
            0x6c,
            0x69,
            0x6e,
            0x6b,
            0x5f,
            0x76,
            1,
        ] {
            reply is HeaderMismatch
        } else if datagram@.len() == 8 {
            reply matches PingReply::Malformed(error) && error.is_protocol(
                "invalid message size"@,
            )
        } else if datagram@[8] != 1 || datagram@.len() > 9 + 40 {
            reply is Invalid
        } else {
            match read {
                Err(error) => reply matches PingReply::Malformed(Error::Decode(e)) && e == error,
                Ok(_) => reply is Pong,
            }
        },
{
    lemma_protocol_header();
}

/// The pong to a ping whose payload is read as `asked` is a message of type 2 and
/// of at most 512 bytes. Its payload is read as the host times and earlier session
/// times of the ping, in order, then the session of the node, then the session
/// time in whole microseconds.
pub proof fn law_pong_sent(
    responder: &PingResponder,
    datagram: &[u8],
    ghost_time: Duration,
    pong: Vec<u8>,
    body: &[u8],
    asked: Payload,
    pong_body: &[u8],
    answer: Result<Payload, DecodeError>,
)
    requires
        call_ensures(
            PingResponder::respond,
            (responder, datagram, ghost_time),
            PingReply::Pong(pong),
        ),
        body@ == datagram@.skip(9),
        call_ensures(parse_payload, (body,), Ok(asked)),
        pong_body@ == pong@.skip(9),
        call_ensures(parse_payload, (pong_body,), answer),
    ensures
        9 <= pong@.len() <= 512,
        pong@.take(9) == seq![0x5fu8, 0x6c, 0x69, 0x6e, 0x6b, 0x5f, 0x76, 1, 2],
        answer matches Ok(p) && p.entries@ == asked.entries@.filter(
            |entry: PayloadEntry| entry is HostTime || entry is PrevGhostTime,
        ) + seq![
            PayloadEntry::SessionMembership(
                SessionMembership { session_id: responder.session_id },
            ),
            PayloadEntry::GhostTime(
                GhostTime { time: Duration::of_micros(ghost_time.micros_or_zero()) },
            ),
        ],
{
    let entries = asked.entries@;
    let kept = echoed(entries);
    assert(is_answered(datagram@));
    law_pong_readable(responder.session_id, datagram@, ghost_time);
    let all = pong_entries(responder.session_id, entries, ghost_time);
    law_message_parts(PONG, entries_encoding(all));
    lemma_protocol_header();
    assert(pong@[8] == 2);
    assert(pong@.take(9) =~= pong@.take(8).push(pong@[8]));
    law_read_entries_exact(body@);
    let pred = |entry: PayloadEntry| entry is HostTime || entry is PrevGhostTime;
    assert(kept =~= entries.filter(pred)) by {
        lemma_filter_alike(
            entries,
            |entry: PayloadEntry| is_echoed(entry),
            pred,
        );
    }
    assert forall|i: int| 0 <= i < kept.len() implies (#[trigger] kept[i]).on_wire() == kept[i] by {
        lemma_filter_from(entries, pred, i);
    }
    let on_wire = entries_on_wire(all);
    assert(on_wire =~= kept + seq![
        PayloadEntry::SessionMembership(SessionMembership { session_id: responder.session_id }),
        PayloadEntry::GhostTime(
            GhostTime { time: Duration::of_micros(ghost_time.micros_or_zero()) },
        ),
    ]);
}

/// Filters that accept the same keep the same.
proof fn lemma_filter_alike(
    entries: Seq<PayloadEntry>,
    a: spec_fn(PayloadEntry) -> bool,
    b: spec_fn(PayloadEntry) -> bool,
)
    requires
        forall|entry: PayloadEntry| #[trigger] a(entry) == b(entry),
    ensures
        entries.filter(a) == entries.filter(b),
{
    assert(a =~= b);
}

/// What a filter keeps comes from what it is given.
proof fn lemma_filter_from(
    entries: Seq<PayloadEntry>,
    pred: spec_fn(PayloadEntry) -> bool,
    i: int,
)
    requires
        0 <= i < entries.filter(pred).len(),
    ensures
        exists|k: int| 0 <= k < entries.len() && #[trigger] entries[k] == entries.filter(pred)[i],
    decreases entries.len(),
{
    reveal(Seq::filter);
    if entries.len() > 0 {
        let front = entries.drop_last();
        if i < front.filter(pred).len() {
            lemma_filter_from(front, pred, i);
            let k = choose|k: int|
                0 <= k < front.len() && #[trigger] front[k] == front.filter(pred)[i];
            assert(entries[k] == entries.filter(pred)[i]);
        } else {
            assert(entries[entries.len() - 1] == entries.filter(pred)[i]);
        }
    }
}

/// A time is read from the eight bytes of a signed number of microseconds; it is
/// not read just where there are fewer bytes.
pub proof fn law_times_read(
    bytes: &[u8],
    micros: Result<(i64, usize), DecodeError>,
    host: Result<(HostTime, usize), DecodeError>,
    ghost_time: Result<(GhostTime, usize), DecodeError>,
    prev_ghost: Result<(PrevGhostTime, usize), DecodeError>,
)
    requires
        call_ensures(i64::decode_from, (bytes,), micros),
        call_ensures(HostTime::decode_from, (bytes,), host),
        call_ensures(GhostTime::decode_from, (bytes,), ghost_time),
        call_ensures(PrevGhostTime::decode_from, (bytes,), prev_ghost),
    ensures
        match micros {
            Ok((m, n)) => {
                &&& n == 8
                &&& host matches Ok((entry, k)) && k == 8 && entry.time.nanos() == m * 1_000
                &&& ghost_time matches Ok((entry, k)) && k == 8 && entry.time.nanos() == m * 1_000
                &&& prev_ghost matches Ok((entry, k)) && k == 8 && entry.time.nanos() == m * 1_000
            },
            Err(_) => {
                &&& bytes@.len() < 8
                &&& host matches Err(error) && error is UnexpectedEnd
                &&& ghost_time matches Err(error) && error is UnexpectedEnd
                &&& prev_ghost matches Err(error) && error is UnexpectedEnd
            },
        },
{
    if let Ok((m, _)) = micros {
        Duration::lemma_of_micros(m);
    }
}

/// An identifier is read from the number that eight bytes spell, whether of a
/// node, of a session, or of the session that a node is in; it is not read just
/// where there are fewer bytes.
pub proof fn law_identifiers_read(
    bytes: &[u8],
    node: Result<(NodeId, usize), DecodeError>,
    session: Result<(SessionId, usize), DecodeError>,
    membership: Result<(SessionMembership, usize), DecodeError>,
)
    requires
        call_ensures(NodeId::decode_from, (bytes,), node),
        call_ensures(SessionId::decode_from, (bytes,), session),
        call_ensures(SessionMembership::decode_from, (bytes,), membership),
    ensures
        match node {
            Ok((id, n)) => {
                let b = bytes@;
                &&& n == 8
                &&& b.len() >= 8
                &&& id.0 == b[0] * 0x100_0000_0000_0000 + b[1] * 0x1_0000_0000_0000 + b[2]
                    * 0x100_0000_0000 + b[3] * 0x1_0000_0000 + b[4] * 0x100_0000 + b[5]
                    * 0x1_0000 + b[6] * 0x100 + b[7]
                &&& session matches Ok((s, k)) && k == 8 && s.0 == id
                &&& membership matches Ok((m, k)) && k == 8 && m.session_id.0 == id
            },
            Err(error) => {
                &&& bytes@.len() < 8
                &&& error is UnexpectedEnd
                &&& session matches Err(e) && e is UnexpectedEnd
                &&& membership matches Err(e) && e is UnexpectedEnd
            },
        },
{
    if bytes@.len() >= 8 {
        lemma_widths();
        lemma_be_value_bound(bytes@.take(8));
        lemma_be_value_listed(bytes@.take(8));
    }
}

/// The header of an entry is read from the two numbers that four bytes each spell,
/// an address from four bytes and a port from two, and the type of a message from
/// one. None is read just where there are fewer bytes.
pub proof fn law_headers_read(
    bytes: &[u8],
    header: Result<(PayloadEntryHeader, usize), DecodeError>,
    endpoint: Result<(MeasurementEndpointV4, usize), DecodeError>,
    message: Result<(MessageHeader, usize), DecodeError>,
)
    requires
        call_ensures(PayloadEntryHeader::decode_from, (bytes,), header),
        call_ensures(MeasurementEndpointV4::decode_from, (bytes,), endpoint),
        call_ensures(MessageHeader::decode_from, (bytes,), message),
    ensures
        ({
            let b = bytes@;
            let first = b[0] * 0x100_0000 + b[1] * 0x1_0000 + b[2] * 0x100 + b[3];
            &&& match header {
                Ok((h, n)) => n == 8 && b.len() >= 8 && h.key == first && h.size == b[4]
                    * 0x100_0000 + b[5] * 0x1_0000 + b[6] * 0x100 + b[7],
                Err(error) => b.len() < 8 && error is UnexpectedEnd,
            }
            &&& match endpoint {
                Ok((e, n)) => n == 6 && b.len() >= 6 && (e.endpoint matches Some(address)
                    && address.ip == first && address.port == b[4] * 0x100 + b[5]),
                Err(error) => b.len() < 6 && error is UnexpectedEnd,
            }
            &&& match message {
                Ok((m, n)) => n == 1 && b.len() >= 1 && m.message_type == b[0],
                Err(error) => b.len() < 1 && error is UnexpectedEnd,
            }
        }),
{
    lemma_be_value_listed(bytes@.take(1));
    lemma_be_value_listed(bytes@.take(4));
    lemma_be_value_listed(bytes@.skip(4).take(4));
    lemma_be_value_listed(bytes@.skip(4).take(2));
}

/// A node answers pings for the session and with the map that it was last given.
pub proof fn law_responder_moved(
    session_id: SessionId,
    x_form: GhostXForm,
    fresh: PingResponder,
    moved: &mut PingResponder,
)
    requires
        call_ensures(PingResponder::new, (session_id, x_form), fresh),
        call_ensures(PingResponder::update_node_state, (moved, session_id, x_form), ()),
    ensures
        fresh.session_id == session_id,
        fresh.ghost_x_form == x_form,
        final(moved).session_id == session_id,
        final(moved).ghost_x_form == x_form,
{
}

/// Messages of type 1 are pings, and messages of type 2 are pongs.
pub proof fn law_message_types()
    ensures
        PING == 1,
        PONG == 2,
        MESSAGE_TYPES@[PING - 1]@ == "PING"@,
        MESSAGE_TYPES@[PONG - 1]@ == "PONG"@,
{
}

} // verus!
