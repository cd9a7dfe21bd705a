//! Pings and pongs: the messages of a measurement, and the node that answers
//! them.

use crate::duration::Duration;
use crate::encoding::{law_unsigned_roundtrip, lemma_be_bytes_len, Decode, DecodeError, Encode};
use crate::link::error::Error;
use crate::link::ghostxform::GhostXForm;
use crate::link::payload::{
    entries_encoding, entries_of, entries_on_wire, law_payload_roundtrip,
    law_reencoding_no_longer, parse_payload, GhostTime, Payload, PayloadEntry,
};
use crate::link::sessions::{SessionId, SessionMembership};
use vstd::prelude::*;

verus! {

/// The most bytes that a message may have.
pub const MAX_MESSAGE_SIZE: usize = 512;

/// The size of what every message starts with.
pub const PROTOCOL_HEADER_SIZE: usize = 8;

pub type MessageType = u8;

pub type ProtocolHeader = [u8; PROTOCOL_HEADER_SIZE];

pub const PING: MessageType = 1;

pub const PONG: MessageType = 2;

pub const MESSAGE_TYPES: [&'static str; 2] = ["PING", "PONG"];

/// What every message starts with: "_link_v" in ASCII and the version.
pub const PROTOCOL_HEADER: ProtocolHeader = [0x5f, 0x6c, 0x69, 0x6e, 0x6b, 0x5f, 0x76, 1];

/// The size of a message header.
pub const MESSAGE_HEADER_SIZE: usize = 1;

/// The most bytes of payload that a ping may have to be answered.
pub const MAX_PING_PAYLOAD_SIZE: usize = 40;

/// The header of a message.
#[derive(Clone, Copy, Debug, PartialEq, Eq, Structural)]
pub struct MessageHeader {
    pub message_type: MessageType,
}

impl Encode for MessageHeader {
    open spec fn encoding(&self) -> Seq<u8> {
        self.message_type.encoding()
    }

    fn encode_to(&self, out: &mut Vec<u8>) {
        self.message_type.encode_to(out);
    }

    fn encoded_size(&self) -> usize {
        proof {
            lemma_be_bytes_len(self.message_type as nat, 1);
        }
        1
    }
}

impl Decode for MessageHeader {
    open spec fn decoding(bytes: Seq<u8>) -> Option<(Self, nat)> {
        match u8::decoding(bytes) {
            Some((message_type, size)) => Some((MessageHeader { message_type }, size)),
            None => None,
        }
    }

    fn decode_from(bytes: &[u8]) -> Result<(Self, usize), DecodeError> {
        let (message_type, n) = u8::decode_from(bytes)?;
        Ok((MessageHeader { message_type }, n))
    }
}

/// The bytes of a message of this type with this payload.
pub open spec fn message(message_type: MessageType, payload: Seq<u8>) -> Seq<u8> {
    PROTOCOL_HEADER@ + MessageHeader { message_type }.encoding() + payload
}

/// Whether `data` starts with the protocol header.
pub open spec fn starts_with_protocol_header(data: Seq<u8>) -> bool {
    data.len() >= PROTOCOL_HEADER_SIZE && data.take(PROTOCOL_HEADER_SIZE as int)
        == PROTOCOL_HEADER@
}

/// Whether `data` starts with the headers of a message.
pub open spec fn has_message_header(data: Seq<u8>) -> bool {
    data.len() >= PROTOCOL_HEADER_SIZE + MESSAGE_HEADER_SIZE && starts_with_protocol_header(data)
}

/// The type of the message that `data` is.
pub open spec fn message_type_of(data: Seq<u8>) -> MessageType {
    data[PROTOCOL_HEADER_SIZE as int]
}

/// The payload of the message that `data` is.
pub open spec fn payload_of(data: Seq<u8>) -> Seq<u8> {
    data.skip(PROTOCOL_HEADER_SIZE + MESSAGE_HEADER_SIZE)
}

/// Whether `data` starts with the protocol header.
fn check_protocol_header(data: &[u8]) -> (matching: bool)
    ensures
        matching == starts_with_protocol_header(data@),
{
    if data.len() < PROTOCOL_HEADER_SIZE {
        return false;
    }
    let expected: ProtocolHeader = PROTOCOL_HEADER;
    let mut i: usize = 0;
    while i < PROTOCOL_HEADER_SIZE
        invariant
            i <= PROTOCOL_HEADER_SIZE <= data@.len(),
            expected@ == PROTOCOL_HEADER@,
            forall|j: int| 0 <= j < i ==> data@[j] == PROTOCOL_HEADER@[j],
        decreases PROTOCOL_HEADER_SIZE - i,
    {
        if data[i] != expected[i] {
            assert(data@.take(PROTOCOL_HEADER_SIZE as int)[i as int] != PROTOCOL_HEADER@[i as int]);
            return false;
        }
        i += 1;
    }
    assert(data@.take(PROTOCOL_HEADER_SIZE as int) == PROTOCOL_HEADER@);
    true
}

/// The message of this type with this payload, or an error where it would be too
/// long.
pub fn encode_message(message_type: MessageType, payload: &Payload) -> (encoded: Result<
    Vec<u8>,
    Error,
>)
    ensures
        if PROTOCOL_HEADER_SIZE + MESSAGE_HEADER_SIZE + payload.encoding().len()
            <= MAX_MESSAGE_SIZE {
            encoded matches Ok(bytes) && bytes@ == message(message_type, payload.encoding())
        } else {
            encoded matches Err(error) && error.is_protocol("exceeded maximum message size"@)
        },
{
    let header: MessageHeader = MessageHeader { message_type };

    let message_size: usize = payload.size().saturating_add(
        PROTOCOL_HEADER_SIZE + MESSAGE_HEADER_SIZE,
    );

    if message_size > MAX_MESSAGE_SIZE {
        return Err(Error::Protocol("exceeded maximum message size"));
    }
    let protocol_header: ProtocolHeader = PROTOCOL_HEADER;
    let mut encoded: Vec<u8> = vstd::slice::slice_to_vec(protocol_header.as_slice());
    header.encode_to(&mut encoded);
    encoded.append(&mut payload.encode());

    Ok(encoded)
}

/// The header of the message that `data` is, with the size of all its headers.
pub fn parse_message_header(data: &[u8]) -> (parsed: Result<(MessageHeader, usize), Error>)
    ensures
        if data@.len() < PROTOCOL_HEADER_SIZE + MESSAGE_HEADER_SIZE {
            parsed matches Err(error) && error.is_protocol("invalid message size"@)
        } else if !starts_with_protocol_header(data@) {
            parsed matches Err(error) && error.is_protocol("invalid protocol header"@)
        } else {
            parsed matches Ok((header, size)) && header.message_type == message_type_of(data@)
                && size == PROTOCOL_HEADER_SIZE + MESSAGE_HEADER_SIZE
        },
{
    let min_message_size: usize = PROTOCOL_HEADER_SIZE + MESSAGE_HEADER_SIZE;

    if data.len() < min_message_size {
        return Err(Error::Protocol("invalid message size"));
    }
    if !check_protocol_header(data) {
        return Err(Error::Protocol("invalid protocol header"));
    }
    let header_bytes: &[u8] = vstd::slice::slice_subrange(
        data,
        PROTOCOL_HEADER_SIZE,
        min_message_size,
    );
    match MessageHeader::decode_from(header_bytes) {
        Ok((header, consumed)) => {
            proof {
                lemma_single_byte(header_bytes@);
            }
            Ok((header, PROTOCOL_HEADER_SIZE + consumed))
        },
        Err(error) => Err(Error::Decode(error)),
    }
}

/// A single byte spells itself.
proof fn lemma_single_byte(bytes: Seq<u8>)
    requires
        bytes.len() == 1,
    ensures
        u8::decoding(bytes) == Some((bytes[0], 1nat)),
        bytes[0].encoding() == bytes,
{
    let x = bytes[0];
    reveal_with_fuel(crate::encoding::be_bytes, 2);
    assert(x.encoding() == bytes);
    law_unsigned_roundtrip(x, 0, 0, Seq::empty());
    assert(x.encoding() + Seq::<u8>::empty() == bytes);
}

/// A message that was made is taken apart into its type and its payload.
pub proof fn law_message_parts(message_type: MessageType, payload: Seq<u8>)
    ensures
        has_message_header(message(message_type, payload)),
        message_type_of(message(message_type, payload)) == message_type,
        payload_of(message(message_type, payload)) == payload,
        message(message_type, payload).len() == PROTOCOL_HEADER_SIZE + MESSAGE_HEADER_SIZE
            + payload.len(),
{
    lemma_single_byte(seq![message_type]);
    let data = message(message_type, payload);
    assert(data.take(PROTOCOL_HEADER_SIZE as int) == PROTOCOL_HEADER@);
    assert(data.skip(9) == payload);
}

/// What a node that answers pings does with a datagram.
#[derive(Debug)]
pub enum PingReply {
    /// The datagram belongs to another protocol; drop it.
    HeaderMismatch,
    /// The datagram is no proper message; drop it.
    Malformed(Error),
    /// The message is no ping, or its payload is too long; drop it.
    Invalid,
    /// Send this pong back.
    Pong(Vec<u8>),
}

/// The node that answers pings: the session it is in, and the map from its clock
/// to that of the session.
#[derive(Clone, Copy, Debug)]
pub struct PingResponder {
    pub session_id: SessionId,
    pub ghost_x_form: GhostXForm,
}

/// Whether an entry of a ping is sent back with the pong.
pub open spec fn is_echoed(entry: PayloadEntry) -> bool {
    entry is HostTime || entry is PrevGhostTime
}

/// The entries that a ping with these entries is sent back with, in order.
pub open spec fn echoed(ping: Seq<PayloadEntry>) -> Seq<PayloadEntry> {
    ping.filter(|entry: PayloadEntry| is_echoed(entry))
}

/// The entries of the pong with which a node in session `session_id` answers a
/// ping with entries `ping` at session time `ghost_time`.
pub open spec fn pong_entries(
    session_id: SessionId,
    ping: Seq<PayloadEntry>,
    ghost_time: Duration,
) -> Seq<PayloadEntry> {
    echoed(ping) + seq![
        PayloadEntry::SessionMembership(SessionMembership { session_id }),
        PayloadEntry::GhostTime(GhostTime { time: ghost_time }),
    ]
}

/// Whether `datagram` is a ping that is answered.
pub open spec fn is_answered(datagram: Seq<u8>) -> bool {
    &&& has_message_header(datagram)
    &&& message_type_of(datagram) == PING
    &&& payload_of(datagram).len() <= MAX_PING_PAYLOAD_SIZE
    &&& entries_of(payload_of(datagram)) is Ok
}

/// The pong with which a node in session `session_id` answers `datagram` at
/// session time `ghost_time`.
pub open spec fn pong(session_id: SessionId, datagram: Seq<u8>, ghost_time: Duration) -> Seq<u8> {
    message(
        PONG,
        entries_encoding(
            pong_entries(session_id, entries_of(payload_of(datagram))->Ok_0, ghost_time),
        ),
    )
}

impl PingResponder {
    /// A node in this session, with this map to its clock.
    pub fn new(session_id: SessionId, ghost_x_form: GhostXForm) -> (responder: PingResponder)
        ensures
            responder.session_id == session_id,
            responder.ghost_x_form == ghost_x_form,
    {
        PingResponder { session_id, ghost_x_form }
    }

    /// Moves the node to another session and map.
    pub fn update_node_state(&mut self, session_id: SessionId, x_form: GhostXForm)
        ensures
            final(self).session_id == session_id,
            final(self).ghost_x_form == x_form,
    {
        self.session_id = session_id;
        self.ghost_x_form = x_form;
    }

    /// What to do with a datagram that arrives when the session time is
    /// `ghost_time`: a proper ping is answered with the host time and the
    /// previous session time that it holds, the session of the node, and the
    /// session time. Everything else is dropped.
    pub fn respond(&self, datagram: &[u8], ghost_time: Duration) -> (reply: PingReply)
        ensures
            if !starts_with_protocol_header(datagram@) {
                reply is HeaderMismatch
            } else if datagram@.len() < PROTOCOL_HEADER_SIZE + MESSAGE_HEADER_SIZE {
                reply matches PingReply::Malformed(error) && error.is_protocol(
                    "invalid message size"@,
                )
            } else if message_type_of(datagram@) != PING || payload_of(datagram@).len()
                > MAX_PING_PAYLOAD_SIZE {
                reply is Invalid
            } else {
                match entries_of(payload_of(datagram@)) {
                    Err(error) => reply == PingReply::Malformed(Error::Decode(error)),
                    Ok(_) => reply matches PingReply::Pong(bytes) && bytes@ == pong(
                        self.session_id,
                        datagram@,
                        ghost_time,
                    ),
                }
            },
    {
        if !check_protocol_header(datagram) {
            return PingReply::HeaderMismatch;
        }
        let (header, header_len) = match parse_message_header(datagram) {
            Ok(parsed) => parsed,
            Err(error) => {
                return PingReply::Malformed(error);
            },
        };
        let payload_bytes: &[u8] = vstd::slice::slice_subrange(
            datagram,
            header_len,
            datagram.len(),
        );
        assert(payload_bytes@ == payload_of(datagram@));
        if header.message_type != PING || payload_bytes.len() > MAX_PING_PAYLOAD_SIZE {
            return PingReply::Invalid;
        }
        let payload: Payload = match parse_payload(payload_bytes) {
            Ok(payload) => payload,
            Err(error) => {
                return PingReply::Malformed(Error::Decode(error));
            },
        };
        let mut entries: Vec<PayloadEntry> = keep_echoed(&payload.entries);
        entries.push(
            PayloadEntry::SessionMembership(SessionMembership { session_id: self.session_id }),
        );
        entries.push(PayloadEntry::GhostTime(GhostTime { time: ghost_time }));
        let pong_payload: Payload = Payload { entries };
        proof {
            assert(pong_payload.entries@ == pong_entries(
                self.session_id,
                payload.entries@,
                ghost_time,
            ));
            lemma_pong_fits(self.session_id, payload_bytes@, ghost_time);
        }
        match encode_message(PONG, &pong_payload) {
            Ok(pong_message) => PingReply::Pong(pong_message),
            Err(error) => PingReply::Malformed(error),
        }
    }
}

/// The entries of a ping that are sent back.
fn keep_echoed(entries: &Vec<PayloadEntry>) -> (kept: Vec<PayloadEntry>)
    ensures
        kept@ == echoed(entries@),
{
    let mut kept: Vec<PayloadEntry> = Vec::new();
    let mut i: usize = 0;
    proof {
        reveal(Seq::filter);
    }
    while i < entries.len()
        invariant
            i <= entries@.len(),
            kept@ == echoed(entries@.take(i as int)),
        decreases entries@.len() - i,
    {
        let entry: PayloadEntry = entries[i];
        match entry {
            PayloadEntry::HostTime(_) | PayloadEntry::PrevGhostTime(_) => {
                kept.push(entry);
            },
            _ => {},
        }
        i += 1;
        proof {
            reveal(Seq::filter);
            assert(entries@.take(i as int).drop_last() == entries@.take(i - 1));
        }
    }
    assert(entries@.take(i as int) == entries@);
    kept
}

/// What is sent back of some entries takes no more bytes than all of them.
proof fn lemma_echoed_no_longer(ping: Seq<PayloadEntry>)
    ensures
        entries_encoding(echoed(ping)).len() <= entries_encoding(ping).len(),
    decreases ping.len(),
{
    reveal(Seq::filter);
    if ping.len() > 0 {
        lemma_echoed_no_longer(ping.drop_last());
        let before = echoed(ping.drop_last());
        if is_echoed(ping.last()) {
            assert(echoed(ping) == before.push(ping.last()));
            assert(before.push(ping.last()).drop_last() == before);
        } else {
            assert(echoed(ping) == before);
        }
    }
}

/// The pong to a ping that is short enough fits in a message.
proof fn lemma_pong_fits(session_id: SessionId, ping: Seq<u8>, ghost_time: Duration)
    requires
        ping.len() <= MAX_PING_PAYLOAD_SIZE,
        entries_of(ping) is Ok,
    ensures
        PROTOCOL_HEADER_SIZE + MESSAGE_HEADER_SIZE + entries_encoding(
            pong_entries(session_id, entries_of(ping)->Ok_0, ghost_time),
        ).len() <= MAX_MESSAGE_SIZE,
{
    let entries = entries_of(ping)->Ok_0;
    law_reencoding_no_longer(ping);
    lemma_echoed_no_longer(entries);
    let membership = PayloadEntry::SessionMembership(SessionMembership { session_id });
    let time = PayloadEntry::GhostTime(GhostTime { time: ghost_time });
    let all = pong_entries(session_id, entries, ghost_time);
    membership.lemma_value_len();
    time.lemma_value_len();
    reveal_with_fuel(entries_encoding, 3);
    assert(all.last() == time && all.drop_last().last() == membership);
    assert(all.drop_last().drop_last() == echoed(entries));
}

/// A message is read back: it has the type it was made with, and its
/// payload holds the entries that it was made with, as they are on the wire.
pub proof fn law_message_roundtrip(message_type: MessageType, entries: Seq<PayloadEntry>)
    ensures
        ({
            let data = message(message_type, entries_encoding(entries));
            &&& has_message_header(data)
            &&& message_type_of(data) == message_type
            &&& entries_of(payload_of(data)) == Ok::<Seq<PayloadEntry>, DecodeError>(
                entries_on_wire(entries),
            )
        }),
{
    law_message_parts(message_type, entries_encoding(entries));
    law_payload_roundtrip(entries);
}

/// The pong that answers a ping is a message of at most `MAX_MESSAGE_SIZE` bytes
/// and of type `PONG`, and its payload is read back as what the ping asked to be
/// sent back, the session of the node, and the session time.
pub proof fn law_pong_readable(session_id: SessionId, ping: Seq<u8>, ghost_time: Duration)
    requires
        is_answered(ping),
    ensures
        ({
            let answer = pong(session_id, ping, ghost_time);
            &&& answer.len() <= MAX_MESSAGE_SIZE
            &&& has_message_header(answer)
            &&& message_type_of(answer) == PONG
            &&& entries_of(payload_of(answer)) == Ok::<Seq<PayloadEntry>, DecodeError>(
                entries_on_wire(
                    pong_entries(session_id, entries_of(payload_of(ping))->Ok_0, ghost_time),
                ),
            )
        }),
{
    let entries = pong_entries(session_id, entries_of(payload_of(ping))->Ok_0, ghost_time);
    law_message_parts(PONG, entries_encoding(entries));
    law_message_roundtrip(PONG, entries);
    lemma_pong_fits(session_id, payload_of(ping), ghost_time);
}

} // verus!
