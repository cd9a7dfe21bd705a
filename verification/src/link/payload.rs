//! Payloads: sequences of entries, each a header and a value.

use crate::duration::Duration;
use crate::encoding::{
    encode_to_vec, law_signed_roundtrip, law_unsigned_roundtrip, lemma_be_bytes_len,
    twos_complement, Decode, DecodeError, Encode,
};
use crate::link::measurement::{
    law_endpoint_roundtrip, MeasurementEndpointV4, MEASUREMENT_ENDPOINT_V4_HEADER_KEY,
    MEASUREMENT_ENDPOINT_V4_SIZE,
};
use crate::link::sessions::{
    law_membership_roundtrip, SessionMembership, SESSION_MEMBERSHIP_HEADER_KEY,
    SESSION_MEMBERSHIP_SIZE,
};
use vstd::prelude::*;

verus! {

/// The header of an entry: what it is and how many bytes its value takes.
#[derive(Clone, Copy, Debug, PartialEq, Eq, Structural)]
pub struct PayloadEntryHeader {
    pub key: u32,
    pub size: u32,
}

impl PayloadEntryHeader {
    /// The eight bytes of the header.
    pub fn encode(&self) -> (encoded: Vec<u8>)
        ensures
            encoded@ == self.encoding(),
    {
        encode_to_vec(self)
    }
}

impl Encode for PayloadEntryHeader {
    open spec fn encoding(&self) -> Seq<u8> {
        self.key.encoding() + self.size.encoding()
    }

    fn encode_to(&self, out: &mut Vec<u8>) {
        self.key.encode_to(out);
        self.size.encode_to(out);
    }

    fn encoded_size(&self) -> usize {
        proof {
            lemma_be_bytes_len(self.key as nat, 4);
            lemma_be_bytes_len(self.size as nat, 4);
        }
        8
    }
}

impl Decode for PayloadEntryHeader {
    open spec fn decoding(bytes: Seq<u8>) -> Option<(Self, nat)> {
        match (u32::decoding(bytes), u32::decoding(bytes.skip(4))) {
            (Some((key, _)), Some((size, _))) => Some((PayloadEntryHeader { key, size }, 8)),
            _ => None,
        }
    }

    fn decode_from(bytes: &[u8]) -> Result<(Self, usize), DecodeError> {
        let (key, n1) = u32::decode_from(bytes)?;
        let (size, n2) = u32::decode_from(vstd::slice::slice_subrange(bytes, n1, bytes.len()))?;
        assert(bytes@.subrange(4, bytes@.len() as int) == bytes@.skip(4));
        Ok((PayloadEntryHeader { key, size }, n1 + n2))
    }
}

/// Decoding what a header was encoded to, whatever bytes follow, gives the
/// header and the size of its encoding.
pub proof fn law_header_roundtrip(header: PayloadEntryHeader, rest: Seq<u8>)
    ensures
        PayloadEntryHeader::decoding(header.encoding() + rest) == Some((header, 8nat)),
{
    lemma_be_bytes_len(header.key as nat, 4);
    lemma_be_bytes_len(header.size as nat, 4);
    law_unsigned_roundtrip(0, 0, header.key, header.size.encoding() + rest);
    law_unsigned_roundtrip(0, 0, header.size, rest);
    assert(header.encoding() + rest == header.key.encoding() + (header.size.encoding() + rest));
    assert((header.encoding() + rest).skip(4) == header.size.encoding() + rest);
}

/// The size of the value of an entry that holds a time.
pub const TIME_SIZE: u32 = 8;

/// The bytes that a time is written as: its whole microseconds, or 0 where they
/// do not fit in 64 bits.
pub open spec fn time_encoding(time: Duration) -> Seq<u8> {
    (time.micros_or_zero() as i64).encoding()
}

/// The time that is read back where `time` was written.
pub open spec fn time_on_wire(time: Duration) -> Duration {
    Duration::of_micros(time.micros_or_zero())
}

/// The key of a `HostTime` entry: "__ht" in ASCII.
pub const HOST_TIME_HEADER_KEY: u32 = 0x5f5f6874;

/// The time on the clock of the host that sends a ping. On the wire it is a whole
/// number of microseconds.
#[derive(Clone, Copy, Debug, PartialEq, Eq, Structural)]
pub struct HostTime {
    pub time: Duration,
}

impl Default for HostTime {
    fn default() -> (entry: HostTime)
        ensures
            entry.time == Duration::of_micros(0),
    {
        HostTime { time: Duration::zero() }
    }
}

impl Encode for HostTime {
    open spec fn encoding(&self) -> Seq<u8> {
        time_encoding(self.time)
    }

    fn encode_to(&self, out: &mut Vec<u8>) {
        self.time.microseconds_or_zero().encode_to(out);
    }

    fn encoded_size(&self) -> usize {
        self.time.microseconds_or_zero().encoded_size()
    }
}

impl Decode for HostTime {
    open spec fn decoding(bytes: Seq<u8>) -> Option<(Self, nat)> {
        match i64::decoding(bytes) {
            Some((micros, size)) => Some((HostTime { time: Duration::of_micros(micros as int) }, size)),
            None => None,
        }
    }

    fn decode_from(bytes: &[u8]) -> Result<(Self, usize), DecodeError> {
        let (micros, n) = i64::decode_from(bytes)?;
        Ok((HostTime { time: Duration::microseconds(micros) }, n))
    }
}

/// The key of a `GhostTime` entry: "__gt" in ASCII.
pub const GHOST_TIME_HEADER_KEY: u32 = 0x5f5f6774;

/// The time on the clock of the session of the node that answers. On the wire it is a whole
/// number of microseconds.
#[derive(Clone, Copy, Debug, PartialEq, Eq, Structural)]
pub struct GhostTime {
    pub time: Duration,
}

impl Default for GhostTime {
    fn default() -> (entry: GhostTime)
        ensures
            entry.time == Duration::of_micros(0),
    {
        GhostTime { time: Duration::zero() }
    }
}

impl Encode for GhostTime {
    open spec fn encoding(&self) -> Seq<u8> {
        time_encoding(self.time)
    }

    fn encode_to(&self, out: &mut Vec<u8>) {
        self.time.microseconds_or_zero().encode_to(out);
    }

    fn encoded_size(&self) -> usize {
        self.time.microseconds_or_zero().encoded_size()
    }
}

impl Decode for GhostTime {
    open spec fn decoding(bytes: Seq<u8>) -> Option<(Self, nat)> {
        match i64::decoding(bytes) {
            Some((micros, size)) => Some((GhostTime { time: Duration::of_micros(micros as int) }, size)),
            None => None,
        }
    }

    fn decode_from(bytes: &[u8]) -> Result<(Self, usize), DecodeError> {
        let (micros, n) = i64::decode_from(bytes)?;
        Ok((GhostTime { time: Duration::microseconds(micros) }, n))
    }
}

/// The key of a `PrevGhostTime` entry: "_pgt" in ASCII.
pub const PREV_GHOST_TIME_HEADER_KEY: u32 = 0x5f706774;

/// The session time of the answer before. On the wire it is a whole
/// number of microseconds.
#[derive(Clone, Copy, Debug, PartialEq, Eq, Structural)]
pub struct PrevGhostTime {
    pub time: Duration,
}

impl Default for PrevGhostTime {
    fn default() -> (entry: PrevGhostTime)
        ensures
            entry.time == Duration::of_micros(0),
    {
        PrevGhostTime { time: Duration::zero() }
    }
}

impl Encode for PrevGhostTime {
    open spec fn encoding(&self) -> Seq<u8> {
        time_encoding(self.time)
    }

    fn encode_to(&self, out: &mut Vec<u8>) {
        self.time.microseconds_or_zero().encode_to(out);
    }

    fn encoded_size(&self) -> usize {
        self.time.microseconds_or_zero().encoded_size()
    }
}

impl Decode for PrevGhostTime {
    open spec fn decoding(bytes: Seq<u8>) -> Option<(Self, nat)> {
        match i64::decoding(bytes) {
            Some((micros, size)) => Some((PrevGhostTime { time: Duration::of_micros(micros as int) }, size)),
            None => None,
        }
    }

    fn decode_from(bytes: &[u8]) -> Result<(Self, usize), DecodeError> {
        let (micros, n) = i64::decode_from(bytes)?;
        Ok((PrevGhostTime { time: Duration::microseconds(micros) }, n))
    }
}

/// An entry of a payload.
#[derive(Clone, Copy, Debug, PartialEq, Eq, Structural)]
pub enum PayloadEntry {
    HostTime(HostTime),
    GhostTime(GhostTime),
    PrevGhostTime(PrevGhostTime),
    SessionMembership(SessionMembership),
    MeasurementEndpointV4(MeasurementEndpointV4),
}

impl PayloadEntry {
    /// The header that the entry is written with.
    pub open spec fn header(self) -> PayloadEntryHeader {
        match self {
            PayloadEntry::HostTime(_) => PayloadEntryHeader {
                key: HOST_TIME_HEADER_KEY,
                size: TIME_SIZE,
            },
            PayloadEntry::GhostTime(_) => PayloadEntryHeader {
                key: GHOST_TIME_HEADER_KEY,
                size: TIME_SIZE,
            },
            PayloadEntry::PrevGhostTime(_) => PayloadEntryHeader {
                key: PREV_GHOST_TIME_HEADER_KEY,
                size: TIME_SIZE,
            },
            PayloadEntry::SessionMembership(_) => PayloadEntryHeader {
                key: SESSION_MEMBERSHIP_HEADER_KEY,
                size: SESSION_MEMBERSHIP_SIZE,
            },
            PayloadEntry::MeasurementEndpointV4(_) => PayloadEntryHeader {
                key: MEASUREMENT_ENDPOINT_V4_HEADER_KEY,
                size: MEASUREMENT_ENDPOINT_V4_SIZE,
            },
        }
    }

    /// The bytes of the value of the entry.
    pub open spec fn value(self) -> Seq<u8> {
        match self {
            PayloadEntry::HostTime(time) => time.encoding(),
            PayloadEntry::GhostTime(time) => time.encoding(),
            PayloadEntry::PrevGhostTime(time) => time.encoding(),
            PayloadEntry::SessionMembership(membership) => membership.encoding(),
            PayloadEntry::MeasurementEndpointV4(endpoint) => endpoint.encoding(),
        }
    }

    /// The entry that is read back where this one was written: times are cut to
    /// whole microseconds, an absent endpoint becomes 0.0.0.0:0.
    pub open spec fn on_wire(self) -> PayloadEntry {
        match self {
            PayloadEntry::HostTime(entry) => PayloadEntry::HostTime(
                HostTime { time: time_on_wire(entry.time) },
            ),
            PayloadEntry::GhostTime(entry) => PayloadEntry::GhostTime(
                GhostTime { time: time_on_wire(entry.time) },
            ),
            PayloadEntry::PrevGhostTime(entry) => PayloadEntry::PrevGhostTime(
                PrevGhostTime { time: time_on_wire(entry.time) },
            ),
            PayloadEntry::SessionMembership(entry) => PayloadEntry::SessionMembership(entry),
            PayloadEntry::MeasurementEndpointV4(entry) => PayloadEntry::MeasurementEndpointV4(
                MeasurementEndpointV4 { endpoint: Some(entry.address()) },
            ),
        }
    }

    /// The value of an entry takes as many bytes as its header says.
    pub proof fn lemma_value_len(self)
        ensures
            self.value().len() == self.header().size,
            self.encoding().len() == 8 + self.header().size,
            self.header().size <= 8,
    {
        lemma_be_bytes_len(self.header().key as nat, 4);
        lemma_be_bytes_len(self.header().size as nat, 4);
        match self {
            PayloadEntry::HostTime(entry) => {
                lemma_be_bytes_len(twos_complement(entry.time.micros_or_zero() as i64), 8);
            },
            PayloadEntry::GhostTime(entry) => {
                lemma_be_bytes_len(twos_complement(entry.time.micros_or_zero() as i64), 8);
            },
            PayloadEntry::PrevGhostTime(entry) => {
                lemma_be_bytes_len(twos_complement(entry.time.micros_or_zero() as i64), 8);
            },
            PayloadEntry::SessionMembership(entry) => {
                lemma_be_bytes_len(entry.session_id.0.0 as nat, 8);
            },
            PayloadEntry::MeasurementEndpointV4(entry) => {
                lemma_be_bytes_len(entry.address().ip as nat, 4);
                lemma_be_bytes_len(entry.address().port as nat, 2);
            },
        }
    }
}

impl Encode for PayloadEntry {
    open spec fn encoding(&self) -> Seq<u8> {
        self.header().encoding() + self.value()
    }

    fn encode_to(&self, out: &mut Vec<u8>) {
        match self {
            PayloadEntry::HostTime(time) => {
                PayloadEntryHeader { key: HOST_TIME_HEADER_KEY, size: TIME_SIZE }.encode_to(out);
                time.encode_to(out);
            },
            PayloadEntry::GhostTime(time) => {
                PayloadEntryHeader { key: GHOST_TIME_HEADER_KEY, size: TIME_SIZE }.encode_to(out);
                time.encode_to(out);
            },
            PayloadEntry::PrevGhostTime(time) => {
                PayloadEntryHeader { key: PREV_GHOST_TIME_HEADER_KEY, size: TIME_SIZE }.encode_to(
                    out,
                );
                time.encode_to(out);
            },
            PayloadEntry::SessionMembership(membership) => {
                PayloadEntryHeader {
                    key: SESSION_MEMBERSHIP_HEADER_KEY,
                    size: SESSION_MEMBERSHIP_SIZE,
                }.encode_to(out);
                membership.encode_to(out);
            },
            PayloadEntry::MeasurementEndpointV4(endpoint) => {
                PayloadEntryHeader {
                    key: MEASUREMENT_ENDPOINT_V4_HEADER_KEY,
                    size: MEASUREMENT_ENDPOINT_V4_SIZE,
                }.encode_to(out);
                endpoint.encode_to(out);
            },
        }
    }

    fn encoded_size(&self) -> usize {
        proof {
            self.lemma_value_len();
        }
        match self {
            PayloadEntry::MeasurementEndpointV4(_) => 14,
            _ => 16,
        }
    }
}

/// A sequence of entries.
#[derive(Debug)]
pub struct Payload {
    pub entries: Vec<PayloadEntry>,
}

/// The bytes of some entries, one after the other.
pub open spec fn entries_encoding(entries: Seq<PayloadEntry>) -> Seq<u8>
    decreases entries.len(),
{
    if entries.len() == 0 {
        Seq::empty()
    } else {
        entries_encoding(entries.drop_last()) + entries.last().encoding()
    }
}

impl Payload {
    /// The bytes that the payload is written as.
    pub open spec fn encoding(&self) -> Seq<u8> {
        entries_encoding(self.entries@)
    }

    /// The number of bytes that the payload is written as, or `usize::MAX` where
    /// that is less.
    pub fn size(&self) -> (size: usize)
        ensures
            size == if self.encoding().len() <= usize::MAX {
                self.encoding().len() as int
            } else {
                usize::MAX as int
            },
    {
        let mut size: usize = 0;
        let mut i: usize = 0;
        while i < self.entries.len()
            invariant
                i <= self.entries@.len(),
                size == if entries_encoding(self.entries@.take(i as int)).len() <= usize::MAX {
                    entries_encoding(self.entries@.take(i as int)).len() as int
                } else {
                    usize::MAX as int
                },
            decreases self.entries@.len() - i,
        {
            size = size.saturating_add(self.entries[i].encoded_size());
            i += 1;
            assert(self.entries@.take(i as int).drop_last() == self.entries@.take(i - 1));
        }
        assert(self.entries@.take(i as int) == self.entries@);
        size
    }

    /// The bytes of the payload.
    pub fn encode(&self) -> (encoded: Vec<u8>)
        ensures
            encoded@ == self.encoding(),
    {
        let mut encoded: Vec<u8> = Vec::new();
        let mut i: usize = 0;
        while i < self.entries.len()
            invariant
                i <= self.entries@.len(),
                encoded@ == entries_encoding(self.entries@.take(i as int)),
            decreases self.entries@.len() - i,
        {
            self.entries[i].encode_to(&mut encoded);
            i += 1;
            assert(self.entries@.take(i as int).drop_last() == self.entries@.take(i - 1));
        }
        assert(self.entries@.take(i as int) == self.entries@);
        encoded
    }
}

/// What the entry with this key and value is: `Ok(None)` where the key is not
/// known, an error where the value does not have the size that the key asks for.
pub open spec fn entry_of(key: u32, value: Seq<u8>) -> Result<Option<PayloadEntry>, DecodeError> {
    if key == HOST_TIME_HEADER_KEY {
        match HostTime::decoding(value) {
            Some((entry, size)) if size == value.len() => Ok(Some(PayloadEntry::HostTime(entry))),
            _ => Err(DecodeError::SizeMismatch),
        }
    } else if key == GHOST_TIME_HEADER_KEY {
        match GhostTime::decoding(value) {
            Some((entry, size)) if size == value.len() => Ok(Some(PayloadEntry::GhostTime(entry))),
            _ => Err(DecodeError::SizeMismatch),
        }
    } else if key == PREV_GHOST_TIME_HEADER_KEY {
        match PrevGhostTime::decoding(value) {
            Some((entry, size)) if size == value.len() => Ok(
                Some(PayloadEntry::PrevGhostTime(entry)),
            ),
            _ => Err(DecodeError::SizeMismatch),
        }
    } else if key == SESSION_MEMBERSHIP_HEADER_KEY {
        match SessionMembership::decoding(value) {
            Some((entry, size)) if size == value.len() => Ok(
                Some(PayloadEntry::SessionMembership(entry)),
            ),
            _ => Err(DecodeError::SizeMismatch),
        }
    } else if key == MEASUREMENT_ENDPOINT_V4_HEADER_KEY {
        match MeasurementEndpointV4::decoding(value) {
            Some((entry, size)) if size == value.len() => Ok(
                Some(PayloadEntry::MeasurementEndpointV4(entry)),
            ),
            _ => Err(DecodeError::SizeMismatch),
        }
    } else {
        Ok(None)
    }
}

/// The entries that `bytes` spell. Each starts with a header; its value is the
/// bytes after it, as many as the header says. Entries of unknown kinds are left
/// out. The first entry that is cut short or has the wrong size is an error.
pub open spec fn entries_of(bytes: Seq<u8>) -> Result<Seq<PayloadEntry>, DecodeError>
    decreases bytes.len(),
{
    if bytes.len() == 0 {
        Ok(Seq::empty())
    } else {
        match PayloadEntryHeader::decoding(bytes) {
            None => Err(DecodeError::UnexpectedEnd),
            Some((header, _)) => {
                if 8 + header.size > bytes.len() {
                    Err(DecodeError::UnexpectedEnd)
                } else {
                    match (
                        entry_of(header.key, bytes.subrange(8, 8 + header.size)),
                        entries_of(bytes.skip(8 + header.size)),
                    ) {
                        (Err(error), _) => Err(error),
                        (_, Err(error)) => Err(error),
                        (Ok(None), Ok(rest)) => Ok(rest),
                        (Ok(Some(entry)), Ok(rest)) => Ok(seq![entry] + rest),
                    }
                }
            },
        }
    }
}

/// Reads a value that has to take up all of `value`.
fn read_value<T: Decode>(value: &[u8]) -> (read: Result<T, DecodeError>)
    ensures
        match T::decoding(value@) {
            Some((v, size)) if size == value@.len() => read == Ok::<T, DecodeError>(v),
            _ => read == Err::<T, DecodeError>(DecodeError::SizeMismatch),
        },
{
    match T::decode_from(value) {
        Ok((v, size)) if size == value.len() => Ok(v),
        _ => Err(DecodeError::SizeMismatch),
    }
}

/// Reads the entry with this key and value.
fn read_entry(key: u32, value: &[u8]) -> (entry: Result<Option<PayloadEntry>, DecodeError>)
    ensures
        entry == entry_of(key, value@),
{
    if key == HOST_TIME_HEADER_KEY {
        Ok(Some(PayloadEntry::HostTime(read_value::<HostTime>(value)?)))
    } else if key == GHOST_TIME_HEADER_KEY {
        Ok(Some(PayloadEntry::GhostTime(read_value::<GhostTime>(value)?)))
    } else if key == PREV_GHOST_TIME_HEADER_KEY {
        Ok(Some(PayloadEntry::PrevGhostTime(read_value::<PrevGhostTime>(value)?)))
    } else if key == SESSION_MEMBERSHIP_HEADER_KEY {
        Ok(Some(PayloadEntry::SessionMembership(read_value::<SessionMembership>(value)?)))
    } else if key == MEASUREMENT_ENDPOINT_V4_HEADER_KEY {
        Ok(Some(PayloadEntry::MeasurementEndpointV4(read_value::<MeasurementEndpointV4>(value)?)))
    } else {
        Ok(None)
    }
}

/// `done` in front of what is still to be read.
spec fn with_front(
    done: Seq<PayloadEntry>,
    rest: Result<Seq<PayloadEntry>, DecodeError>,
) -> Result<Seq<PayloadEntry>, DecodeError> {
    match rest {
        Ok(entries) => Ok(done + entries),
        Err(error) => Err(error),
    }
}

/// Reads the payload that `data` spells.
pub fn parse_payload(data: &[u8]) -> (payload: Result<Payload, DecodeError>)
    ensures
        match entries_of(data@) {
            Ok(entries) => payload matches Ok(p) && p.entries@ == entries,
            Err(error) => payload == Err::<Payload, DecodeError>(error),
        },
{
    let mut entries: Vec<PayloadEntry> = Vec::new();
    let mut pos: usize = 0;
    assert(data@.skip(0) == data@);
    while pos < data.len()
        invariant
            pos <= data@.len(),
            entries_of(data@) == with_front(entries@, entries_of(data@.skip(pos as int))),
        decreases data@.len() - pos,
    {
        let rest: &[u8] = vstd::slice::slice_subrange(data, pos, data.len());
        assert(rest@ == data@.skip(pos as int));
        let (header, header_len) = PayloadEntryHeader::decode_from(rest)?;
        let size: usize = header.size as usize;
        if size > rest.len() - header_len {
            return Err(DecodeError::UnexpectedEnd);
        }
        let value: &[u8] = vstd::slice::slice_subrange(rest, header_len, header_len + size);
        let entry: Option<PayloadEntry> = read_entry(header.key, value)?;
        let ghost before = entries@;
        if let Some(entry) = entry {
            entries.push(entry);
        }
        pos = pos + header_len + size;
        proof {
            assert(rest@.skip(8 + size) == data@.skip(pos as int));
            if let (Some(e), Ok(later)) = (entry, entries_of(data@.skip(pos as int))) {
                assert(before + (seq![e] + later) == entries@ + later);
            }
        }
    }
    assert(data@.skip(pos as int) == Seq::<u8>::empty());
    Ok(Payload { entries })
}

/// The entries that are read back where `entries` were written.
pub open spec fn entries_on_wire(entries: Seq<PayloadEntry>) -> Seq<PayloadEntry> {
    entries.map_values(|entry: PayloadEntry| entry.on_wire())
}

/// The bytes of some entries start with those of the first.
proof fn lemma_encoding_front(entries: Seq<PayloadEntry>)
    requires
        entries.len() > 0,
    ensures
        entries_encoding(entries) == entries[0].encoding() + entries_encoding(
            entries.drop_first(),
        ),
    decreases entries.len(),
{
    if entries.len() == 1 {
        assert(entries.drop_last() == Seq::<PayloadEntry>::empty());
        assert(entries.drop_first() == Seq::<PayloadEntry>::empty());
        reveal_with_fuel(entries_encoding, 2);
    } else {
        lemma_encoding_front(entries.drop_last());
        assert(entries.drop_last().drop_first() == entries.drop_first().drop_last());
        assert(entries.drop_first().last() == entries.last());
    }
}

/// An entry at the front of some bytes is read as such.
proof fn lemma_entry_at_front(entry: PayloadEntry, rest: Seq<u8>)
    ensures
        entries_of(entry.encoding() + rest) == with_front(
            seq![entry.on_wire()],
            entries_of(rest),
        ),
{
    let bytes = entry.encoding() + rest;
    let header = entry.header();
    entry.lemma_value_len();
    lemma_be_bytes_len(header.key as nat, 4);
    lemma_be_bytes_len(header.size as nat, 4);
    law_header_roundtrip(header, entry.value() + rest);
    assert(bytes == header.encoding() + (entry.value() + rest));
    assert(bytes.subrange(8, 8 + header.size) == entry.value());
    assert(bytes.skip(8 + header.size) == rest);
    let nothing = Seq::<u8>::empty();
    assert(entry.value() + nothing == entry.value());
    match entry {
        PayloadEntry::HostTime(e) => {
            law_signed_roundtrip(e.time.micros_or_zero() as i64, nothing);
        },
        PayloadEntry::GhostTime(e) => {
            law_signed_roundtrip(e.time.micros_or_zero() as i64, nothing);
        },
        PayloadEntry::PrevGhostTime(e) => {
            law_signed_roundtrip(e.time.micros_or_zero() as i64, nothing);
        },
        PayloadEntry::SessionMembership(e) => {
            law_membership_roundtrip(e, nothing);
        },
        PayloadEntry::MeasurementEndpointV4(e) => {
            law_endpoint_roundtrip(e, nothing);
        },
    }
}

/// Reading the bytes that entries were written as gives the entries as they are
/// on the wire: in the same order, with times cut to whole microseconds and an
/// absent endpoint as 0.0.0.0:0.
pub proof fn law_payload_roundtrip(entries: Seq<PayloadEntry>)
    ensures
        entries_of(entries_encoding(entries)) == Ok::<Seq<PayloadEntry>, DecodeError>(
            entries_on_wire(entries),
        ),
    decreases entries.len(),
{
    if entries.len() == 0 {
        assert(entries_on_wire(entries) == Seq::<PayloadEntry>::empty());
    } else {
        let rest = entries.drop_first();
        lemma_encoding_front(entries);
        lemma_entry_at_front(entries[0], entries_encoding(rest));
        law_payload_roundtrip(rest);
        assert(seq![entries[0].on_wire()] + entries_on_wire(rest) == entries_on_wire(entries));
    }
}

/// An entry whose time is a whole number of microseconds, a membership, and a
/// present endpoint are read back just as they were written.
pub proof fn law_exact_entries(entry: PayloadEntry)
    requires
        match entry {
            PayloadEntry::HostTime(e) => e.time.is_whole_micros(),
            PayloadEntry::GhostTime(e) => e.time.is_whole_micros(),
            PayloadEntry::PrevGhostTime(e) => e.time.is_whole_micros(),
            PayloadEntry::SessionMembership(_) => true,
            PayloadEntry::MeasurementEndpointV4(e) => e.endpoint is Some,
        },
    ensures
        entry.on_wire() == entry,
{
}

/// Writing entries again takes no more bytes than they were read from.
pub proof fn law_reencoding_no_longer(bytes: Seq<u8>)
    requires
        entries_of(bytes) is Ok,
    ensures
        entries_encoding(entries_of(bytes)->Ok_0).len() <= bytes.len(),
    decreases bytes.len(),
{
    if bytes.len() > 0 {
        let (header, _) = PayloadEntryHeader::decoding(bytes)->Some_0;
        let value = bytes.subrange(8, 8 + header.size);
        let rest = bytes.skip(8 + header.size);
        law_reencoding_no_longer(rest);
        if let Some(entry) = entry_of(header.key, value)->Ok_0 {
            let later = entries_of(rest)->Ok_0;
            let entries = seq![entry] + later;
            entry.lemma_value_len();
            lemma_encoding_front(entries);
            assert(entries.drop_first() == later);
        }
    }
}

/// Entries that were read come back unchanged where they are written and read
/// again.
pub proof fn law_read_entries_exact(bytes: Seq<u8>)
    requires
        entries_of(bytes) is Ok,
    ensures
        forall|i: int|
            0 <= i < entries_of(bytes)->Ok_0.len() ==> (#[trigger] entries_of(
                bytes,
            )->Ok_0[i]).on_wire() == entries_of(bytes)->Ok_0[i],
    decreases bytes.len(),
{
    broadcast use Duration::lemma_of_micros;

    if bytes.len() > 0 {
        let (header, _) = PayloadEntryHeader::decoding(bytes)->Some_0;
        let value = bytes.subrange(8, 8 + header.size);
        let rest = bytes.skip(8 + header.size);
        law_read_entries_exact(rest);
        if let Some(entry) = entry_of(header.key, value)->Ok_0 {
            assert(entry.on_wire() == entry);
            let later = entries_of(rest)->Ok_0;
            assert forall|i: int| 0 <= i < (seq![entry] + later).len() implies (#[trigger] (
            seq![entry] + later)[i]).on_wire() == (seq![entry] + later)[i] by {
                if i > 0 {
                    assert((seq![entry] + later)[i] == later[i - 1]);
                }
            }
        }
    }
}

} // verus!
