//! Measuring the clock of a session against the clock of this host.

use crate::duration::{in_range, num_micros, num_micros_or_zero, Duration};
use crate::encoding::{
    encode_to_vec, law_unsigned_roundtrip, lemma_be_bytes_len, Decode, DecodeError, Encode,
};
use crate::link::error::Error;
use crate::link::ghostxform::GhostXForm;
use crate::link::node::NodeId;
use crate::link::payload::{
    entries_encoding, entries_of, entries_on_wire, law_payload_roundtrip, law_read_entries_exact,
    parse_payload, time_on_wire, GhostTime, HostTime, Payload, PayloadEntry, PayloadEntryHeader, PrevGhostTime,
};
use crate::link::peers::PeerState;
use crate::link::pingresponder::{
    echoed, encode_message, has_message_header, is_answered, law_message_parts, law_pong_readable,
    message, message_type_of, parse_message_header, payload_of, pong, pong_entries,
    starts_with_protocol_header, PingResponder,
    MAX_MESSAGE_SIZE, MESSAGE_HEADER_SIZE, PING, PONG, PROTOCOL_HEADER_SIZE,
};
use crate::link::sessions::{SessionId, SessionMembership};
use std::collections::HashMap;
use vstd::prelude::*;

verus! {

/// The key of a measurement endpoint entry: "mep4" in ASCII.
pub const MEASUREMENT_ENDPOINT_V4_HEADER_KEY: u32 = 0x6d657034;

/// The size of the value of a measurement endpoint entry: an address of four
/// bytes and a port of two.
pub const MEASUREMENT_ENDPOINT_V4_SIZE: u32 = 6;

/// The header of a measurement endpoint entry.
#[verifier::allow_in_spec]
pub fn measurement_endpoint_v4_header() -> PayloadEntryHeader
    returns
        (PayloadEntryHeader {
            key: MEASUREMENT_ENDPOINT_V4_HEADER_KEY,
            size: MEASUREMENT_ENDPOINT_V4_SIZE,
        }),
{
    PayloadEntryHeader {
        key: MEASUREMENT_ENDPOINT_V4_HEADER_KEY,
        size: MEASUREMENT_ENDPOINT_V4_SIZE,
    }
}

/// An IPv4 address with a port.
#[derive(Clone, Copy, Debug, PartialEq, Eq, Structural)]
pub struct SocketAddrV4 {
    /// The four bytes of the address as a number, most significant first.
    pub ip: u32,
    pub port: u16,
}

/// Where a peer can be measured, if it can.
#[derive(Clone, Copy, Debug, PartialEq, Eq, Structural)]
pub struct MeasurementEndpointV4 {
    pub endpoint: Option<SocketAddrV4>,
}

impl MeasurementEndpointV4 {
    /// The address that is written: an absent endpoint is written as 0.0.0.0:0.
    pub open spec fn address(self) -> SocketAddrV4 {
        match self.endpoint {
            Some(address) => address,
            None => SocketAddrV4 { ip: 0, port: 0 },
        }
    }

    /// The whole entry: its header, then the address.
    pub fn encode(&self) -> (encoded: Result<Vec<u8>, Error>)
        ensures
            encoded matches Ok(bytes) && bytes@ == measurement_endpoint_v4_header().encoding()
                + self.encoding(),
    {
        let mut encoded: Vec<u8> = measurement_endpoint_v4_header().encode();
        encoded.append(&mut encode_to_vec(self));
        Ok(encoded)
    }
}

impl Encode for MeasurementEndpointV4 {
    open spec fn encoding(&self) -> Seq<u8> {
        self.address().ip.encoding() + self.address().port.encoding()
    }

    fn encode_to(&self, out: &mut Vec<u8>) {
        let address: SocketAddrV4 = match self.endpoint {
            Some(address) => address,
            None => SocketAddrV4 { ip: 0, port: 0 },
        };
        address.ip.encode_to(out);
        address.port.encode_to(out);
    }

    fn encoded_size(&self) -> usize {
        proof {
            lemma_be_bytes_len(self.address().ip as nat, 4);
            lemma_be_bytes_len(self.address().port as nat, 2);
        }
        6
    }
}

impl Decode for MeasurementEndpointV4 {
    open spec fn decoding(bytes: Seq<u8>) -> Option<(Self, nat)> {
        match (u32::decoding(bytes), u16::decoding(bytes.skip(4))) {
            (Some((ip, _)), Some((port, _))) => Some(
                (MeasurementEndpointV4 { endpoint: Some(SocketAddrV4 { ip, port }) }, 6),
            ),
            _ => None,
        }
    }

    fn decode_from(bytes: &[u8]) -> Result<(Self, usize), DecodeError> {
        let (ip, n1) = u32::decode_from(bytes)?;
        let (port, n2) = u16::decode_from(vstd::slice::slice_subrange(bytes, n1, bytes.len()))?;
        assert(bytes@.subrange(4, bytes@.len() as int) == bytes@.skip(4));
        Ok((MeasurementEndpointV4 { endpoint: Some(SocketAddrV4 { ip, port }) }, n1 + n2))
    }
}

/// Decoding what an endpoint was encoded to, whatever bytes follow, gives the
/// address that was written, with the size of its encoding: a present endpoint
/// comes back as it was, an absent one as 0.0.0.0:0.
pub proof fn law_endpoint_roundtrip(endpoint: MeasurementEndpointV4, rest: Seq<u8>)
    ensures
        MeasurementEndpointV4::decoding(endpoint.encoding() + rest) == Some(
            (MeasurementEndpointV4 { endpoint: Some(endpoint.address()) }, 6nat),
        ),
{
    let ip = endpoint.address().ip;
    let port = endpoint.address().port;
    lemma_be_bytes_len(ip as nat, 4);
    lemma_be_bytes_len(port as nat, 2);
    law_unsigned_roundtrip(0, port, ip, port.encoding() + rest);
    law_unsigned_roundtrip(0, port, ip, rest);
    assert(endpoint.encoding() + rest == ip.encoding() + (port.encoding() + rest));
    assert((endpoint.encoding() + rest).skip(4) == port.encoding() + rest);
}

/// More data points than this end a measurement.
pub const NUMBER_DATA_POINTS: usize = 20;

/// The pings that are sent before a measurement fails.
pub const NUMBER_MEASUREMENTS: usize = 5;

/// How often the timer of a measurement wakes, in milliseconds.
pub const TIMER_TICK_MILLIS: u64 = 50;

/// How long the timer waits after a ping before it counts it, in milliseconds.
pub const PING_INTERVAL_MILLIS: u64 = 1000;

/// What the measurement of peers is asked for and what it reports.
#[derive(Clone, Copy, Debug)]
pub enum MeasurePeerEvent {
    /// Measure this peer for this session.
    PeerState(SessionId, PeerState),
    /// The session was measured, with this result.
    XForm(SessionId, GhostXForm),
}

/// The address of a network interface.
#[derive(Clone, Copy, Debug, PartialEq, Eq, Structural)]
pub enum IpAddr {
    /// The four bytes of an IPv4 address as a number, most significant first.
    V4(u32),
    /// The sixteen bytes of an IPv6 address as a number, most significant first.
    V6(u128),
}

impl IpAddr {
    /// Whether the address is IPv4 and outside the loopback range 127.0.0.0/8.
    pub open spec fn is_routable_v4(self) -> bool {
        self matches IpAddr::V4(ip) && ip as int / 0x100_0000 != 127
    }
}

/// The first IPv4 address outside the loopback range.
pub fn first_routable_v4(interfaces: &Vec<IpAddr>) -> (found: Option<u32>)
    ensures
        match found {
            Some(ip) => exists|i: int|
                {
                    &&& 0 <= i < interfaces@.len()
                    &&& #[trigger] interfaces@[i] == IpAddr::V4(ip)
                    &&& interfaces@[i].is_routable_v4()
                    &&& forall|j: int| 0 <= j < i ==> !(#[trigger] interfaces@[j]).is_routable_v4()
                },
            None => forall|j: int|
                0 <= j < interfaces@.len() ==> !(#[trigger] interfaces@[j]).is_routable_v4(),
        },
{
    let mut i: usize = 0;
    while i < interfaces.len()
        invariant
            i <= interfaces@.len(),
            forall|j: int| 0 <= j < i ==> !(#[trigger] interfaces@[j]).is_routable_v4(),
        decreases interfaces@.len() - i,
    {
        if let IpAddr::V4(ip) = interfaces[i] {
            if ip / 0x100_0000 != 127 {
                assert(interfaces@[i as int] == IpAddr::V4(ip));
                return Some(ip);
            }
        }
        i += 1;
    }
    None
}

/// What one pong tells of the difference between the clock of the session and
/// that of this host, in microseconds. A difference is that of a session time and
/// a host time, one of which is the mean of two readings and is given by their
/// sum.
#[derive(Clone, Copy, Debug, PartialEq, Eq, Structural)]
pub enum DataPoint {
    /// At the mean host time `host_sum / 2` the session time was `ghost_time`.
    HostMean { host_sum: i64, ghost_time: i64 },
    /// At host time `host_time` the mean session time was `ghost_sum / 2`.
    GhostMean { host_time: i64, ghost_sum: i64 },
}

/// What a pong says.
#[derive(Clone, Copy, Debug, PartialEq, Eq, Structural)]
pub struct PongReading {
    /// The session of the node that answered.
    pub session_id: SessionId,
    /// The session time when it answered.
    pub ghost_time: Duration,
    /// The session time of the answer before.
    pub prev_ghost_time: Duration,
    /// The time of this host when it sent the ping.
    pub prev_host_time: Duration,
}

/// What a pong with these entries says: the last entry of a kind counts, and what
/// is missing is zero.
pub open spec fn pong_reading(entries: Seq<PayloadEntry>) -> PongReading
    decreases entries.len(),
{
    if entries.len() == 0 {
        PongReading {
            session_id: SessionId(NodeId(0)),
            ghost_time: Duration::of_micros(0),
            prev_ghost_time: Duration::of_micros(0),
            prev_host_time: Duration::of_micros(0),
        }
    } else {
        let before = pong_reading(entries.drop_last());
        match entries.last() {
            PayloadEntry::SessionMembership(entry) => PongReading {
                session_id: entry.session_id,
                ..before
            },
            PayloadEntry::GhostTime(entry) => PongReading { ghost_time: entry.time, ..before },
            PayloadEntry::PrevGhostTime(entry) => PongReading {
                prev_ghost_time: entry.time,
                ..before
            },
            PayloadEntry::HostTime(entry) => PongReading { prev_host_time: entry.time, ..before },
            _ => before,
        }
    }
}

/// Reads what a pong with these entries says.
fn read_pong(entries: &Vec<PayloadEntry>) -> (reading: PongReading)
    ensures
        reading == pong_reading(entries@),
{
    let mut session_id: SessionId = SessionId::default();
    let mut ghost_time: Duration = Duration::zero();
    let mut prev_ghost_time: Duration = Duration::zero();
    let mut prev_host_time: Duration = Duration::zero();
    let mut i: usize = 0;
    while i < entries.len()
        invariant
            i <= entries@.len(),
            pong_reading(entries@.take(i as int)) == (PongReading {
                session_id,
                ghost_time,
                prev_ghost_time,
                prev_host_time,
            }),
        decreases entries@.len() - i,
    {
        match entries[i] {
            PayloadEntry::SessionMembership(entry) => {
                session_id = entry.session_id;
            },
            PayloadEntry::GhostTime(entry) => {
                ghost_time = entry.time;
            },
            PayloadEntry::PrevGhostTime(entry) => {
                prev_ghost_time = entry.time;
            },
            PayloadEntry::HostTime(entry) => {
                prev_host_time = entry.time;
            },
            _ => {},
        }
        i += 1;
        assert(entries@.take(i as int).drop_last() == entries@.take(i - 1));
    }
    assert(entries@.take(i as int) == entries@);
    PongReading { session_id, ghost_time, prev_ghost_time, prev_host_time }
}

/// Whether a pong says enough for a data point.
pub open spec fn has_times(reading: PongReading) -> bool {
    reading.ghost_time != Duration::of_micros(0) && reading.prev_host_time != Duration::of_micros(
        0,
    )
}

/// The data points that a pong gives that arrives at `host_time`: one where it
/// has a session time and the time of the ping, and a second one where it also
/// has the session time of the answer before.
pub open spec fn data_points(reading: PongReading, host_time: Duration) -> Seq<DataPoint> {
    if !has_times(reading) {
        Seq::empty()
    } else {
        let first = DataPoint::HostMean {
            host_sum: num_micros_or_zero(host_time.nanos() + reading.prev_host_time.nanos()) as i64,
            ghost_time: reading.ghost_time.micros_or_zero() as i64,
        };
        if reading.prev_ghost_time == Duration::of_micros(0) {
            seq![first]
        } else {
            seq![
                first,
                DataPoint::GhostMean {
                    host_time: reading.prev_host_time.micros_or_zero() as i64,
                    ghost_sum: num_micros_or_zero(
                        reading.ghost_time.nanos() + reading.prev_ghost_time.nanos(),
                    ) as i64,
                },
            ]
        }
    }
}

/// The entries of the ping with which a measurement starts.
pub open spec fn first_ping_entries(host_time: Duration) -> Seq<PayloadEntry> {
    seq![PayloadEntry::HostTime(HostTime { time: host_time })]
}

/// The entries of the ping with which a pong is answered.
pub open spec fn next_ping_entries(host_time: Duration, ghost_time: Duration) -> Seq<
    PayloadEntry,
> {
    seq![
        PayloadEntry::HostTime(HostTime { time: host_time }),
        PayloadEntry::PrevGhostTime(PrevGhostTime { time: ghost_time }),
    ]
}

/// Two entries, or fewer, fit in a message.
proof fn lemma_ping_fits(entries: Seq<PayloadEntry>)
    requires
        entries.len() <= 2,
    ensures
        PROTOCOL_HEADER_SIZE + MESSAGE_HEADER_SIZE + entries_encoding(entries).len()
            <= MAX_MESSAGE_SIZE,
        entries_encoding(entries).len() <= 32,
{
    reveal_with_fuel(entries_encoding, 3);
    if entries.len() > 0 {
        entries.last().lemma_value_len();
        if entries.len() > 1 {
            entries.drop_last().last().lemma_value_len();
        }
    }
}

/// The ping with which a measurement starts, sent at `host_time`.
pub fn first_ping(host_time: Duration) -> (ping: Vec<u8>)
    ensures
        ping@ == message(PING, entries_encoding(first_ping_entries(host_time))),
{
    let mut entries: Vec<PayloadEntry> = Vec::new();
    entries.push(PayloadEntry::HostTime(HostTime { time: host_time }));
    ping_message(entries)
}

/// The ping with which a pong is answered at `host_time`.
fn next_ping(host_time: Duration, ghost_time: Duration) -> (ping: Vec<u8>)
    ensures
        ping@ == message(PING, entries_encoding(next_ping_entries(host_time, ghost_time))),
{
    let mut entries: Vec<PayloadEntry> = Vec::new();
    entries.push(PayloadEntry::HostTime(HostTime { time: host_time }));
    entries.push(PayloadEntry::PrevGhostTime(PrevGhostTime { time: ghost_time }));
    assert(entries@ == next_ping_entries(host_time, ghost_time));
    ping_message(entries)
}

/// The ping with these entries.
fn ping_message(entries: Vec<PayloadEntry>) -> (ping: Vec<u8>)
    requires
        entries@.len() <= 2,
    ensures
        ping@ == message(PING, entries_encoding(entries@)),
{
    let payload: Payload = Payload { entries };
    proof {
        lemma_ping_fits(payload.entries@);
    }
    match encode_message(PING, &payload) {
        Ok(ping) => ping,
        Err(_) => Vec::new(),
    }
}

/// What a measurement does with a datagram.
#[derive(Debug)]
pub enum PongOutcome {
    /// The measurement uses no more pongs; listen no more.
    Ended,
    /// The datagram is no proper message; drop it and listen on.
    Malformed(Error),
    /// The message is no pong; drop it and listen on.
    NotPong,
    /// The pong comes from another session; drop it and listen on.
    OtherSession,
    /// The pong was used. Send this ping; where the measurement is finished,
    /// report that and listen no more.
    Used { ping: Vec<u8>, finished: bool },
}

/// What the timer of a measurement waits for.
#[derive(Clone, Copy, Debug)]
pub enum TimerEvent {
    /// The timer woke at this host time.
    Tick(Duration),
    /// The ping went out.
    PingSent,
    /// The ping could not be sent.
    PingFailed,
    /// The time to wait after a ping is over.
    IntervalElapsed,
    /// The measurement finished.
    Finished,
}

/// What the timer of a measurement does next.
#[derive(Debug)]
pub enum TimerAction {
    /// Send this ping.
    SendPing(Vec<u8>),
    /// Wait for as long as a ping gets.
    WaitForInterval,
    /// Wait for the next tick.
    WaitForTick,
    /// Report these data points, none, which says that the measurement failed,
    /// and stop.
    ReportFailure(Vec<DataPoint>),
    /// Stop.
    Stop,
}

/// The measurement of one peer.
#[derive(Debug)]
pub struct Measurement {
    /// The session that the peer is in.
    pub session_id: SessionId,
    /// Where the peer is measured.
    pub measurement_endpoint: SocketAddrV4,
    /// The address of this host from which it is measured.
    pub local_ip: u32,
    /// The data points so far.
    pub data: Vec<DataPoint>,
    /// Whether the measurement still uses pongs.
    pub listening: bool,
    /// The pings that were sent by the timer and counted.
    pub measurements_started: usize,
    /// Whether the measurement succeeded.
    pub success: bool,
    /// The number of bytes that were sent of the first ping, or 0 where it was not
    /// sent or could not be sent.
    pub init_bytes_sent: usize,
}

/// Whether `datagram` is a proper pong from session `session_id`.
pub open spec fn is_pong_of(datagram: Seq<u8>, session_id: SessionId) -> bool {
    &&& has_message_header(datagram)
    &&& message_type_of(datagram) == PONG
    &&& entries_of(payload_of(datagram)) is Ok
    &&& reading_of(datagram).session_id == session_id
}

/// What the pong `datagram` says.
pub open spec fn reading_of(datagram: Seq<u8>) -> PongReading {
    pong_reading(entries_of(payload_of(datagram))->Ok_0)
}

/// What a measurement has of the pongs that arrived.
pub struct ListenState {
    pub data: Seq<DataPoint>,
    pub listening: bool,
}

/// A datagram, and the host time at which it arrives.
pub struct Arrival {
    pub datagram: Seq<u8>,
    pub host_time: Duration,
}

/// Whether a measurement of session `session_id` uses the datagram.
pub open spec fn is_used(state: ListenState, session_id: SessionId, arrival: Arrival) -> bool {
    state.listening && is_pong_of(arrival.datagram, session_id)
}

/// The data of a measurement of session `session_id` after a datagram.
pub open spec fn data_after(
    state: ListenState,
    session_id: SessionId,
    arrival: Arrival,
) -> Seq<DataPoint> {
    if is_used(state, session_id, arrival) {
        state.data + data_points(reading_of(arrival.datagram), arrival.host_time)
    } else {
        state.data
    }
}

/// Whether the datagram is the one with which a measurement of session
/// `session_id` finishes.
pub open spec fn finishes(state: ListenState, session_id: SessionId, arrival: Arrival) -> bool {
    &&& is_used(state, session_id, arrival)
    &&& data_after(state, session_id, arrival).len() > NUMBER_DATA_POINTS
}

/// What a measurement of session `session_id` has after a datagram. The one with
/// which it finishes is the last that it uses.
pub open spec fn after_arrival(
    state: ListenState,
    session_id: SessionId,
    arrival: Arrival,
) -> ListenState {
    ListenState {
        data: data_after(state, session_id, arrival),
        listening: state.listening && !finishes(state, session_id, arrival),
    }
}

/// What changes what a measurement has of the pongs that arrived.
pub enum ListenEvent {
    /// A datagram arrives.
    Arrives(Arrival),
    /// The data are taken, or dropped because the measurement failed.
    Emptied,
}

/// What a measurement of session `session_id` has after an event.
pub open spec fn after_event(
    state: ListenState,
    session_id: SessionId,
    event: ListenEvent,
) -> ListenState {
    match event {
        ListenEvent::Arrives(arrival) => after_arrival(state, session_id, arrival),
        ListenEvent::Emptied => ListenState { data: Seq::empty(), listening: state.listening },
    }
}

/// What a measurement of session `session_id` has after some events.
pub open spec fn after_events(
    state: ListenState,
    session_id: SessionId,
    events: Seq<ListenEvent>,
) -> ListenState
    decreases events.len(),
{
    if events.len() == 0 {
        state
    } else {
        after_event(
            after_events(state, session_id, events.drop_last()),
            session_id,
            events.last(),
        )
    }
}

/// Whether the `i`th of the events is a datagram that the measurement uses.
pub open spec fn is_used_at(
    state: ListenState,
    session_id: SessionId,
    events: Seq<ListenEvent>,
    i: int,
) -> bool {
    events[i] matches ListenEvent::Arrives(arrival) && is_used(
        after_events(state, session_id, events.take(i)),
        session_id,
        arrival,
    )
}

/// Whether the `i`th of the events is a datagram with which the measurement
/// finishes.
pub open spec fn finishes_at(
    state: ListenState,
    session_id: SessionId,
    events: Seq<ListenEvent>,
    i: int,
) -> bool {
    events[i] matches ListenEvent::Arrives(arrival) && finishes(
        after_events(state, session_id, events.take(i)),
        session_id,
        arrival,
    )
}

/// Whether the host times that a pong makes a measurement add up have a sum.
pub open spec fn has_host_sum(
    datagram: Seq<u8>,
    session_id: SessionId,
    host_time: Duration,
) -> bool {
    is_pong_of(datagram, session_id) && has_times(reading_of(datagram)) ==> in_range(
        host_time.nanos() + reading_of(datagram).prev_host_time.nanos(),
    )
}

/// The times of a pong that was read are whole microseconds.
pub(crate) proof fn lemma_reading_whole(entries: Seq<PayloadEntry>)
    requires
        forall|i: int| 0 <= i < entries.len() ==> (#[trigger] entries[i]).on_wire() == entries[i],
    ensures
        pong_reading(entries).ghost_time.is_whole_micros(),
        pong_reading(entries).prev_ghost_time.is_whole_micros(),
        pong_reading(entries).prev_host_time.is_whole_micros(),
    decreases entries.len(),
{
    if entries.len() == 0 {
        Duration::lemma_of_micros(0);
    } else {
        assert(entries.last().on_wire() == entries.last());
        assert forall|i: int| 0 <= i < entries.drop_last().len() implies (
        #[trigger] entries.drop_last()[i]).on_wire() == entries.drop_last()[i] by {
            assert(entries[i].on_wire() == entries[i]);
        }
        lemma_reading_whole(entries.drop_last());
    }
}

/// A whole number of microseconds is no more nanoseconds than 64 bits of
/// microseconds have.
proof fn lemma_whole_micros_bound(time: Duration)
    requires
        time.is_whole_micros(),
    ensures
        i64::MIN * 1_000 <= time.nanos() <= i64::MAX * 1_000,
{
    Duration::lemma_of_micros(time.micros_or_zero() as i64);
}

impl Measurement {
    /// A measurement of the peer `state` from one of the addresses `interfaces`
    /// of this host. There is none where the peer has no endpoint, or where this
    /// host has no address to measure from.
    pub fn new(state: &PeerState, interfaces: &Vec<IpAddr>) -> (measurement: Option<Self>)
        ensures
            measurement is Some <==> state.measurement_endpoint is Some && exists|i: int|
                0 <= i < interfaces@.len() && (#[trigger] interfaces@[i]).is_routable_v4(),
            measurement matches Some(m) ==> {
                &&& m.session_id == state.session_id()
                &&& m.measurement_endpoint == state.measurement_endpoint->Some_0
                &&& exists|i: int|
                    {
                        &&& 0 <= i < interfaces@.len()
                        &&& #[trigger] interfaces@[i] == IpAddr::V4(m.local_ip)
                        &&& interfaces@[i].is_routable_v4()
                        &&& forall|j: int|
                            0 <= j < i ==> !(#[trigger] interfaces@[j]).is_routable_v4()
                    }
                &&& m.data@.len() == 0
                &&& m.listening
                &&& m.measurements_started == 0
                &&& !m.success
                &&& m.init_bytes_sent == 0
            },
    {
        let measurement_endpoint: SocketAddrV4 = match state.measurement_endpoint {
            Some(endpoint) => endpoint,
            None => {
                return None;
            },
        };
        let local_ip: u32 = match first_routable_v4(interfaces) {
            Some(ip) => ip,
            None => {
                return None;
            },
        };
        Some(
            Measurement {
                session_id: state.session_id(),
                measurement_endpoint,
                local_ip,
                data: Vec::new(),
                listening: true,
                measurements_started: 0,
                success: false,
                init_bytes_sent: 0,
            },
        )
    }

    /// What the measurement has of the pongs that arrived.
    pub open spec fn listen_state(&self) -> ListenState {
        ListenState { data: self.data@, listening: self.listening }
    }

    /// Notes what became of the first ping: the number of bytes that were sent, or
    /// `None` where it could not be sent.
    pub fn first_ping_sent(&mut self, sent: Option<usize>)
        ensures
            final(self).init_bytes_sent == match sent {
                Some(bytes) => bytes,
                None => 0,
            },
            final(self).listen_state() == old(self).listen_state(),
            final(self).session_id == old(self).session_id,
            final(self).measurement_endpoint == old(self).measurement_endpoint,
            final(self).local_ip == old(self).local_ip,
            final(self).measurements_started == old(self).measurements_started,
            final(self).success == old(self).success,
    {
        self.init_bytes_sent = match sent {
            Some(bytes) => bytes,
            None => 0,
        };
    }

    /// Uses a datagram that arrives at `host_time`. A proper pong from the
    /// session that is measured gives its data points and is answered with a
    /// ping, and the one that gives more than `NUMBER_DATA_POINTS` in all is the
    /// last; everything else leaves the measurement as it is.
    pub fn use_pong(&mut self, datagram: &[u8], host_time: Duration) -> (outcome: PongOutcome)
        requires
            old(self).listening ==> has_host_sum(datagram@, old(self).session_id, host_time),
        ensures
            final(self).session_id == old(self).session_id,
            final(self).measurement_endpoint == old(self).measurement_endpoint,
            final(self).local_ip == old(self).local_ip,
            final(self).measurements_started == old(self).measurements_started,
            final(self).success == old(self).success,
            final(self).init_bytes_sent == old(self).init_bytes_sent,
            final(self).listen_state() == after_arrival(
                old(self).listen_state(),
                old(self).session_id,
                (Arrival { datagram: datagram@, host_time }),
            ),
            if !old(self).listening {
                outcome is Ended
            } else if datagram@.len() < PROTOCOL_HEADER_SIZE + MESSAGE_HEADER_SIZE {
                outcome matches PongOutcome::Malformed(error) && error.is_protocol(
                    "invalid message size"@,
                )
            } else if !starts_with_protocol_header(datagram@) {
                outcome matches PongOutcome::Malformed(error) && error.is_protocol(
                    "invalid protocol header"@,
                )
            } else if message_type_of(datagram@) != PONG {
                outcome is NotPong
            } else {
                match entries_of(payload_of(datagram@)) {
                    Err(error) => outcome == PongOutcome::Malformed(Error::Decode(error)),
                    Ok(_) => {
                        let reading = reading_of(datagram@);
                        if reading.session_id != old(self).session_id {
                            outcome is OtherSession
                        } else {
                            outcome matches PongOutcome::Used { ping, finished } && ping@
                                == message(
                                PING,
                                entries_encoding(
                                    next_ping_entries(host_time, reading.prev_ghost_time),
                                ),
                            ) && finished == finishes(
                                old(self).listen_state(),
                                old(self).session_id,
                                (Arrival { datagram: datagram@, host_time }),
                            )
                        }
                    },
                }
            },
    {
        if !self.listening {
            return PongOutcome::Ended;
        }
        let (header, header_len) = match parse_message_header(datagram) {
            Ok(parsed) => parsed,
            Err(error) => {
                return PongOutcome::Malformed(error);
            },
        };
        if header.message_type != PONG {
            return PongOutcome::NotPong;
        }
        let payload_bytes: &[u8] = vstd::slice::slice_subrange(
            datagram,
            header_len,
            datagram.len(),
        );
        assert(payload_bytes@ == payload_of(datagram@));
        let payload: Payload = match parse_payload(payload_bytes) {
            Ok(payload) => payload,
            Err(error) => {
                return PongOutcome::Malformed(Error::Decode(error));
            },
        };
        let reading: PongReading = read_pong(&payload.entries);
        if reading.session_id != self.session_id {
            return PongOutcome::OtherSession;
        }
        let ping: Vec<u8> = next_ping(host_time, reading.prev_ghost_time);
        let zero: Duration = Duration::zero();
        if reading.ghost_time != zero && reading.prev_host_time != zero {
            let host_sum: i64 = match host_time.checked_add(&reading.prev_host_time) {
                Some(sum) => sum.microseconds_or_zero(),
                None => 0,
            };
            self.data.push(
                DataPoint::HostMean {
                    host_sum,
                    ghost_time: reading.ghost_time.microseconds_or_zero(),
                },
            );
            if reading.prev_ghost_time != zero {
                proof {
                    law_read_entries_exact(payload_bytes@);
                    lemma_reading_whole(payload.entries@);
                    lemma_whole_micros_bound(reading.ghost_time);
                    lemma_whole_micros_bound(reading.prev_ghost_time);
                }
                let ghost_sum: i64 = match reading.ghost_time.checked_add(
                    &reading.prev_ghost_time,
                ) {
                    Some(sum) => sum.microseconds_or_zero(),
                    None => 0,
                };
                self.data.push(
                    DataPoint::GhostMean {
                        host_time: reading.prev_host_time.microseconds_or_zero(),
                        ghost_sum,
                    },
                );
            }
        }
        assert(self.data@ == old(self).data@ + data_points(reading, host_time));
        let finished: bool = self.data.len() > NUMBER_DATA_POINTS;
        self.listening = !finished;
        PongOutcome::Used { ping, finished }
    }

    /// What the timer does on an event. It sends a ping at every tick until
    /// `NUMBER_MEASUREMENTS` were counted; the tick after that fails the
    /// measurement and drops its data.
    pub fn timer_step(&mut self, event: TimerEvent) -> (action: TimerAction)
        requires
            event is IntervalElapsed ==> old(self).measurements_started < usize::MAX,
        ensures
            final(self).session_id == old(self).session_id,
            final(self).measurement_endpoint == old(self).measurement_endpoint,
            final(self).local_ip == old(self).local_ip,
            final(self).success == old(self).success,
            final(self).init_bytes_sent == old(self).init_bytes_sent,
            final(self).measurements_started == counted(old(self).measurements_started as int, event),
            final(self).listen_state() == if fails(
                old(self).measurements_started as int,
                event,
            ) {
                after_event(old(self).listen_state(), old(self).session_id, ListenEvent::Emptied)
            } else {
                old(self).listen_state()
            },
            match event {
                TimerEvent::Tick(host_time) => if sends_ping(
                    old(self).measurements_started as int,
                    event,
                ) {
                    action matches TimerAction::SendPing(ping) && ping@ == message(
                        PING,
                        entries_encoding(first_ping_entries(host_time)),
                    )
                } else {
                    action matches TimerAction::ReportFailure(data) && data@.len() == 0
                },
                TimerEvent::PingSent => action is WaitForInterval,
                TimerEvent::PingFailed => action is Stop,
                TimerEvent::IntervalElapsed => action is WaitForTick,
                TimerEvent::Finished => action is Stop,
            },
    {
        match event {
            TimerEvent::Tick(host_time) => {
                if self.measurements_started < NUMBER_MEASUREMENTS {
                    TimerAction::SendPing(first_ping(host_time))
                } else {
                    self.data.clear();
                    TimerAction::ReportFailure(Vec::new())
                }
            },
            TimerEvent::PingSent => TimerAction::WaitForInterval,
            TimerEvent::PingFailed => TimerAction::Stop,
            TimerEvent::IntervalElapsed => {
                self.measurements_started = self.measurements_started + 1;
                TimerAction::WaitForTick
            },
            TimerEvent::Finished => TimerAction::Stop,
        }
    }

    /// Ends the measurement with success and hands out its data.
    pub fn finish(&mut self) -> (data: Vec<DataPoint>)
        ensures
            data@ == old(self).data@,
            final(self).listen_state() == after_event(
                old(self).listen_state(),
                old(self).session_id,
                ListenEvent::Emptied,
            ),
            final(self).success,
            final(self).session_id == old(self).session_id,
            final(self).measurement_endpoint == old(self).measurement_endpoint,
            final(self).local_ip == old(self).local_ip,
            final(self).measurements_started == old(self).measurements_started,
            final(self).init_bytes_sent == old(self).init_bytes_sent,
    {
        self.success = true;
        let mut data: Vec<DataPoint> = Vec::new();
        std::mem::swap(&mut data, &mut self.data);
        data
    }
}

/// The number of counted pings after `event`.
pub open spec fn counted(started: int, event: TimerEvent) -> int {
    if event is IntervalElapsed {
        started + 1
    } else {
        started
    }
}

/// How the map to the clock of a session is worked out from data points.
#[derive(Clone, Copy, Debug, PartialEq, Eq, Structural)]
pub enum Estimate {
    /// There is no data: the measurement failed.
    Failed,
    /// There is too little data for a line: the slope is 1 and the intercept is
    /// the middle one of the offsets, the later one of two.
    MiddleOffset,
    /// A line is fitted. Where that has no finite intercept, the slope is 1 and
    /// the intercept is the median of the offsets.
    Regression,
}

/// How the map is worked out from this data.
pub fn estimate(data: &Vec<DataPoint>) -> (method: Estimate)
    ensures
        method == if data@.len() == 0 {
            Estimate::Failed
        } else if data@.len() < 3 {
            Estimate::MiddleOffset
        } else {
            Estimate::Regression
        },
{
    if data.len() == 0 {
        Estimate::Failed
    } else if data.len() < 3 {
        Estimate::MiddleOffset
    } else {
        Estimate::Regression
    }
}

/// What is reported of a measurement of `session_id` with this data, from which
/// `x_form` was worked out.
pub open spec fn result_event(
    session_id: SessionId,
    data: Seq<DataPoint>,
    x_form: GhostXForm,
) -> MeasurePeerEvent {
    MeasurePeerEvent::XForm(
        session_id,
        if data.len() == 0 {
            GhostXForm::unmeasured()
        } else {
            x_form
        },
    )
}

/// A measurement that its timer failed, which has no data, is reported as the map
/// that stands for the lack of a measurement, whatever was worked out.
pub proof fn law_failure_reported(session_id: SessionId, data: Seq<DataPoint>, x_form: GhostXForm)
    requires
        data.len() == 0,
    ensures
        result_event(session_id, data, x_form) matches MeasurePeerEvent::XForm(id, reported) && id
            == session_id && reported.same_map(GhostXForm::unmeasured()),
{
}

/// What is reported of a measurement with this data, from which `x_form` was
/// worked out: a measurement without data reports the map that stands for the
/// lack of a measurement.
pub fn measurement_result(session_id: SessionId, data: &Vec<DataPoint>, x_form: GhostXForm) -> (
    event: MeasurePeerEvent)
    ensures
        event == result_event(session_id, data@, x_form),
{
    if data.len() == 0 {
        MeasurePeerEvent::XForm(session_id, GhostXForm::default())
    } else {
        MeasurePeerEvent::XForm(session_id, x_form)
    }
}

/// The measurements of a node, and the node as others measure it.
#[derive(Debug)]
pub struct MeasurementService {
    /// The measurements that have no result yet, by the number of the node that
    /// is measured.
    pub measurement_map: HashMap<u64, Measurement>,
    pub ping_responder: PingResponder,
}

impl MeasurementService {
    /// The measurements that have no result yet, by the node that is measured.
    pub open spec fn pending(&self) -> Map<u64, Measurement> {
        self.measurement_map@
    }

    /// A node in this session, with this map to its clock, that measures nobody.
    pub fn new(session_id: SessionId, ghost_x_form: GhostXForm) -> (service: MeasurementService)
        ensures
            service.pending() == Map::<u64, Measurement>::empty(),
            service.ping_responder.session_id == session_id,
            service.ping_responder.ghost_x_form == ghost_x_form,
    {
        MeasurementService {
            measurement_map: HashMap::new(),
            ping_responder: PingResponder::new(session_id, ghost_x_form),
        }
    }

    /// Moves the node to another session and map.
    pub fn update_node_state(&mut self, session_id: SessionId, x_form: GhostXForm)
        ensures
            final(self).pending() == old(self).pending(),
            final(self).ping_responder.session_id == session_id,
            final(self).ping_responder.ghost_x_form == x_form,
    {
        self.ping_responder.update_node_state(session_id, x_form);
    }

    /// Notes that the node `node_id` is measured, in place of any earlier
    /// measurement of it.
    pub fn measurement_begun(&mut self, node_id: NodeId, measurement: Measurement)
        ensures
            final(self).pending() == old(self).pending().insert(node_id.0, measurement),
            final(self).ping_responder == old(self).ping_responder,
    {
        self.measurement_map.insert(node_id.0, measurement);
    }

    /// Notes that the measurement of the node `node_id` was reported.
    pub fn measurement_reported(&mut self, node_id: NodeId)
        ensures
            final(self).pending() == old(self).pending().remove(node_id.0),
            final(self).ping_responder == old(self).ping_responder,
    {
        self.measurement_map.remove(&node_id.0);
    }
}

/// Whether the timer sends a ping on `event` after `started` were counted.
pub open spec fn sends_ping(started: int, event: TimerEvent) -> bool {
    event is Tick && started < NUMBER_MEASUREMENTS
}

/// Whether the timer fails the measurement on `event` after `started` pings were
/// counted.
pub open spec fn fails(started: int, event: TimerEvent) -> bool {
    event is Tick && started >= NUMBER_MEASUREMENTS
}

/// The number of counted pings after `rounds` rounds of the timer of a new
/// measurement, in each of which it wakes, its ping goes out, and the time to
/// wait after a ping is over.
pub open spec fn counted_after(rounds: nat, host_time: Duration) -> int
    decreases rounds,
{
    if rounds == 0 {
        0
    } else {
        let started = counted_after((rounds - 1) as nat, host_time);
        counted(
            counted(counted(started, TimerEvent::Tick(host_time)), TimerEvent::PingSent),
            TimerEvent::IntervalElapsed,
        )
    }
}

/// A timer that nothing stops sends a ping in each of its first
/// `NUMBER_MEASUREMENTS` rounds and fails the measurement when it wakes next.
pub proof fn law_timer(round: nat, host_time: Duration)
    requires
        round <= NUMBER_MEASUREMENTS,
    ensures
        counted_after(round, host_time) == round,
        round < NUMBER_MEASUREMENTS ==> sends_ping(
            counted_after(round, host_time),
            TimerEvent::Tick(host_time),
        ),
        round == NUMBER_MEASUREMENTS ==> fails(
            counted_after(round, host_time),
            TimerEvent::Tick(host_time),
        ),
    decreases round,
{
    if round > 0 {
        law_timer((round - 1) as nat, host_time);
    }
}

/// A round of the timer in which it sends a ping leaves no more than
/// `NUMBER_MEASUREMENTS` pings counted.
pub proof fn law_count_bounded(started: int, host_time: Duration)
    requires
        sends_ping(started, TimerEvent::Tick(host_time)),
    ensures
        counted(
            counted(counted(started, TimerEvent::Tick(host_time)), TimerEvent::PingSent),
            TimerEvent::IntervalElapsed,
        ) <= NUMBER_MEASUREMENTS,
{
}

/// A pong gives two data points at most.
pub proof fn law_points_per_pong(reading: PongReading, host_time: Duration)
    ensures
        data_points(reading, host_time).len() <= 2,
{
}

/// A measurement with at most `NUMBER_DATA_POINTS` data points finishes on the
/// datagram that brings it above that, with one or two more, and then uses no more
/// pongs; on no other datagram does it finish.
pub proof fn law_finish(state: ListenState, session_id: SessionId, arrival: Arrival)
    requires
        state.data.len() <= NUMBER_DATA_POINTS,
    ensures
        ({
            let after = after_arrival(state, session_id, arrival);
            let finished = finishes(state, session_id, arrival);
            &&& finished <==> after.data.len() == NUMBER_DATA_POINTS + 1 || after.data.len()
                == NUMBER_DATA_POINTS + 2
            &&& finished <==> after.data.len() > NUMBER_DATA_POINTS
            &&& finished ==> !after.listening
            &&& !finished ==> after.listening == state.listening
        }),
{
}

/// A measurement that uses no more pongs uses none later, and gets no more data.
proof fn lemma_ended_stays(
    state: ListenState,
    session_id: SessionId,
    events: Seq<ListenEvent>,
    i: int,
    k: int,
)
    requires
        0 <= i <= k <= events.len(),
        !after_events(state, session_id, events.take(i)).listening,
    ensures
        ({
            let ended = after_events(state, session_id, events.take(i));
            let later = after_events(state, session_id, events.take(k));
            &&& !later.listening
            &&& later.data == ended.data || later.data.len() == 0
        }),
    decreases k,
{
    if i < k {
        lemma_ended_stays(state, session_id, events, i, k - 1);
        assert(events.take(k).drop_last() == events.take(k - 1));
    }
}

/// A measurement that starts with at most `NUMBER_DATA_POINTS` data points and
/// still uses pongs has at most as many.
proof fn lemma_listening_bound(
    state: ListenState,
    session_id: SessionId,
    events: Seq<ListenEvent>,
    i: int,
)
    requires
        state.data.len() <= NUMBER_DATA_POINTS,
        0 <= i <= events.len(),
    ensures
        ({
            let after = after_events(state, session_id, events.take(i));
            after.listening ==> after.data.len() <= NUMBER_DATA_POINTS
        }),
    decreases i,
{
    if i > 0 {
        lemma_listening_bound(state, session_id, events, i - 1);
        assert(events.take(i).drop_last() == events.take(i - 1));
    }
}

/// A measurement that starts with at most `NUMBER_DATA_POINTS` data points
/// finishes at most once, whatever happens: where it finishes on the `i`th event,
/// it had at most that many points before and has one or two more than that after,
/// it finishes on no other event, it uses no later datagram, and it gets no more
/// data.
pub proof fn law_finishes_once(
    state: ListenState,
    session_id: SessionId,
    events: Seq<ListenEvent>,
    i: int,
)
    requires
        state.data.len() <= NUMBER_DATA_POINTS,
        0 <= i < events.len(),
        finishes_at(state, session_id, events, i),
    ensures
        after_events(state, session_id, events.take(i)).data.len() <= NUMBER_DATA_POINTS,
        NUMBER_DATA_POINTS < after_events(state, session_id, events.take(i + 1)).data.len()
            <= NUMBER_DATA_POINTS + 2,
        forall|j: int|
            0 <= j < events.len() && j != i ==> !#[trigger] finishes_at(
                state,
                session_id,
                events,
                j,
            ),
        forall|j: int|
            i < j < events.len() ==> !#[trigger] is_used_at(state, session_id, events, j),
        forall|k: int|
            i < k <= events.len() ==> {
                let later = after_events(state, session_id, #[trigger] events.take(k)).data;
                later == after_events(state, session_id, events.take(i + 1)).data || later.len()
                    == 0
            },
{
    lemma_listening_bound(state, session_id, events, i);
    assert(events.take(i + 1).drop_last() == events.take(i));
    assert forall|k: int| i < k <= events.len() implies {
        let later = after_events(state, session_id, #[trigger] events.take(k));
        &&& !later.listening
        &&& later.data == after_events(state, session_id, events.take(i + 1)).data
            || later.data.len() == 0
    } by {
        lemma_ended_stays(state, session_id, events, i + 1, k);
    }
    assert forall|j: int| 0 <= j < events.len() && j != i implies !#[trigger] finishes_at(
        state,
        session_id,
        events,
        j,
    ) by {
        if j < i && finishes_at(state, session_id, events, j) {
            assert(events.take(j + 1).drop_last() == events.take(j));
            lemma_ended_stays(state, session_id, events, j + 1, i);
        }
    }
}

/// Where the host time fits in 64 bits of microseconds, no datagram asks for a
/// sum of host times that does not exist.
pub proof fn law_host_sum_exists(datagram: Seq<u8>, session_id: SessionId, host_time: Duration)
    requires
        num_micros(host_time.nanos()) is Some,
    ensures
        has_host_sum(datagram, session_id, host_time),
{
    if is_pong_of(datagram, session_id) {
        law_read_entries_exact(payload_of(datagram));
        lemma_reading_whole(entries_of(payload_of(datagram))->Ok_0);
        lemma_whole_micros_bound(reading_of(datagram).prev_host_time);
    }
}

/// The entries that are sent back of the first ping of a measurement.
proof fn lemma_first_ping_echoed(time: Duration)
    ensures
        echoed(first_ping_entries(time)) == first_ping_entries(time),
{
    reveal_with_fuel(Seq::filter, 2);
    let entries = first_ping_entries(time);
    assert(entries.drop_last() == Seq::<PayloadEntry>::empty());
    assert(echoed(entries) == entries);
}

/// The entries that are sent back of a later ping of a measurement.
proof fn lemma_next_ping_echoed(time: Duration, ghost_time: Duration)
    ensures
        echoed(next_ping_entries(time, ghost_time)) == next_ping_entries(time, ghost_time),
{
    reveal_with_fuel(Seq::filter, 3);
    let entries = next_ping_entries(time, ghost_time);
    assert(entries.drop_last() == first_ping_entries(time));
    assert(entries.drop_last().drop_last() == Seq::<PayloadEntry>::empty());
    assert(echoed(entries) == entries);
}

/// The first ping of a measurement, sent at `host_time`, is answered; the pong of
/// a node in session `session_id` at session time `ghost_time` is a pong of that
/// session which says just that: these two times, as they are on the wire, and no
/// earlier session time.
pub proof fn law_first_ping_measures(
    session_id: SessionId,
    host_time: Duration,
    ghost_time: Duration,
)
    ensures
        ({
            let ping = message(PING, entries_encoding(first_ping_entries(host_time)));
            let answer = pong(session_id, ping, ghost_time);
            &&& is_answered(ping)
            &&& is_pong_of(answer, session_id)
            &&& reading_of(answer) == PongReading {
                session_id,
                ghost_time: time_on_wire(ghost_time),
                prev_ghost_time: Duration::of_micros(0),
                prev_host_time: time_on_wire(host_time),
            }
        }),
{
    let sent = first_ping_entries(host_time);
    let seen = first_ping_entries(time_on_wire(host_time));
    let ping = message(PING, entries_encoding(sent));
    law_message_parts(PING, entries_encoding(sent));
    law_payload_roundtrip(sent);
    lemma_ping_fits(sent);
    assert(entries_on_wire(sent) == seen);
    lemma_first_ping_echoed(time_on_wire(host_time));
    law_pong_readable(session_id, ping, ghost_time);
    let back = entries_on_wire(pong_entries(session_id, seen, ghost_time));
    reveal_with_fuel(pong_reading, 4);
    lemma_on_wire_twice(host_time);
    assert(back == seen + seq![
        PayloadEntry::SessionMembership(SessionMembership { session_id }),
        PayloadEntry::GhostTime(GhostTime { time: time_on_wire(ghost_time) }),
    ]);
    assert(back.drop_last().drop_last() == seen);
    assert(seen.drop_last() == Seq::<PayloadEntry>::empty());
}

/// A later ping of a measurement, sent at `host_time` with the session time
/// `prev_ghost_time` of the answer before, is answered; the pong of a node in
/// session `session_id` at session time `ghost_time` is a pong of that session
/// which says just that: these three times, as they are on the wire.
pub proof fn law_next_ping_measures(
    session_id: SessionId,
    host_time: Duration,
    prev_ghost_time: Duration,
    ghost_time: Duration,
)
    ensures
        ({
            let ping = message(
                PING,
                entries_encoding(next_ping_entries(host_time, prev_ghost_time)),
            );
            let answer = pong(session_id, ping, ghost_time);
            &&& is_answered(ping)
            &&& is_pong_of(answer, session_id)
            &&& reading_of(answer) == PongReading {
                session_id,
                ghost_time: time_on_wire(ghost_time),
                prev_ghost_time: time_on_wire(prev_ghost_time),
                prev_host_time: time_on_wire(host_time),
            }
        }),
{
    let sent = next_ping_entries(host_time, prev_ghost_time);
    let seen = next_ping_entries(time_on_wire(host_time), time_on_wire(prev_ghost_time));
    let ping = message(PING, entries_encoding(sent));
    law_message_parts(PING, entries_encoding(sent));
    law_payload_roundtrip(sent);
    lemma_ping_fits(sent);
    assert(entries_on_wire(sent) == seen);
    lemma_next_ping_echoed(time_on_wire(host_time), time_on_wire(prev_ghost_time));
    law_pong_readable(session_id, ping, ghost_time);
    let back = entries_on_wire(pong_entries(session_id, seen, ghost_time));
    reveal_with_fuel(pong_reading, 5);
    lemma_on_wire_twice(host_time);
    lemma_on_wire_twice(prev_ghost_time);
    assert(back == seen + seq![
        PayloadEntry::SessionMembership(SessionMembership { session_id }),
        PayloadEntry::GhostTime(GhostTime { time: time_on_wire(ghost_time) }),
    ]);
    assert(back.drop_last().drop_last() == seen);
    assert(seen.drop_last() == first_ping_entries(time_on_wire(host_time)));
    assert(seen.drop_last().drop_last() == Seq::<PayloadEntry>::empty());
}

/// A time that came off the wire is put on it unchanged.
proof fn lemma_on_wire_twice(time: Duration)
    ensures
        time_on_wire(time_on_wire(time)) == time_on_wire(time),
{
    Duration::lemma_of_micros(time.micros_or_zero() as i64);
}

} // verus!
