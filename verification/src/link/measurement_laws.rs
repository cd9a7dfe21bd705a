//! What the operations of a measurement give for what they are given.
//!
//! As in [`session_laws`](crate::link::session_laws), a law speaks of calls.

use crate::duration::{lemma_num_micros_bounds, Duration};
use crate::encoding::DecodeError;
use crate::link::error::Error;
use crate::link::ghostxform::GhostXForm;
use crate::link::measurement::{
    estimate, first_ping, first_ping_entries, first_routable_v4, is_pong_of,
    law_first_ping_measures, law_next_ping_measures, lemma_reading_whole, measurement_result,
    next_ping_entries, pong_reading, reading_of, DataPoint, Estimate, IpAddr, MeasurePeerEvent,
    Measurement, MeasurementService, PongOutcome, TimerAction, TimerEvent, PING_INTERVAL_MILLIS,
    TIMER_TICK_MILLIS,
};
use crate::link::message_laws::lemma_protocol_header;
use crate::link::node::NodeId;
use crate::link::payload::{
    entries_encoding, entries_of, entries_on_wire, law_payload_roundtrip, law_read_entries_exact,
    parse_payload, time_on_wire, HostTime, Payload, PayloadEntry, PrevGhostTime,
};
use crate::link::peers::PeerState;
use crate::link::pingresponder::{
    encode_message, law_message_parts, message, payload_of, PingReply, PingResponder, PING,
};
use crate::link::sessions::SessionId;
use vstd::prelude::*;

verus! {

/// A measurement with at least one data point, as every finished one has, is
/// reported as the map that was worked out, for the session that was measured. One
/// without is reported as the map for a failure, which takes every time to zero.
pub proof fn law_measurement_result(
    session_id: SessionId,
    data: &Vec<DataPoint>,
    x_form: GhostXForm,
    event: MeasurePeerEvent,
)
    requires
        call_ensures(measurement_result, (session_id, data, x_form), event),
    ensures
        event matches MeasurePeerEvent::XForm(id, reported) && {
            &&& id == session_id
            &&& data@.len() > 0 ==> reported == x_form
            &&& data@.len() == 0 ==> reported.slope.bits == 0 && reported.intercept.nanos() == 0
        },
{
    Duration::lemma_of_micros(0);
}

/// A line is fitted to three data points or more, the middle offset is taken of
/// one or two, and no data points are a failure.
pub proof fn law_estimate(data: &Vec<DataPoint>, method: Estimate)
    requires
        call_ensures(estimate, (data,), method),
    ensures
        method is Regression <==> data@.len() >= 3,
        method is MiddleOffset <==> data@.len() == 1 || data@.len() == 2,
        method is Failed <==> data@.len() == 0,
{
}

/// The address to measure from is the first IPv4 address that does not start with
/// the byte 127; there is none just where there is no such address.
pub proof fn law_first_routable(interfaces: &Vec<IpAddr>, found: Option<u32>)
    requires
        call_ensures(first_routable_v4, (interfaces,), found),
    ensures
        match found {
            Some(ip) => {
                &&& !(0x7f00_0000 <= ip <= 0x7fff_ffff)
                &&& exists|i: int|
                    {
                        &&& 0 <= i < interfaces@.len()
                        &&& #[trigger] interfaces@[i] == IpAddr::V4(ip)
                        &&& forall|j: int|
                            0 <= j < i ==> (#[trigger] interfaces@[j] matches IpAddr::V4(other)
                                ==> 0x7f00_0000 <= other <= 0x7fff_ffff)
                    }
            },
            None => forall|j: int|
                0 <= j < interfaces@.len() ==> (#[trigger] interfaces@[j] matches IpAddr::V4(
                    other,
                ) ==> 0x7f00_0000 <= other <= 0x7fff_ffff),
        },
{
}

/// A peer is measured just where it says where it can be measured and this host
/// has an address to measure from. The measurement is of the session of the peer
/// and of that endpoint, and nothing happened in it yet.
pub proof fn law_new_measurement(
    state: &PeerState,
    interfaces: &Vec<IpAddr>,
    measurement: Option<Measurement>,
)
    requires
        call_ensures(Measurement::new, (state, interfaces), measurement),
    ensures
        measurement is Some <==> state.measurement_endpoint is Some && exists|i: int|
            0 <= i < interfaces@.len() && (#[trigger] interfaces@[i] matches IpAddr::V4(ip) && !(
            0x7f00_0000 <= ip <= 0x7fff_ffff)),
        measurement matches Some(m) ==> {
            &&& m.session_id == state.node_state.session_id
            &&& state.measurement_endpoint == Some(m.measurement_endpoint)
            &&& !(0x7f00_0000 <= m.local_ip <= 0x7fff_ffff)
            &&& exists|i: int|
                {
                    &&& 0 <= i < interfaces@.len()
                    &&& #[trigger] interfaces@[i] == IpAddr::V4(m.local_ip)
                    &&& forall|j: int|
                        0 <= j < i ==> (#[trigger] interfaces@[j] matches IpAddr::V4(other)
                            ==> 0x7f00_0000 <= other <= 0x7fff_ffff)
                }
            &&& m.data@.len() == 0
            &&& m.listening
            &&& m.measurements_started == 0
            &&& !m.success
            &&& m.init_bytes_sent == 0
        },
{
    if state.measurement_endpoint is Some {
        if measurement is Some {
            let i = choose|i: int|
                0 <= i < interfaces@.len() && (#[trigger] interfaces@[i]).is_routable_v4();
            assert(interfaces@[i] is V4);
        } else {
            assert forall|i: int| 0 <= i < interfaces@.len() implies !(
            #[trigger] interfaces@[i]).is_routable_v4() by {}
        }
    }
}

/// The times of a pong whose payload is read as `read` are those of its last
/// entries of each kind, of which the entry at `k` may be one; where there is no
/// entry of a kind, the time is zero, and the session is the one of number zero.
pub proof fn law_reading(datagram: Seq<u8>, body: &[u8], read: Payload, k: int)
    requires
        body@ == datagram.skip(9),
        call_ensures(parse_payload, (body,), Ok(read)),
        0 <= k < read.entries@.len(),
    ensures
        ({
            let reading = reading_of(datagram);
            let e = read.entries@;
            &&& e[k] matches PayloadEntry::GhostTime(entry) ==> (forall|l: int|
                k < l < e.len() ==> !(#[trigger] e[l] is GhostTime)) ==> reading.ghost_time
                == entry.time
            &&& e[k] matches PayloadEntry::PrevGhostTime(entry) ==> (forall|l: int|
                k < l < e.len() ==> !(#[trigger] e[l] is PrevGhostTime))
                ==> reading.prev_ghost_time == entry.time
            &&& e[k] matches PayloadEntry::HostTime(entry) ==> (forall|l: int|
                k < l < e.len() ==> !(#[trigger] e[l] is HostTime)) ==> reading.prev_host_time
                == entry.time
            &&& e[k] matches PayloadEntry::SessionMembership(entry) ==> (forall|l: int|
                k < l < e.len() ==> !(#[trigger] e[l] is SessionMembership))
                ==> reading.session_id == entry.session_id
            &&& (forall|l: int| 0 <= l < e.len() ==> !(#[trigger] e[l] is GhostTime))
                ==> reading.ghost_time.nanos() == 0
            &&& (forall|l: int| 0 <= l < e.len() ==> !(#[trigger] e[l] is PrevGhostTime))
                ==> reading.prev_ghost_time.nanos() == 0
            &&& (forall|l: int| 0 <= l < e.len() ==> !(#[trigger] e[l] is HostTime))
                ==> reading.prev_host_time.nanos() == 0
            &&& (forall|l: int| 0 <= l < e.len() ==> !(#[trigger] e[l] is SessionMembership))
                ==> reading.session_id.0.0 == 0
        }),
{
    assert(payload_of(datagram) == body@);
    Duration::lemma_of_micros(0);
    lemma_reading_entries(read.entries@, k);
}

/// What entries say, entry by entry.
proof fn lemma_reading_entries(e: Seq<PayloadEntry>, k: int)
    ensures
        ({
            let reading = pong_reading(e);
            &&& 0 <= k < e.len() ==> {
                &&& e[k] matches PayloadEntry::GhostTime(entry) ==> (forall|l: int|
                    k < l < e.len() ==> !(#[trigger] e[l] is GhostTime)) ==> reading.ghost_time
                    == entry.time
                &&& e[k] matches PayloadEntry::PrevGhostTime(entry) ==> (forall|l: int|
                    k < l < e.len() ==> !(#[trigger] e[l] is PrevGhostTime))
                    ==> reading.prev_ghost_time == entry.time
                &&& e[k] matches PayloadEntry::HostTime(entry) ==> (forall|l: int|
                    k < l < e.len() ==> !(#[trigger] e[l] is HostTime))
                    ==> reading.prev_host_time == entry.time
                &&& e[k] matches PayloadEntry::SessionMembership(entry) ==> (forall|l: int|
                    k < l < e.len() ==> !(#[trigger] e[l] is SessionMembership))
                    ==> reading.session_id == entry.session_id
            }
            &&& (forall|l: int| 0 <= l < e.len() ==> !(#[trigger] e[l] is GhostTime))
                ==> reading.ghost_time == Duration::of_micros(0)
            &&& (forall|l: int| 0 <= l < e.len() ==> !(#[trigger] e[l] is PrevGhostTime))
                ==> reading.prev_ghost_time == Duration::of_micros(0)
            &&& (forall|l: int| 0 <= l < e.len() ==> !(#[trigger] e[l] is HostTime))
                ==> reading.prev_host_time == Duration::of_micros(0)
            &&& (forall|l: int| 0 <= l < e.len() ==> !(#[trigger] e[l] is SessionMembership))
                ==> reading.session_id == SessionId(NodeId(0))
        }),
    decreases e.len(),
{
    if e.len() > 0 {
        let front = e.drop_last();
        lemma_reading_entries(front, k);
        assert(e[e.len() - 1] == e.last());
        assert(forall|l: int| 0 <= l < front.len() ==> #[trigger] front[l] == e[l]);
    }
}

/// A datagram is used just where the measurement still listens, the datagram has
/// the header of a message and is of type 2, its payload `body` can be read, and it
/// comes from the session that is measured. What is not used is told apart in that
/// order and changes nothing. What is used leaves the data points so far where
/// they are, adds two at most, and ends the measurement just where there are then
/// more than twenty.
pub proof fn law_pong_told_apart(
    measurement: &mut Measurement,
    datagram: &[u8],
    host_time: Duration,
    outcome: PongOutcome,
    body: &[u8],
    read: Result<Payload, DecodeError>,
)
    requires
        call_ensures(Measurement::use_pong, (measurement, datagram, host_time), outcome),
        datagram@.len() >= 9 ==> body@ == datagram@.skip(9),
        call_ensures(parse_payload, (body,), read),
    ensures
        if !old(measurement).listening {
            outcome is Ended
        } else if datagram@.len() < 9 {
            outcome matches PongOutcome::Malformed(error) && error.is_protocol(
                "invalid message size"@,
            )
        } else if datagram@.take(8) != seq![0x5fu8, 0x6c, 0x69, 0x6e, 0x6b, 0x5f, 0x76, 1] {
            outcome matches PongOutcome::Malformed(error) && error.is_protocol(
                "invalid protocol header"@,
            )
        } else if datagram@[8] != 2 {
            outcome is NotPong
        } else if let Err(error) = read {
            outcome matches PongOutcome::Malformed(Error::Decode(e)) && e == error
        } else if reading_of(datagram@).session_id != old(measurement).session_id {
            outcome is OtherSession
        } else {
            outcome is Used
        },
        match outcome {
            PongOutcome::Used { ping, finished } => {
                let before = old(measurement).data@;
                let after = final(measurement).data@;
                &&& before.len() <= after.len() <= before.len() + 2
                &&& after.take(before.len() as int) == before
                &&& finished <==> after.len() > 20
                &&& final(measurement).listening == !finished
            },
            _ => {
                &&& final(measurement).data@ == old(measurement).data@
                &&& final(measurement).listening == old(measurement).listening
            },
        },
        final(measurement).session_id == old(measurement).session_id,
        final(measurement).measurement_endpoint == old(measurement).measurement_endpoint,
        final(measurement).local_ip == old(measurement).local_ip,
        final(measurement).measurements_started == old(measurement).measurements_started,
        final(measurement).success == old(measurement).success,
        final(measurement).init_bytes_sent == old(measurement).init_bytes_sent,
{
    lemma_protocol_header();
}

/// The data points that a pong gives, of which `reading_of` tells the times: none
/// where it lacks the session time or the time of the ping; else one for the mean
/// of the time of the ping and the time of its arrival, by their sum; and a second
/// one, where it has an earlier session time, for the mean of the two session
/// times, by their sum. All of it is in microseconds, and none are lost: a sum that
/// does not fit in 64 bits counts as 0, and of the time of arrival what is less
/// than a microsecond is cut off.
pub proof fn law_points_added(
    measurement: &mut Measurement,
    datagram: &[u8],
    host_time: Duration,
    ping: Vec<u8>,
    finished: bool,
)
    requires
        call_ensures(
            Measurement::use_pong,
            (measurement, datagram, host_time),
            PongOutcome::Used { ping, finished },
        ),
    ensures
        ({
            let reading = reading_of(datagram@);
            let before = old(measurement).data@;
            let after = final(measurement).data@;
            let n = before.len() as int;
            let host_nanos = host_time.nanos() + reading.prev_host_time.nanos();
            let ghost_nanos = reading.ghost_time.nanos() + reading.prev_ghost_time.nanos();
            if reading.ghost_time.nanos() == 0 || reading.prev_host_time.nanos() == 0 {
                after == before
            } else {
                &&& after.len() == n + if reading.prev_ghost_time.nanos() == 0 {
                    1int
                } else {
                    2
                }
                &&& after[n] matches DataPoint::HostMean { host_sum, ghost_time } && {
                    &&& ghost_time * 1_000 == reading.ghost_time.nanos()
                    &&& if host_nanos >= 9_223_372_036_854_775_808_000 || host_nanos
                        <= -9_223_372_036_854_775_809_000 {
                        host_sum == 0
                    } else {
                        &&& host_nanos % 1_000 == 0 ==> host_sum * 1_000 == host_nanos
                        &&& host_nanos >= 0 ==> host_sum * 1_000 <= host_nanos < host_sum * 1_000
                            + 1_000
                        &&& host_nanos <= 0 ==> host_sum * 1_000 - 1_000 < host_nanos <= host_sum
                            * 1_000
                    }
                }
                &&& reading.prev_ghost_time.nanos() != 0 ==> (after[n + 1] matches
                    DataPoint::GhostMean { host_time: at, ghost_sum } && {
                    &&& at * 1_000 == reading.prev_host_time.nanos()
                    &&& if ghost_nanos > i64::MAX * 1_000 || ghost_nanos < i64::MIN * 1_000 {
                        ghost_sum == 0
                    } else {
                        ghost_sum * 1_000 == ghost_nanos
                    }
                })
            }
        }),
{
    let reading = reading_of(datagram@);
    assert(is_pong_of(datagram@, old(measurement).session_id));
    law_read_entries_exact(payload_of(datagram@));
    lemma_reading_whole(entries_of(payload_of(datagram@))->Ok_0);
    Duration::lemma_of_micros(0);
    Duration::lemma_of_micros(reading.ghost_time.micros_or_zero() as i64);
    Duration::lemma_of_micros(reading.prev_ghost_time.micros_or_zero() as i64);
    Duration::lemma_of_micros(reading.prev_host_time.micros_or_zero() as i64);
    lemma_num_micros_bounds(host_time.nanos() + reading.prev_host_time.nanos());
    lemma_num_micros_bounds(reading.ghost_time.nanos() + reading.prev_ghost_time.nanos());
}

/// The ping with which a measurement starts is a message of type 1 whose payload
/// is read as the host time, in whole microseconds.
pub proof fn law_first_ping(
    host_time: Duration,
    ping: Vec<u8>,
    body: &[u8],
    read: Result<Payload, DecodeError>,
)
    requires
        call_ensures(first_ping, (host_time,), ping),
        body@ == ping@.skip(9),
        call_ensures(parse_payload, (body,), read),
    ensures
        ping@.len() >= 9,
        ping@.take(9) == seq![0x5fu8, 0x6c, 0x69, 0x6e, 0x6b, 0x5f, 0x76, 1, 1],
        read matches Ok(p) && p.entries@ == seq![
            PayloadEntry::HostTime(
                HostTime { time: Duration::of_micros(host_time.micros_or_zero()) },
            ),
        ],
{
    let entries = first_ping_entries(host_time);
    lemma_ping_read(entries, ping@);
    assert(entries_on_wire(entries) =~= first_ping_entries(time_on_wire(host_time)));
}

/// A ping is of type 1 and its payload is read as its entries.
proof fn lemma_ping_read(entries: Seq<PayloadEntry>, ping: Seq<u8>)
    requires
        ping == message(PING, entries_encoding(entries)),
    ensures
        ping.len() >= 9,
        ping.take(9) == seq![0x5fu8, 0x6c, 0x69, 0x6e, 0x6b, 0x5f, 0x76, 1, 1],
        entries_of(ping.skip(9)) == Ok::<Seq<PayloadEntry>, DecodeError>(entries_on_wire(entries)),
{
    law_message_parts(PING, entries_encoding(entries));
    law_payload_roundtrip(entries);
    lemma_protocol_header();
    assert(ping[8] == 1);
    assert(ping.take(9) =~= ping.take(8).push(ping[8]));
}

/// A pong that is used is answered with a message of type 1 whose payload is read
/// as the time of arrival, in whole microseconds, and the earlier session time
/// that the pong held.
pub proof fn law_next_ping(
    measurement: &mut Measurement,
    datagram: &[u8],
    host_time: Duration,
    ping: Vec<u8>,
    finished: bool,
    body: &[u8],
    read: Result<Payload, DecodeError>,
)
    requires
        call_ensures(
            Measurement::use_pong,
            (measurement, datagram, host_time),
            PongOutcome::Used { ping, finished },
        ),
        body@ == ping@.skip(9),
        call_ensures(parse_payload, (body,), read),
    ensures
        ping@.len() >= 9,
        ping@.take(9) == seq![0x5fu8, 0x6c, 0x69, 0x6e, 0x6b, 0x5f, 0x76, 1, 1],
        read matches Ok(p) && p.entries@ == seq![
            PayloadEntry::HostTime(
                HostTime { time: Duration::of_micros(host_time.micros_or_zero()) },
            ),
            PayloadEntry::PrevGhostTime(
                PrevGhostTime { time: reading_of(datagram@).prev_ghost_time },
            ),
        ],
{
    let prev = reading_of(datagram@).prev_ghost_time;
    let entries = next_ping_entries(host_time, prev);
    lemma_ping_read(entries, ping@);
    assert(is_pong_of(datagram@, old(measurement).session_id));
    law_read_entries_exact(payload_of(datagram@));
    lemma_reading_whole(entries_of(payload_of(datagram@))->Ok_0);
    assert(entries_on_wire(entries) =~= next_ping_entries(time_on_wire(host_time), prev));
}

/// The first ping of a measurement is answered, and the pong is used by a
/// measurement of the session of the node that answered. The ping being sent at
/// `sent` and its pong arriving at `arrived`, and the session time being `seen` in
/// between, all in microseconds, the data point has the sum of the two host times
/// and the session time.
pub proof fn law_exchange(
    measurement: &mut Measurement,
    responder: &PingResponder,
    sent: i64,
    seen: i64,
    arrived: i64,
    ping: Vec<u8>,
    ping_arrived: &[u8],
    reply: PingReply,
    pong_arrived: &[u8],
    outcome: PongOutcome,
)
    requires
        call_ensures(first_ping, (Duration::of_micros(sent as int),), ping),
        ping_arrived@ == ping@,
        call_ensures(
            PingResponder::respond,
            (responder, ping_arrived, Duration::of_micros(seen as int)),
            reply,
        ),
        reply matches PingReply::Pong(pong) ==> pong_arrived@ == pong@,
        call_ensures(
            Measurement::use_pong,
            (measurement, pong_arrived, Duration::of_micros(arrived as int)),
            outcome,
        ),
        old(measurement).listening,
        old(measurement).session_id == responder.session_id,
    ensures
        reply is Pong,
        outcome is Used,
        sent != 0 && seen != 0 && i64::MIN <= sent + arrived <= i64::MAX ==> final(
            measurement).data@ == old(measurement).data@.push(
            DataPoint::HostMean { host_sum: (sent + arrived) as i64, ghost_time: seen },
        ),
{
    broadcast use Duration::lemma_of_micros;

    let s = Duration::of_micros(sent as int);
    let g = Duration::of_micros(seen as int);
    Duration::lemma_of_micros(sent);
    Duration::lemma_of_micros(seen);
    Duration::lemma_of_micros(arrived);
    Duration::lemma_of_micros(0);
    law_first_ping_measures(responder.session_id, s, g);
    lemma_num_micros_bounds(sent * 1_000 + arrived * 1_000);
}

/// A ping that also holds the session time `before` of the answer before is
/// answered as well, and its pong gives a second data point: the time of the ping
/// with the sum of the two session times.
pub proof fn law_exchange_with_previous(
    measurement: &mut Measurement,
    responder: &PingResponder,
    sent: i64,
    before: i64,
    seen: i64,
    arrived: i64,
    payload: Payload,
    ping: Vec<u8>,
    ping_arrived: &[u8],
    reply: PingReply,
    pong_arrived: &[u8],
    outcome: PongOutcome,
)
    requires
        payload.entries@ == seq![
            PayloadEntry::HostTime(HostTime { time: Duration::of_micros(sent as int) }),
            PayloadEntry::PrevGhostTime(
                PrevGhostTime { time: Duration::of_micros(before as int) },
            ),
        ],
        call_ensures(encode_message, (1u8, &payload), Ok(ping)),
        ping_arrived@ == ping@,
        call_ensures(
            PingResponder::respond,
            (responder, ping_arrived, Duration::of_micros(seen as int)),
            reply,
        ),
        reply matches PingReply::Pong(pong) ==> pong_arrived@ == pong@,
        call_ensures(
            Measurement::use_pong,
            (measurement, pong_arrived, Duration::of_micros(arrived as int)),
            outcome,
        ),
        old(measurement).listening,
        old(measurement).session_id == responder.session_id,
    ensures
        reply is Pong,
        outcome is Used,
        sent != 0 && seen != 0 && before != 0 && i64::MIN <= sent + arrived <= i64::MAX
            && i64::MIN <= seen + before <= i64::MAX ==> final(measurement).data@ == old(
            measurement).data@.push(
            DataPoint::HostMean { host_sum: (sent + arrived) as i64, ghost_time: seen },
        ).push(DataPoint::GhostMean { host_time: sent, ghost_sum: (seen + before) as i64 }),
{
    let s = Duration::of_micros(sent as int);
    let p = Duration::of_micros(before as int);
    let g = Duration::of_micros(seen as int);
    Duration::lemma_of_micros(sent);
    Duration::lemma_of_micros(before);
    Duration::lemma_of_micros(seen);
    Duration::lemma_of_micros(arrived);
    Duration::lemma_of_micros(0);
    assert(payload.entries@ =~= next_ping_entries(s, p));
    law_next_ping_measures(responder.session_id, s, p, g);
    lemma_num_micros_bounds(sent * 1_000 + arrived * 1_000);
    lemma_num_micros_bounds(seen * 1_000 + before * 1_000);
}

/// A timer that wakes sends the ping with which a measurement starts while fewer
/// than five are counted; else the measurement fails, which drops its data and
/// reports none. A ping that went out is waited for and then counted. A ping that
/// could not be sent, and a measurement that finished, stop the timer. Nothing
/// else changes.
pub proof fn law_timer_step(
    measurement: &mut Measurement,
    event: TimerEvent,
    action: TimerAction,
    host_time: Duration,
    ping: Vec<u8>,
)
    requires
        call_ensures(Measurement::timer_step, (measurement, event), action),
        call_ensures(first_ping, (host_time,), ping),
    ensures
        event == TimerEvent::Tick(host_time) && old(measurement).measurements_started < 5 ==> (
        action matches TimerAction::SendPing(sent) && sent@ == ping@),
        event is Tick && old(measurement).measurements_started >= 5 ==> (
        action matches TimerAction::ReportFailure(data) && data@.len() == 0),
        event is PingSent ==> action is WaitForInterval,
        event is PingFailed ==> action is Stop,
        event is IntervalElapsed ==> action is WaitForTick,
        event is Finished ==> action is Stop,
        final(measurement).measurements_started == old(measurement).measurements_started
            + if event is IntervalElapsed {
            1int
        } else {
            0
        },
        if event is Tick && old(measurement).measurements_started >= 5 {
            final(measurement).data@.len() == 0
        } else {
            final(measurement).data@ == old(measurement).data@
        },
        final(measurement).listening == old(measurement).listening,
        final(measurement).session_id == old(measurement).session_id,
        final(measurement).measurement_endpoint == old(measurement).measurement_endpoint,
        final(measurement).local_ip == old(measurement).local_ip,
        final(measurement).success == old(measurement).success,
        final(measurement).init_bytes_sent == old(measurement).init_bytes_sent,
{
}

/// A measurement that ends with success hands out all its data and keeps none.
pub proof fn law_finish_hands_out(measurement: &mut Measurement, data: Vec<DataPoint>)
    requires
        call_ensures(Measurement::finish, (measurement,), data),
    ensures
        data@ == old(measurement).data@,
        final(measurement).data@.len() == 0,
        final(measurement).success,
        final(measurement).listening == old(measurement).listening,
        final(measurement).session_id == old(measurement).session_id,
        final(measurement).measurement_endpoint == old(measurement).measurement_endpoint,
        final(measurement).local_ip == old(measurement).local_ip,
        final(measurement).measurements_started == old(measurement).measurements_started,
        final(measurement).init_bytes_sent == old(measurement).init_bytes_sent,
{
}

/// What became of the first ping is noted, and nothing else changes.
pub proof fn law_first_ping_noted(measurement: &mut Measurement, sent: Option<usize>)
    requires
        call_ensures(Measurement::first_ping_sent, (measurement, sent), ()),
    ensures
        sent matches Some(bytes) ==> final(measurement).init_bytes_sent == bytes,
        sent is None ==> final(measurement).init_bytes_sent == 0,
        final(measurement).data@ == old(measurement).data@,
        final(measurement).listening == old(measurement).listening,
        final(measurement).session_id == old(measurement).session_id,
        final(measurement).measurement_endpoint == old(measurement).measurement_endpoint,
        final(measurement).local_ip == old(measurement).local_ip,
        final(measurement).measurements_started == old(measurement).measurements_started,
        final(measurement).success == old(measurement).success,
{
}

/// A measurement that begins is pending until it is reported; those of other nodes
/// stay as they are, and so does the node as others measure it.
pub proof fn law_pending(
    service: &mut MeasurementService,
    later: &mut MeasurementService,
    node_id: NodeId,
    measurement: Measurement,
    other: u64,
)
    requires
        call_ensures(MeasurementService::measurement_begun, (service, node_id, measurement), ()),
        call_ensures(MeasurementService::measurement_reported, (later, node_id), ()),
        other != node_id.0,
    ensures
        final(service).measurement_map@.contains_key(node_id.0),
        final(service).measurement_map@[node_id.0] == measurement,
        final(service).measurement_map@.contains_key(other) <==> old(
            service).measurement_map@.contains_key(other),
        old(service).measurement_map@.contains_key(other) ==> final(
            service).measurement_map@[other] == old(service).measurement_map@[other],
        final(service).ping_responder == old(service).ping_responder,
        !final(later).measurement_map@.contains_key(node_id.0),
        final(later).measurement_map@.contains_key(other) <==> old(
            later).measurement_map@.contains_key(other),
        old(later).measurement_map@.contains_key(other) ==> final(later).measurement_map@[other]
            == old(later).measurement_map@[other],
        final(later).ping_responder == old(later).ping_responder,
{
}

/// A node answers pings for the session and with the map that it was last given,
/// and being moved leaves its pending measurements alone.
pub proof fn law_node_moved(
    session_id: SessionId,
    x_form: GhostXForm,
    fresh: MeasurementService,
    service: &mut MeasurementService,
)
    requires
        call_ensures(MeasurementService::new, (session_id, x_form), fresh),
        call_ensures(MeasurementService::update_node_state, (service, session_id, x_form), ()),
    ensures
        fresh.measurement_map@.dom() == Set::<u64>::empty(),
        fresh.ping_responder.session_id == session_id,
        fresh.ping_responder.ghost_x_form == x_form,
        final(service).measurement_map@ == old(service).measurement_map@,
        final(service).ping_responder.session_id == session_id,
        final(service).ping_responder.ghost_x_form == x_form,
{
}

/// The timer of a measurement wakes twenty times a second and waits a second after
/// a ping.
pub proof fn law_timer_intervals()
    ensures
        TIMER_TICK_MILLIS * 20 == 1_000,
        PING_INTERVAL_MILLIS == 1_000,
{
}

} // verus!
