use link_session::duration::Duration;
use link_session::link::error::Error;
use link_session::link::ghostxform::{GhostXForm, Slope};
use link_session::link::measurement::{
    estimate, first_ping, first_routable_v4, measurement_result, DataPoint, Estimate, IpAddr,
    MeasurePeerEvent, Measurement, MeasurementService, PongOutcome, SocketAddrV4, TimerAction,
    TimerEvent, MEASUREMENT_ENDPOINT_V4_HEADER_KEY, NUMBER_DATA_POINTS, NUMBER_MEASUREMENTS,
};
use link_session::link::node::NodeId;
use link_session::link::payload::{
    parse_payload, GhostTime, HostTime, Payload, PayloadEntry, PrevGhostTime,
};
use link_session::link::peers::{NodeState, PeerState};
use link_session::link::pingresponder::{encode_message, PingReply, PingResponder, PING, PONG};
use link_session::link::sessions::{SessionId, SessionMembership};

const LOOPBACK: u32 = 0x7f00_0001;
const ADDRESS: u32 = 0xc0a8_0002;

fn micros(n: i64) -> Duration {
    Duration::microseconds(n)
}

fn session_id() -> SessionId {
    SessionId(NodeId::from_array([1, 2, 3, 4, 5, 6, 7, 8]))
}

fn state() -> PeerState {
    PeerState {
        node_state: NodeState { node_id: NodeId(3), session_id: session_id() },
        measurement_endpoint: Some(SocketAddrV4 { ip: 1, port: 2 }),
    }
}

fn measurement() -> Measurement {
    Measurement::new(&state(), &vec![IpAddr::V4(ADDRESS)]).unwrap()
}

fn pong(session_id: SessionId, host: i64, prev_ghost: i64, ghost: i64) -> Vec<u8> {
    let entries = vec![
        PayloadEntry::HostTime(HostTime { time: micros(host) }),
        PayloadEntry::PrevGhostTime(PrevGhostTime { time: micros(prev_ghost) }),
        PayloadEntry::SessionMembership(SessionMembership { session_id }),
        PayloadEntry::GhostTime(GhostTime { time: micros(ghost) }),
    ];
    encode_message(PONG, &Payload { entries }).unwrap()
}

#[test]
fn endpoint_key() {
    assert_eq!(MEASUREMENT_ENDPOINT_V4_HEADER_KEY, u32::from_be_bytes(*b"mep4"));
}

#[test]
fn first_routable_address_is_taken() {
    assert_eq!(first_routable_v4(&vec![]), None);
    assert_eq!(
        first_routable_v4(&vec![IpAddr::V6(9), IpAddr::V4(LOOPBACK), IpAddr::V4(0x7fff_ffff)]),
        None
    );
    assert_eq!(
        first_routable_v4(&vec![
            IpAddr::V6(9),
            IpAddr::V4(LOOPBACK),
            IpAddr::V4(ADDRESS),
            IpAddr::V4(5)
        ]),
        Some(ADDRESS)
    );
    assert_eq!(first_routable_v4(&vec![IpAddr::V4(0x8000_0000)]), Some(0x8000_0000));
    assert_eq!(first_routable_v4(&vec![IpAddr::V4(0x7eff_ffff)]), Some(0x7eff_ffff));
}

#[test]
fn measurement_needs_endpoint_and_address() {
    let mut silent = state();
    silent.measurement_endpoint = None;
    assert!(Measurement::new(&silent, &vec![IpAddr::V4(ADDRESS)]).is_none());
    assert!(Measurement::new(&state(), &vec![IpAddr::V4(LOOPBACK)]).is_none());
    let m = measurement();
    assert_eq!(m.session_id, session_id());
    assert_eq!(m.measurement_endpoint, SocketAddrV4 { ip: 1, port: 2 });
    assert_eq!(m.local_ip, ADDRESS);
    assert!(m.data.is_empty());
    assert!(m.listening);
    assert_eq!(m.measurements_started, 0);
    assert!(!m.success);
    assert_eq!(m.init_bytes_sent, 0);
}

#[test]
fn first_ping_is_noted() {
    let mut m = measurement();
    m.use_pong(&pong(session_id(), 100, 0, 70), micros(160));
    m.first_ping_sent(Some(25));
    assert_eq!(m.init_bytes_sent, 25);
    m.first_ping_sent(None);
    assert_eq!(m.init_bytes_sent, 0);
    assert_eq!(m.data, vec![DataPoint::HostMean { host_sum: 260, ghost_time: 70 }]);
    assert!(m.listening);
    assert_eq!(m.measurements_started, 0);
}

#[test]
fn first_ping_holds_the_host_time() {
    let entries = vec![PayloadEntry::HostTime(HostTime { time: micros(44) })];
    assert_eq!(first_ping(micros(44)), encode_message(PING, &Payload { entries }).unwrap());
}

#[test]
fn pong_gives_two_points_and_a_ping() {
    let mut m = measurement();
    match m.use_pong(&pong(session_id(), 100, 40, 70), micros(160)) {
        PongOutcome::Used { ping, finished } => {
            assert!(!finished);
            assert_eq!(
                parse_payload(&ping[9..]).unwrap().entries,
                vec![
                    PayloadEntry::HostTime(HostTime { time: micros(160) }),
                    PayloadEntry::PrevGhostTime(PrevGhostTime { time: micros(40) }),
                ]
            );
            assert_eq!(ping[8], PING);
        }
        other => panic!("{:?}", other),
    }
    assert_eq!(
        m.data,
        vec![
            DataPoint::HostMean { host_sum: 260, ghost_time: 70 },
            DataPoint::GhostMean { host_time: 100, ghost_sum: 110 },
        ]
    );
}

#[test]
fn pong_without_times_gives_no_points() {
    let mut m = measurement();
    let outcome = m.use_pong(&pong(session_id(), 0, 40, 70), micros(160));
    assert!(matches!(outcome, PongOutcome::Used { finished: false, .. }));
    let outcome = m.use_pong(&pong(session_id(), 100, 40, 0), micros(160));
    assert!(matches!(outcome, PongOutcome::Used { finished: false, .. }));
    assert!(m.data.is_empty());
    m.use_pong(&pong(session_id(), 100, 0, 70), micros(160));
    assert_eq!(m.data, vec![DataPoint::HostMean { host_sum: 260, ghost_time: 70 }]);
}

#[test]
fn sums_beyond_64_bits_count_as_zero() {
    let mut m = measurement();
    m.use_pong(&pong(session_id(), i64::MAX, i64::MAX, i64::MAX), micros(1));
    assert_eq!(
        m.data,
        vec![
            DataPoint::HostMean { host_sum: 0, ghost_time: i64::MAX },
            DataPoint::GhostMean { host_time: i64::MAX, ghost_sum: 0 },
        ]
    );
}

#[test]
fn last_entry_of_a_kind_counts() {
    let mut m = measurement();
    let entries = vec![
        PayloadEntry::SessionMembership(SessionMembership::default()),
        PayloadEntry::GhostTime(GhostTime { time: micros(1) }),
        PayloadEntry::HostTime(HostTime { time: micros(2) }),
        PayloadEntry::SessionMembership(SessionMembership { session_id: session_id() }),
        PayloadEntry::GhostTime(GhostTime { time: micros(3) }),
        PayloadEntry::HostTime(HostTime { time: micros(4) }),
    ];
    m.use_pong(&encode_message(PONG, &Payload { entries }).unwrap(), micros(6));
    assert_eq!(m.data, vec![DataPoint::HostMean { host_sum: 10, ghost_time: 3 }]);
}

#[test]
fn useless_datagrams_change_nothing() {
    let mut m = measurement();
    assert!(matches!(
        m.use_pong(b"_link_v\x01", micros(1)),
        PongOutcome::Malformed(Error::Protocol("invalid message size"))
    ));
    assert!(matches!(
        m.use_pong(b"_link_v\x02\x02", micros(1)),
        PongOutcome::Malformed(Error::Protocol("invalid protocol header"))
    ));
    assert!(matches!(m.use_pong(b"_link_v\x01\x01", micros(1)), PongOutcome::NotPong));
    assert!(matches!(
        m.use_pong(b"_link_v\x01\x02abc", micros(1)),
        PongOutcome::Malformed(Error::Decode(_))
    ));
    assert!(matches!(
        m.use_pong(&pong(SessionId::default(), 1, 2, 3), micros(1)),
        PongOutcome::OtherSession
    ));
    assert!(m.data.is_empty());
}

#[test]
fn measurement_finishes_after_enough_points() {
    let mut m = measurement();
    for round in 0..NUMBER_DATA_POINTS / 2 {
        let outcome = m.use_pong(&pong(session_id(), 100, 40, 70), micros(160));
        assert!(matches!(outcome, PongOutcome::Used { finished: false, .. }), "{}", round);
    }
    assert_eq!(m.data.len(), 20);
    let outcome = m.use_pong(&pong(session_id(), 100, 0, 70), micros(160));
    assert!(matches!(outcome, PongOutcome::Used { finished: true, .. }));
    let data = m.finish();
    assert_eq!(data.len(), 21);
    assert!(m.success);
    assert!(m.data.is_empty());
}

#[test]
fn measurement_finishes_once() {
    let mut m = measurement();
    for _ in 0..NUMBER_DATA_POINTS / 2 {
        m.use_pong(&pong(session_id(), 100, 40, 70), micros(160));
    }
    assert_eq!(m.data.len(), 20);
    assert!(m.listening);
    let outcome = m.use_pong(&pong(session_id(), 100, 40, 0), micros(160));
    assert!(matches!(outcome, PongOutcome::Used { finished: false, .. }));
    let outcome = m.use_pong(&pong(session_id(), 100, 40, 70), micros(160));
    assert!(matches!(outcome, PongOutcome::Used { finished: true, .. }));
    assert_eq!(m.data.len(), 22);
    assert!(!m.listening);
    let outcome = m.use_pong(&pong(session_id(), 100, 40, 70), micros(160));
    assert!(matches!(outcome, PongOutcome::Ended));
    assert!(matches!(m.use_pong(b"", micros(160)), PongOutcome::Ended));
    assert_eq!(m.data.len(), 22);
    assert_eq!(m.finish().len(), 22);
    let outcome = m.use_pong(&pong(session_id(), 100, 40, 70), micros(160));
    assert!(matches!(outcome, PongOutcome::Ended));
    assert!(m.data.is_empty());
}

#[test]
fn failed_measurement_can_still_finish() {
    let mut m = measurement();
    m.use_pong(&pong(session_id(), 100, 40, 70), micros(160));
    m.measurements_started = NUMBER_MEASUREMENTS;
    m.timer_step(TimerEvent::Tick(micros(8)));
    assert!(m.data.is_empty());
    assert!(m.listening);
    for round in 0..NUMBER_DATA_POINTS {
        let outcome = m.use_pong(&pong(session_id(), 100, 0, 70), micros(160));
        assert!(matches!(outcome, PongOutcome::Used { finished: false, .. }), "{}", round);
    }
    let outcome = m.use_pong(&pong(session_id(), 100, 0, 70), micros(160));
    assert!(matches!(outcome, PongOutcome::Used { finished: true, .. }));
    assert_eq!(m.data.len(), 21);
}

#[test]
fn responder_and_measurement_agree() {
    let responder = PingResponder::new(session_id(), GhostXForm::default());
    let mut m = measurement();
    let pong = match responder.respond(&first_ping(micros(1_000)), micros(5_000)) {
        PingReply::Pong(pong) => pong,
        other => panic!("{:?}", other),
    };
    let ping = match m.use_pong(&pong, micros(1_200)) {
        PongOutcome::Used { ping, .. } => ping,
        other => panic!("{:?}", other),
    };
    assert_eq!(m.data, vec![DataPoint::HostMean { host_sum: 2_200, ghost_time: 5_000 }]);
    let pong = match responder.respond(&ping, micros(5_400)) {
        PingReply::Pong(pong) => pong,
        other => panic!("{:?}", other),
    };
    m.use_pong(&pong, micros(1_700));
    assert_eq!(m.data[1], DataPoint::HostMean { host_sum: 2_900, ghost_time: 5_400 });
    assert_eq!(m.data.len(), 2);
}

#[test]
fn timer_sends_five_pings_and_fails() {
    let mut m = measurement();
    m.data.push(DataPoint::HostMean { host_sum: 1, ghost_time: 2 });
    for round in 0..NUMBER_MEASUREMENTS {
        match m.timer_step(TimerEvent::Tick(micros(7))) {
            TimerAction::SendPing(ping) => assert_eq!(ping, first_ping(micros(7))),
            other => panic!("{:?}", other),
        }
        assert_eq!(m.measurements_started, round);
        assert!(matches!(m.timer_step(TimerEvent::PingSent), TimerAction::WaitForInterval));
        assert!(matches!(m.timer_step(TimerEvent::IntervalElapsed), TimerAction::WaitForTick));
    }
    assert_eq!(m.data.len(), 1);
    match m.timer_step(TimerEvent::Tick(micros(8))) {
        TimerAction::ReportFailure(data) => assert!(data.is_empty()),
        other => panic!("{:?}", other),
    }
    assert!(m.data.is_empty());
    assert!(!m.success);
}

#[test]
fn timer_stops() {
    let mut m = measurement();
    assert!(matches!(m.timer_step(TimerEvent::PingFailed), TimerAction::Stop));
    assert!(matches!(m.timer_step(TimerEvent::Finished), TimerAction::Stop));
    assert_eq!(m.measurements_started, 0);
}

#[test]
fn estimate_depends_on_the_number_of_points() {
    let point = DataPoint::GhostMean { host_time: 1, ghost_sum: 2 };
    assert_eq!(estimate(&vec![]), Estimate::Failed);
    assert_eq!(estimate(&vec![point]), Estimate::MiddleOffset);
    assert_eq!(estimate(&vec![point; 2]), Estimate::MiddleOffset);
    assert_eq!(estimate(&vec![point; 3]), Estimate::Regression);
}

#[test]
fn result_without_data_is_a_failure() {
    let fitted = GhostXForm { slope: Slope { bits: 1.0f64.to_bits() }, intercept: micros(3) };
    match measurement_result(session_id(), &vec![], fitted) {
        MeasurePeerEvent::XForm(id, x_form) => {
            assert_eq!(id, session_id());
            assert_eq!(x_form, GhostXForm::default());
        }
        other => panic!("{:?}", other),
    }
    let point = DataPoint::GhostMean { host_time: 1, ghost_sum: 2 };
    match measurement_result(session_id(), &vec![point], fitted) {
        MeasurePeerEvent::XForm(_, x_form) => assert_eq!(x_form, fitted),
        other => panic!("{:?}", other),
    }
}

#[test]
fn service_keeps_pending_measurements() {
    let mut service = MeasurementService::new(session_id(), GhostXForm::default());
    assert!(service.measurement_map.is_empty());
    service.measurement_begun(NodeId(3), measurement());
    service.measurement_begun(NodeId(3), measurement());
    service.measurement_begun(NodeId(4), measurement());
    assert_eq!(service.measurement_map.len(), 2);
    service.measurement_reported(NodeId(3));
    service.measurement_reported(NodeId(9));
    assert_eq!(service.measurement_map.len(), 1);
    assert!(service.measurement_map.contains_key(&4));
    let moved = SessionId(NodeId(77));
    let x_form = GhostXForm { slope: Slope { bits: 2.0f64.to_bits() }, intercept: micros(1) };
    service.update_node_state(moved, x_form);
    assert_eq!(service.ping_responder.session_id, moved);
    assert_eq!(service.ping_responder.ghost_x_form, x_form);
}
