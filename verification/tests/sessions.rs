use link_session::duration::Duration;
use link_session::encoding::{Decode, DecodeError, Encode};
use link_session::link::ghostxform::{GhostXForm, Slope};
use link_session::link::measurement::{MeasurePeerEvent, SocketAddrV4};
use link_session::link::node::NodeId;
use link_session::link::peers::{ControllerPeer, NodeState, PeerState};
use link_session::link::sessions::{
    are_comparable, handle_failed_measurement, handle_successful_measurement,
    launch_session_measurement, session_peers, Session, SessionAction, SessionId,
    SessionMeasurement, SessionMembership, Sessions, SESSION_MEMBERSHIP_HEADER_KEY,
};
use link_session::link::timeline::{Beats, Tempo, Timeline};

fn id(n: u8) -> SessionId {
    SessionId(NodeId::from_array([0, 0, 0, 0, 0, 0, 0, n]))
}

fn timeline(beat: i64) -> Timeline {
    Timeline {
        tempo: Tempo { micros_per_beat: 500_000 },
        beat_origin: Beats { value: beat },
        time_origin: Duration::zero(),
    }
}

fn session(n: u8, beat: i64) -> Session {
    Session {
        session_id: id(n),
        timeline: timeline(beat),
        measurement: SessionMeasurement::default(),
    }
}

fn peer(node: u8, session: u8, port: u16) -> ControllerPeer {
    ControllerPeer {
        peer_state: PeerState {
            node_state: NodeState { node_id: id(node).0, session_id: id(session) },
            measurement_endpoint: Some(SocketAddrV4 { ip: 0x0a00_0001, port }),
        },
    }
}

fn x_form(bits: u64, micros: i64) -> GhostXForm {
    GhostXForm { slope: Slope { bits }, intercept: Duration::microseconds(micros) }
}

fn ports(peers: &[ControllerPeer]) -> Vec<u16> {
    peers.iter().map(|p| p.peer_state.measurement_endpoint.unwrap().port).collect()
}

fn micros(n: i64) -> Duration {
    Duration::microseconds(n)
}

const ONE: u64 = 0x3ff0_0000_0000_0000;

#[test]
fn test_key() {
    assert_eq!(SESSION_MEMBERSHIP_HEADER_KEY, 0x73657373);
}

#[test]
fn session_id_equality() {
    let id1 = SessionId(NodeId::from_array([1, 2, 3, 4, 5, 6, 7, 8]));
    let id2 = SessionId(NodeId::from_array([1, 2, 3, 4, 5, 6, 7, 8]));
    let id3 = SessionId(NodeId::from_array([8, 7, 6, 5, 4, 3, 2, 1]));
    assert_eq!(id1, id2);
    assert_ne!(id1, id3);
}

#[test]
fn session_id_ordering() {
    let id_low = SessionId(NodeId::from_array([0, 0, 0, 0, 0, 0, 0, 1]));
    let id_high = SessionId(NodeId::from_array([0, 0, 0, 0, 0, 0, 0, 2]));
    assert!(id_low < id_high);
}

#[test]
fn session_id_orders_by_first_byte() {
    let a = SessionId(NodeId::from_array([1, 0, 0, 0, 0, 0, 0, 0]));
    let b = SessionId(NodeId::from_array([0, 255, 255, 255, 255, 255, 255, 255]));
    assert!(b < a);
    assert!(!(a < b));
    assert!(!(a < a));
}

#[test]
fn session_id_display() {
    let id = SessionId(NodeId::from_array([
        0xAA, 0xBB, 0xCC, 0xDD, 0x11, 0x22, 0x33, 0x44,
    ]));
    let display = id.to_string();
    assert_eq!(display, "aabbccdd11223344");
}

#[test]
fn session_id_display_has_leading_zeros() {
    assert_eq!(id(9).to_string(), "0000000000000009");
    assert_eq!(
        NodeId::from_array([0x01, 0x23, 0x45, 0x67, 0x89, 0xab, 0xcd, 0xef]).to_string(),
        "0123456789abcdef"
    );
}

#[test]
fn session_membership_from_session_id() {
    let id = SessionId(NodeId::from_array([1, 2, 3, 4, 5, 6, 7, 8]));
    let membership = SessionMembership::from(id);
    assert_eq!(membership.session_id, id);
}

#[test]
fn session_membership_roundtrip_encode() {
    let id = SessionId(NodeId::from_array([10, 20, 30, 40, 50, 60, 70, 80]));
    let membership = SessionMembership::from(id);
    let encoded = membership.encode().unwrap();
    // Should include the header + SessionId bytes
    assert!(!encoded.is_empty());
}

#[test]
fn session_membership_exact_bytes() {
    let id = SessionId(NodeId::from_array([10, 20, 30, 40, 50, 60, 70, 80]));
    let encoded = SessionMembership::from(id).encode().unwrap();
    assert_eq!(
        encoded,
        vec![b's', b'e', b's', b's', 0, 0, 0, 8, 10, 20, 30, 40, 50, 60, 70, 80]
    );
    assert_eq!(SessionMembership::decode_from(&encoded[8..]), Ok((SessionMembership::from(id), 8)));
    assert_eq!(SessionId::decode_from(&encoded[8..]), Ok((id, 8)));
    assert_eq!(id.encoded_size(), 8);
    assert_eq!(SessionId::decode_from(&encoded[9..]), Err(DecodeError::UnexpectedEnd));
}

#[test]
fn session_measurement_default() {
    let sm = SessionMeasurement::default();
    assert_eq!(sm.x_form, GhostXForm::default());
    assert_eq!(sm.timestamp, Duration::zero());
}

#[test]
fn session_peers_empty_when_no_match() {
    let peers = vec![];
    let session_id = SessionId(NodeId::from_array([1, 2, 3, 4, 5, 6, 7, 8]));
    let result = session_peers(&peers, session_id);
    assert!(result.is_empty());
}

#[test]
fn session_peers_are_sorted_and_stable() {
    let peers = vec![
        peer(7, 1, 1),
        peer(3, 1, 2),
        peer(5, 2, 3),
        peer(7, 1, 4),
        peer(1, 1, 5),
        peer(3, 1, 6),
    ];
    assert_eq!(ports(&session_peers(&peers, id(1))), vec![5, 2, 6, 1, 4]);
    assert_eq!(ports(&session_peers(&peers, id(2))), vec![3]);
    assert!(session_peers(&peers, id(3)).is_empty());
}

#[test]
fn ghost_x_forms_compare_as_numbers() {
    assert_eq!(x_form(0, 0), GhostXForm::default());
    assert_eq!(x_form(1 << 63, 0), GhostXForm::default());
    assert_ne!(x_form(0, 1), GhostXForm::default());
    assert_ne!(x_form(ONE, 0), GhostXForm::default());
    let nan = x_form(f64::NAN.to_bits(), 0);
    assert_ne!(nan, nan);
    assert_eq!(x_form(ONE, 5), x_form(1.0f64.to_bits(), 5));
    assert_eq!(x_form(f64::INFINITY.to_bits(), 5), x_form(f64::INFINITY.to_bits(), 5));
}

#[test]
fn launch_measures_the_founder() {
    let peers = vec![peer(2, 5, 1), peer(5, 5, 2), peer(5, 5, 3), peer(1, 6, 4)];
    match launch_session_measurement(&peers, &session(5, 0)) {
        Some(MeasurePeerEvent::PeerState(session_id, state)) => {
            assert_eq!(session_id, id(5));
            assert_eq!(state, peers[1].peer_state);
        }
        other => panic!("{:?}", other),
    }
}

#[test]
fn launch_measures_the_least_without_founder() {
    let peers = vec![peer(9, 5, 1), peer(2, 5, 2), peer(2, 5, 3), peer(1, 6, 4)];
    match launch_session_measurement(&peers, &session(5, 0)) {
        Some(MeasurePeerEvent::PeerState(session_id, state)) => {
            assert_eq!(session_id, id(5));
            assert_eq!(state, peers[1].peer_state);
        }
        other => panic!("{:?}", other),
    }
    assert!(launch_session_measurement(&peers, &session(7, 0)).is_none());
}

#[test]
fn new_sessions_list_the_first_one() {
    let sessions = Sessions::new(session(4, 7));
    assert_eq!(sessions.current.session_id, id(4));
    assert_eq!(sessions.other_sessions.len(), 1);
    assert_eq!(sessions.other_sessions[0].session_id, id(4));
    assert!(!sessions.is_founding);
    assert!(!sessions.has_joined);
}

#[test]
fn reset_session_forgets_the_others() {
    let mut sessions = Sessions::new(session(4, 7));
    sessions.reset_session(session(6, 9));
    assert_eq!(sessions.current.session_id, id(6));
    assert_eq!(sessions.current.timeline, timeline(9));
    assert!(sessions.other_sessions.is_empty());
}

#[test]
fn reset_timeline_goes_to_the_listed_session() {
    let mut sessions = Sessions::new(session(4, 7));
    sessions.reset_timeline(timeline(-3));
    assert_eq!(sessions.other_sessions[0].timeline, timeline(-3));
    assert_eq!(sessions.current.timeline, timeline(7));
    sessions.reset_session(session(5, 1));
    sessions.reset_timeline(timeline(2));
    assert!(sessions.other_sessions.is_empty());
    assert_eq!(sessions.current.timeline, timeline(1));
}

#[test]
fn update_timeline_wants_a_later_beat_origin() {
    let sessions = Sessions::new(session(4, 7));
    assert_eq!(sessions.update_timeline(session(1, 5), timeline(6)).timeline, timeline(6));
    let mut slow = timeline(5);
    slow.tempo = Tempo { micros_per_beat: 1 };
    assert_eq!(sessions.update_timeline(session(1, 5), slow).timeline, timeline(5));
    assert_eq!(sessions.update_timeline(session(1, 5), timeline(4)).timeline, timeline(5));
}

#[test]
fn timeline_of_current_session_is_adopted() {
    let mut sessions = Sessions::new(session(4, 7));
    let (seen, event) = sessions.saw_session_timeline(id(4), timeline(6), &vec![peer(4, 4, 1)]);
    assert_eq!(seen, timeline(7));
    assert!(event.is_none());
    assert!(sessions.has_joined);
    let (seen, event) = sessions.saw_session_timeline(id(4), timeline(8), &vec![]);
    assert_eq!(seen, timeline(8));
    assert!(event.is_none());
    assert_eq!(sessions.other_sessions[0].timeline, timeline(7));
}

#[test]
fn new_session_is_measured_once() {
    let peers = vec![peer(2, 2, 1)];
    let mut sessions = Sessions::new(session(4, 7));
    let (seen, event) = sessions.saw_session_timeline(id(2), timeline(3), &peers);
    assert_eq!(seen, timeline(7));
    assert!(matches!(event, Some(MeasurePeerEvent::PeerState(s, p))
        if s == id(2) && p == peers[0].peer_state));
    assert!(!sessions.has_joined);
    assert_eq!(sessions.other_sessions.len(), 2);
    assert_eq!(sessions.other_sessions[1].timeline, timeline(3));
    let (_, event) = sessions.saw_session_timeline(id(2), timeline(2), &peers);
    assert!(event.is_none());
    assert_eq!(sessions.other_sessions[1].timeline, timeline(3));
    let (_, event) = sessions.saw_session_timeline(id(2), timeline(5), &peers);
    assert!(event.is_none());
    assert_eq!(sessions.other_sessions.len(), 2);
    assert_eq!(sessions.other_sessions[1].timeline, timeline(5));
    let (_, event) = sessions.saw_session_timeline(id(3), timeline(5), &peers);
    assert!(event.is_none());
    assert_eq!(sessions.other_sessions.len(), 3);
}

fn two_sessions(current: u8, other: u8) -> Sessions {
    let mut sessions = Sessions::new(session(current, 7));
    sessions.saw_session_timeline(id(other), timeline(3), &vec![]);
    sessions
}

/// A measurement of session `other` that is `diff` microseconds ahead of session
/// `current`, at `timestamp`, for a node that has `peers`.
fn measured(current: u8, other: u8, diff: i64, timestamp: i64, peers: &Vec<ControllerPeer>) -> Sessions {
    let mut sessions = two_sessions(current, other);
    let action = handle_successful_measurement(
        &mut sessions,
        id(other),
        x_form(ONE, diff),
        micros(timestamp),
        micros(1_000),
        micros(1_000 + diff),
        peers,
    );
    assert_eq!(sessions.other_sessions.len(), 2);
    if sessions.current.session_id == id(other) {
        assert!(matches!(action, SessionAction::Switch(s)
            if s.session_id == id(other) && s.measurement.x_form == x_form(ONE, diff)));
        assert_eq!(sessions.other_sessions[1].session_id, id(current));
    } else {
        assert!(matches!(action, SessionAction::Stay));
        assert_eq!(sessions.other_sessions[1].measurement.x_form, x_form(ONE, diff));
        assert_eq!(sessions.other_sessions[1].measurement.timestamp, micros(timestamp));
    }
    sessions
}

#[test]
fn session_far_ahead_wins() {
    let peers = vec![peer(2, 2, 1)];
    assert_eq!(measured(2, 4, 500_001, 9_000_000, &peers).current.session_id, id(4));
    assert_eq!(measured(2, 4, 500_000, 9_000_000, &peers).current.session_id, id(2));
    assert_eq!(measured(4, 2, 500_000, 9_000_000, &vec![peer(4, 4, 1)]).current.session_id, id(4));
}

#[test]
fn sessions_keep_their_timelines() {
    for diff in [500_001, 500_000] {
        let sessions = measured(2, 4, diff, 9_000_000, &vec![peer(2, 2, 1)]);
        let mut known = vec![(sessions.current.session_id, sessions.current.timeline)];
        known.extend(sessions.other_sessions.iter().map(|s| (s.session_id, s.timeline)));
        known.sort_by_key(|(session_id, _)| session_id.0 .0);
        assert_eq!(known, vec![(id(2), timeline(7)), (id(2), timeline(7)), (id(4), timeline(3))]);
    }
}

#[test]
fn similar_times_prefer_the_lower_id() {
    let peers = vec![peer(4, 4, 1), peer(2, 2, 2)];
    assert_eq!(measured(4, 2, 499_999, 9_000_000, &peers).current.session_id, id(2));
    assert_eq!(measured(4, 2, -499_999, 9_000_000, &peers).current.session_id, id(2));
    assert_eq!(measured(4, 2, -500_000, 9_000_000, &peers).current.session_id, id(4));
    assert_eq!(measured(2, 4, 0, 9_000_000, &peers).current.session_id, id(2));
}

#[test]
fn lonely_starter_takes_any_session() {
    assert_eq!(measured(2, 4, -9_000_000, 4_999_999, &vec![]).current.session_id, id(4));
    assert_eq!(measured(2, 4, -9_000_000, 5_000_000, &vec![]).current.session_id, id(2));
    assert_eq!(measured(2, 4, -9_000_000, 0, &vec![peer(9, 2, 1)]).current.session_id, id(2));
    assert_eq!(measured(2, 4, -9_000_000, 0, &vec![peer(9, 4, 1)]).current.session_id, id(4));
}

#[test]
fn difference_beyond_64_bits_counts_as_none() {
    let mut sessions = two_sessions(4, 2);
    let peers = vec![peer(4, 4, 1)];
    assert!(are_comparable(&micros(i64::MAX), &micros(i64::MIN)));
    let action = handle_successful_measurement(
        &mut sessions,
        id(2),
        x_form(ONE, 1),
        micros(9_000_000),
        micros(i64::MAX),
        micros(i64::MIN),
        &peers,
    );
    assert!(matches!(action, SessionAction::Switch(_)));
    assert_eq!(sessions.current.session_id, id(2));
}

#[test]
fn incomparable_times() {
    assert!(!are_comparable(&micros(0), &micros(i64::MIN)));
    assert!(are_comparable(&micros(0), &micros(i64::MIN + 1)));
    let longest = Duration::from_parts(9_223_372_036_854_775, 807_000_000).unwrap();
    assert!(!are_comparable(&longest, &micros(-1)));
    assert!(are_comparable(&longest, &micros(0)));
}

#[test]
fn measuring_the_current_session_joins_it() {
    let mut sessions = two_sessions(4, 2);
    let action = handle_successful_measurement(
        &mut sessions,
        id(4),
        x_form(ONE, 77),
        micros(5),
        micros(0),
        micros(0),
        &vec![],
    );
    assert!(matches!(action, SessionAction::Join(s)
        if s.session_id == id(4) && s.measurement.x_form == x_form(ONE, 77)));
    assert_eq!(sessions.current.measurement.x_form, x_form(ONE, 77));
    assert_eq!(sessions.current.measurement.timestamp, micros(5));
    assert_eq!(sessions.other_sessions[0].measurement.x_form, GhostXForm::default());
}

#[test]
fn measuring_an_unknown_session_is_ignored() {
    let mut sessions = two_sessions(4, 2);
    let action = handle_successful_measurement(
        &mut sessions,
        id(9),
        x_form(ONE, 77),
        micros(5),
        micros(0),
        micros(900_000),
        &vec![],
    );
    assert!(matches!(action, SessionAction::Stay));
    assert_eq!(sessions.current.session_id, id(4));
    assert_eq!(sessions.other_sessions.len(), 2);
}

#[test]
fn failing_on_the_current_session_measures_again() {
    let mut sessions = two_sessions(4, 2);
    let mut peers = vec![peer(4, 4, 1), peer(2, 2, 2)];
    let action = handle_failed_measurement(&mut sessions, id(4), &mut peers);
    assert!(matches!(action, SessionAction::Remeasure(s) if s.session_id == id(4)));
    assert_eq!(ports(&peers), vec![1, 2]);
    assert_eq!(sessions.other_sessions.len(), 2);
}

#[test]
fn failing_on_another_session_drops_its_peers() {
    let mut sessions = two_sessions(4, 2);
    let mut peers = vec![peer(2, 2, 1), peer(4, 4, 2), peer(3, 2, 3), peer(9, 8, 4)];
    let action = handle_failed_measurement(&mut sessions, id(2), &mut peers);
    assert!(matches!(action, SessionAction::Stay));
    assert_eq!(ports(&peers), vec![2, 4]);
    assert_eq!(sessions.other_sessions.len(), 1);
    assert_eq!(sessions.other_sessions[0].session_id, id(2));
    let action = handle_failed_measurement(&mut sessions, id(2), &mut peers);
    assert!(matches!(action, SessionAction::Stay));
    assert_eq!(sessions.other_sessions.len(), 1);
    assert_eq!(sessions.current.session_id, id(4));
}

#[test]
fn reports_are_told_apart() {
    let mut peers = vec![peer(4, 4, 1), peer(2, 2, 2)];
    let mut sessions = two_sessions(4, 2);
    let failed = MeasurePeerEvent::XForm(id(4), GhostXForm::default());
    let action = sessions.handle_measurement(failed, micros(1), micros(0), micros(0), &mut peers);
    assert!(matches!(action, SessionAction::Remeasure(_)));
    let done = MeasurePeerEvent::XForm(id(4), x_form(ONE, 3));
    let action = sessions.handle_measurement(done, micros(1), micros(0), micros(0), &mut peers);
    assert!(matches!(action, SessionAction::Join(_)));
    let request = MeasurePeerEvent::PeerState(id(4), peers[0].peer_state);
    let action = sessions.handle_measurement(request, micros(1), micros(0), micros(0), &mut peers);
    assert!(matches!(action, SessionAction::Stay));
    assert_eq!(sessions.current.measurement.x_form, x_form(ONE, 3));
}
