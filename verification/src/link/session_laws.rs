//! What the operations on sessions give for what they are given.
//!
//! Each law speaks of a call: `call_ensures(f, arguments, result)` says that `f`
//! can give `result` for `arguments`. The rest of a law is said of the fields of
//! the arguments and the result.

use crate::duration::{lemma_num_micros_bounds, Duration};
use crate::link::ghostxform::GhostXForm;
use crate::link::measurement::MeasurePeerEvent;
use crate::link::node::NodeId;
use crate::link::peers::ControllerPeer;
use crate::link::sessions::{
    are_comparable, asks_to_measure, handle_failed_measurement, handle_successful_measurement,
    has_ident, in_session, is_first, is_first_session, launch_session_measurement,
    lemma_filter_first, lemma_filter_none, lemma_position, lemma_position_none, other_than,
    outside_session, position, same_as, session_peers, Session, SessionAction, SessionId,
    SessionMeasurement, SessionMembership, Sessions, REMEASUREMENT_MICROS,
};
use crate::link::timeline::Timeline;
use std::cmp::Ordering;
use vstd::prelude::*;

verus! {

/// A session takes a timeline whose beat origin is later than its own, tempo and
/// time origin included, and no other; nothing else of it changes.
pub proof fn law_update_timeline(
    sessions: &Sessions,
    session: Session,
    timeline: Timeline,
    updated: Session,
)
    requires
        call_ensures(Sessions::update_timeline, (sessions, session, timeline), updated),
    ensures
        timeline.beat_origin.value > session.timeline.beat_origin.value ==> updated.timeline
            == timeline,
        timeline.beat_origin.value <= session.timeline.beat_origin.value ==> updated.timeline
            == session.timeline,
        updated.session_id == session.session_id,
        updated.measurement == session.measurement,
{
}

/// A new node is in the session that it starts with, has that among the others
/// too, founds none and has joined none.
pub proof fn law_new_sessions(init: Session, sessions: Sessions)
    requires
        call_ensures(Sessions::new, (init,), sessions),
    ensures
        sessions.current == init,
        sessions.other_sessions@ == seq![init],
        !sessions.is_founding,
        !sessions.has_joined,
{
}

/// A node that is put in a session is in that session and knows no other.
pub proof fn law_reset_session(sessions: &mut Sessions, session: Session)
    requires
        call_ensures(Sessions::reset_session, (sessions, session), ()),
    ensures
        final(sessions).current == session,
        final(sessions).other_sessions@.len() == 0,
        final(sessions).is_founding == old(sessions).is_founding,
        final(sessions).has_joined == old(sessions).has_joined,
{
}

/// A timeline that is set goes, whole and whatever its beat origin, to the first
/// of the other sessions with the identifier of the current one, at `i`; all else
/// stays.
pub proof fn law_reset_timeline(sessions: &mut Sessions, timeline: Timeline, i: int)
    requires
        call_ensures(Sessions::reset_timeline, (sessions, timeline), ()),
        0 <= i < old(sessions).other_sessions@.len(),
        old(sessions).other_sessions@[i].session_id == old(sessions).current.session_id,
        forall|j: int|
            0 <= j < i ==> (#[trigger] old(sessions).other_sessions@[j]).session_id
                != old(sessions).current.session_id,
    ensures
        final(sessions).other_sessions@.len() == old(sessions).other_sessions@.len(),
        final(sessions).other_sessions@[i].timeline == timeline,
        final(sessions).other_sessions@[i].session_id
            == old(sessions).other_sessions@[i].session_id,
        final(sessions).other_sessions@[i].measurement
            == old(sessions).other_sessions@[i].measurement,
        forall|j: int|
            0 <= j < old(sessions).other_sessions@.len() && j != i
                ==> #[trigger] final(sessions).other_sessions@[j]
                    == old(sessions).other_sessions@[j],
        final(sessions).current == old(sessions).current,
        final(sessions).is_founding == old(sessions).is_founding,
        final(sessions).has_joined == old(sessions).has_joined,
{
    lemma_position(
        old(sessions).other_sessions@,
        same_as(old(sessions).current.session_id),
        i,
    );
}

/// A timeline that is set goes nowhere where no other session has the identifier
/// of the current one.
pub proof fn law_reset_timeline_without_place(sessions: &mut Sessions, timeline: Timeline)
    requires
        call_ensures(Sessions::reset_timeline, (sessions, timeline), ()),
        forall|j: int|
            0 <= j < old(sessions).other_sessions@.len()
                ==> (#[trigger] old(sessions).other_sessions@[j]).session_id
                    != old(sessions).current.session_id,
    ensures
        final(sessions).other_sessions@ == old(sessions).other_sessions@,
        final(sessions).current == old(sessions).current,
        final(sessions).is_founding == old(sessions).is_founding,
        final(sessions).has_joined == old(sessions).has_joined,
{
    lemma_no_position(
        old(sessions).other_sessions@,
        same_as(old(sessions).current.session_id),
    );
}

/// Where no identifier is accepted, there is no first one.
proof fn lemma_no_position(sessions: Seq<Session>, wanted: spec_fn(SessionId) -> bool)
    requires
        forall|j: int| 0 <= j < sessions.len() ==> !wanted((#[trigger] sessions[j]).session_id),
    ensures
        position(sessions, wanted) is None,
{
    if exists|i: int| is_first_session(sessions, wanted, i) {
        let i = choose|i: int| is_first_session(sessions, wanted, i);
        assert(!wanted(sessions[i].session_id));
    }
}

/// A timeline seen for the current session makes the node a joined one. It is
/// taken whole where its beat origin is later; the timeline that the session then
/// has is given back, and nothing is measured.
pub proof fn law_saw_current(
    sessions: &mut Sessions,
    session_id: SessionId,
    timeline: Timeline,
    peers: &Vec<ControllerPeer>,
    seen: (Timeline, Option<MeasurePeerEvent>),
)
    requires
        call_ensures(
            Sessions::saw_session_timeline,
            (sessions, session_id, timeline, peers),
            seen,
        ),
        old(sessions).current.session_id == session_id,
    ensures
        timeline.beat_origin.value > old(sessions).current.timeline.beat_origin.value
            ==> final(sessions).current.timeline == timeline && seen.0 == timeline,
        timeline.beat_origin.value <= old(sessions).current.timeline.beat_origin.value
            ==> final(sessions).current.timeline == old(sessions).current.timeline && seen.0
            == old(sessions).current.timeline,
        final(sessions).current.session_id == session_id,
        final(sessions).current.measurement == old(sessions).current.measurement,
        final(sessions).other_sessions@ == old(sessions).other_sessions@,
        final(sessions).is_founding == old(sessions).is_founding,
        final(sessions).has_joined,
        seen.1 is None,
{
}

/// A timeline seen for a session that is first found at `i` among the others is
/// taken whole where its beat origin is later. Nothing else changes, nothing is
/// measured, and the timeline of the current session is given back.
pub proof fn law_saw_known(
    sessions: &mut Sessions,
    session_id: SessionId,
    timeline: Timeline,
    peers: &Vec<ControllerPeer>,
    seen: (Timeline, Option<MeasurePeerEvent>),
    i: int,
)
    requires
        call_ensures(
            Sessions::saw_session_timeline,
            (sessions, session_id, timeline, peers),
            seen,
        ),
        old(sessions).current.session_id != session_id,
        0 <= i < old(sessions).other_sessions@.len(),
        old(sessions).other_sessions@[i].session_id == session_id,
        forall|j: int|
            0 <= j < i ==> (#[trigger] old(sessions).other_sessions@[j]).session_id != session_id,
    ensures
        final(sessions).other_sessions@.len() == old(sessions).other_sessions@.len(),
        timeline.beat_origin.value > old(sessions).other_sessions@[i].timeline.beat_origin.value
            ==> final(sessions).other_sessions@[i].timeline == timeline,
        timeline.beat_origin.value <= old(sessions).other_sessions@[i].timeline.beat_origin.value
            ==> final(sessions).other_sessions@[i].timeline
                == old(sessions).other_sessions@[i].timeline,
        final(sessions).other_sessions@[i].session_id == session_id,
        final(sessions).other_sessions@[i].measurement
            == old(sessions).other_sessions@[i].measurement,
        forall|j: int|
            0 <= j < old(sessions).other_sessions@.len() && j != i
                ==> #[trigger] final(sessions).other_sessions@[j]
                    == old(sessions).other_sessions@[j],
        final(sessions).current == old(sessions).current,
        final(sessions).is_founding == old(sessions).is_founding,
        final(sessions).has_joined == old(sessions).has_joined,
        seen.0 == old(sessions).current.timeline,
        seen.1 is None,
{
    lemma_position(old(sessions).other_sessions@, same_as(session_id), i);
}

/// A session that is neither the current one nor among the others joins the
/// others, at the end, with the timeline that was seen and without a measurement,
/// whatever else the node knows. Where a peer is in it, the result asks to measure
/// one of its members: the founder where it is a member, else one with the least
/// identifier. Where none is, the result asks for nothing.
pub proof fn law_saw_new(
    sessions: &mut Sessions,
    session_id: SessionId,
    timeline: Timeline,
    peers: &Vec<ControllerPeer>,
    seen: (Timeline, Option<MeasurePeerEvent>),
)
    requires
        call_ensures(
            Sessions::saw_session_timeline,
            (sessions, session_id, timeline, peers),
            seen,
        ),
        old(sessions).current.session_id != session_id,
        forall|j: int|
            0 <= j < old(sessions).other_sessions@.len()
                ==> (#[trigger] old(sessions).other_sessions@[j]).session_id != session_id,
    ensures
        final(sessions).other_sessions@.len() == old(sessions).other_sessions@.len() + 1,
        final(sessions).other_sessions@.drop_last() == old(sessions).other_sessions@,
        final(sessions).other_sessions@.last().session_id == session_id,
        final(sessions).other_sessions@.last().timeline == timeline,
        final(sessions).other_sessions@.last().measurement.x_form.slope.bits == 0,
        final(sessions).other_sessions@.last().measurement.x_form.intercept.nanos() == 0,
        final(sessions).other_sessions@.last().measurement.timestamp.nanos() == 0,
        final(sessions).current == old(sessions).current,
        final(sessions).is_founding == old(sessions).is_founding,
        final(sessions).has_joined == old(sessions).has_joined,
        seen.0 == old(sessions).current.timeline,
        seen.1 is None <==> forall|j: int|
            0 <= j < peers@.len() ==> (
            #[trigger] peers@[j]).peer_state.node_state.session_id != session_id,
        seen.1 is Some ==> (seen.1->Some_0 matches MeasurePeerEvent::PeerState(id, state) && {
            &&& id == session_id
            &&& state.node_state.session_id == session_id
            &&& exists|i: int|
                {
                    &&& 0 <= i < peers@.len()
                    &&& (#[trigger] peers@[i]).peer_state == state
                    &&& forall|j: int|
                        0 <= j < i && (
                        #[trigger] peers@[j]).peer_state.node_state.session_id == session_id
                            ==> peers@[j].peer_state.node_state.node_id
                            != state.node_state.node_id
                }
            &&& state.node_state.node_id == session_id.0 || forall|j: int|
                0 <= j < peers@.len() && (
                #[trigger] peers@[j]).peer_state.node_state.session_id == session_id ==> {
                    &&& peers@[j].peer_state.node_state.node_id != session_id.0
                    &&& peers@[j].peer_state.node_state.node_id.0 >= state.node_state.node_id.0
                }
        }),
{
    lemma_no_position(old(sessions).other_sessions@, same_as(session_id));
    Duration::lemma_of_micros(0);
    lemma_asks(peers@, session_id, seen.1);
}

/// A session has to be measured at one of its members: the founder where it is a
/// member, else one with the least identifier, and of several with that
/// identifier the first. Nothing is asked for where there is no member.
pub proof fn law_launch(
    peers: &Vec<ControllerPeer>,
    session: &Session,
    event: Option<MeasurePeerEvent>,
)
    requires
        call_ensures(launch_session_measurement, (peers, session), event),
    ensures
        event is None <==> forall|j: int|
            0 <= j < peers@.len() ==> (
            #[trigger] peers@[j]).peer_state.node_state.session_id != session.session_id,
        event is Some ==> (event->Some_0 matches MeasurePeerEvent::PeerState(id, state) && {
            &&& id == session.session_id
            &&& state.node_state.session_id == session.session_id
            &&& exists|i: int|
                {
                    &&& 0 <= i < peers@.len()
                    &&& (#[trigger] peers@[i]).peer_state == state
                    &&& forall|j: int|
                        0 <= j < i && (
                        #[trigger] peers@[j]).peer_state.node_state.session_id
                            == session.session_id ==> peers@[j].peer_state.node_state.node_id
                            != state.node_state.node_id
                }
            &&& state.node_state.node_id == session.session_id.0 || forall|j: int|
                0 <= j < peers@.len() && (
                #[trigger] peers@[j]).peer_state.node_state.session_id == session.session_id ==> {
                    &&& peers@[j].peer_state.node_state.node_id != session.session_id.0
                    &&& peers@[j].peer_state.node_state.node_id.0 >= state.node_state.node_id.0
                }
        }),
{
    lemma_asks(peers@, session.session_id, event);
}

/// Filtering twice is filtering by both.
proof fn lemma_filter_both(
    peers: Seq<ControllerPeer>,
    first: spec_fn(ControllerPeer) -> bool,
    second: spec_fn(ControllerPeer) -> bool,
    both: spec_fn(ControllerPeer) -> bool,
)
    requires
        forall|peer: ControllerPeer| #[trigger] both(peer) <==> first(peer) && second(peer),
    ensures
        peers.filter(first).filter(second) == peers.filter(both),
    decreases peers.len(),
{
    reveal(Seq::filter);
    if peers.len() > 0 {
        lemma_filter_both(peers.drop_last(), first, second, both);
        let peer = peers.last();
        let kept = peers.drop_last().filter(first);
        assert(both(peer) <==> first(peer) && second(peer));
        if first(peer) {
            assert(kept.push(peer).drop_last() == kept);
        }
    }
}

/// What passes a filter is among what it keeps.
proof fn lemma_filter_keeps(
    peers: Seq<ControllerPeer>,
    pred: spec_fn(ControllerPeer) -> bool,
    peer: ControllerPeer,
)
    ensures
        peers.filter(pred).contains(peer) <==> peers.contains(peer) && pred(peer),
    decreases peers.len(),
{
    reveal(Seq::filter);
    if peers.len() > 0 {
        let front = peers.drop_last();
        lemma_filter_keeps(front, pred, peer);
        let kept = front.filter(pred);
        if front.contains(peer) {
            let k = choose|k: int| 0 <= k < front.len() && front[k] == peer;
            assert(peers[k] == peer);
        }
        if pred(peers.last()) {
            let all = kept.push(peers.last());
            assert(all[kept.len() as int] == peers.last());
            if kept.contains(peer) {
                let k = choose|k: int| 0 <= k < kept.len() && kept[k] == peer;
                assert(all[k] == peer);
            }
            if all.contains(peer) && peer != peers.last() {
                let k = choose|k: int| 0 <= k < all.len() && all[k] == peer;
                assert(kept[k] == peer);
            }
        }
        if peers.contains(peer) && peer != peers.last() {
            let k = choose|k: int| 0 <= k < peers.len() && peers[k] == peer;
            assert(front[k] == peer);
        }
        assert(peers[peers.len() - 1] == peers.last());
    }
}

/// What measuring a session asks for, said of the peers one by one.
proof fn lemma_asks(
    peers: Seq<ControllerPeer>,
    session_id: SessionId,
    event: Option<MeasurePeerEvent>,
)
    requires
        asks_to_measure(peers, session_id, event),
    ensures
        event is None <==> forall|j: int|
            0 <= j < peers.len() ==> (
            #[trigger] peers[j]).peer_state.node_state.session_id != session_id,
        event is Some ==> (event->Some_0 matches MeasurePeerEvent::PeerState(id, state) && {
            &&& id == session_id
            &&& state.node_state.session_id == session_id
            &&& exists|i: int|
                {
                    &&& 0 <= i < peers.len()
                    &&& (#[trigger] peers[i]).peer_state == state
                    &&& forall|j: int|
                        0 <= j < i && (
                        #[trigger] peers[j]).peer_state.node_state.session_id == session_id
                            ==> peers[j].peer_state.node_state.node_id
                            != state.node_state.node_id
                }
            &&& state.node_state.node_id == session_id.0 || forall|j: int|
                0 <= j < peers.len() && (
                #[trigger] peers[j]).peer_state.node_state.session_id == session_id ==> {
                    &&& peers[j].peer_state.node_state.node_id != session_id.0
                    &&& peers[j].peer_state.node_state.node_id.0 >= state.node_state.node_id.0
                }
        }),
{
    let pred = in_session(session_id);
    let members = peers.filter(pred);
    assert forall|j: int| 0 <= j < peers.len() && pred(#[trigger] peers[j]) implies exists|k: int|
        0 <= k < members.len() && members[k] == peers[j] by {
        lemma_filter_keeps(peers, pred, peers[j]);
    }
    match event {
        None => {},
        Some(MeasurePeerEvent::PeerState(id, state)) => {
            let peer = ControllerPeer { peer_state: state };
            let ident = has_ident(state.node_state.node_id);
            let k = choose|k: int| #[trigger] is_first(members, ident, k) && members[k] == peer;
            lemma_filter_keeps(peers, pred, peer);
            assert(members[k] == peer);
            assert(peers.contains(peer) && pred(peer));
            let both = |p: ControllerPeer| pred(p) && ident(p);
            lemma_filter_both(peers, pred, ident, both);
            let here = choose|j: int| 0 <= j < peers.len() && peers[j] == peer;
            assert(both(peers[here]));
            let i = lemma_filter_first(peers, both);
            let first = lemma_filter_first(members, ident);
            assert(first == k);
            assert(peers[i] == peer);
            assert forall|j: int|
                0 <= j < i && (
                #[trigger] peers[j]).peer_state.node_state.session_id == session_id implies
                peers[j].peer_state.node_state.node_id != state.node_state.node_id by {
                assert(!both(peers[j]));
            }
            if state.node_state.node_id != session_id.0 {
                assert forall|j: int|
                    0 <= j < peers.len() && (
                    #[trigger] peers[j]).peer_state.node_state.session_id == session_id implies {
                    &&& peers[j].peer_state.node_state.node_id != session_id.0
                    &&& peers[j].peer_state.node_state.node_id.0 >= state.node_state.node_id.0
                } by {
                    assert(pred(peers[j]));
                    let l = choose|l: int| 0 <= l < members.len() && members[l] == peers[j];
                    assert(members[l] == peers[j]);
                }
            }
        },
        Some(MeasurePeerEvent::XForm(_, _)) => {},
    }
}

/// The members of a session are the peers that are in it, in the order of the
/// numbers of their identifiers, and those with the same identifier `node_id` in
/// the order that they have among the peers.
pub proof fn law_session_peers(
    peers: &Vec<ControllerPeer>,
    session_id: SessionId,
    members: Vec<ControllerPeer>,
    peer: ControllerPeer,
    node_id: NodeId,
)
    requires
        call_ensures(session_peers, (peers, session_id), members),
    ensures
        members@.contains(peer) <==> peers@.contains(peer)
            && peer.peer_state.node_state.session_id == session_id,
        forall|i: int, j: int|
            0 <= i < j < members@.len() ==> (
            #[trigger] members@[i]).peer_state.node_state.node_id.0 <= (
            #[trigger] members@[j]).peer_state.node_state.node_id.0,
        members@.filter(|p: ControllerPeer| p.peer_state.node_state.node_id == node_id)
            == peers@.filter(
            |p: ControllerPeer|
                p.peer_state.node_state.session_id == session_id
                    && p.peer_state.node_state.node_id == node_id,
        ),
{
    let pred = in_session(session_id);
    let all = peers@.filter(pred);
    let ident = has_ident(peer.peer_state.node_state.node_id);
    assert(members@.filter(ident) == all.filter(ident));
    lemma_filter_keeps(members@, ident, peer);
    lemma_filter_keeps(all, ident, peer);
    lemma_filter_keeps(peers@, pred, peer);
    let wanted = has_ident(node_id);
    let both = |p: ControllerPeer|
        p.peer_state.node_state.session_id == session_id && p.peer_state.node_state.node_id
            == node_id;
    assert(members@.filter(wanted) == all.filter(wanted));
    lemma_filter_both(peers@, pred, wanted, both);
    assert(wanted =~= (|p: ControllerPeer| p.peer_state.node_state.node_id == node_id));
}

/// A report makes a node compare clocks just where it is of a known session other
/// than the current one and its map is not the one for a failure, of slope zero
/// and no intercept. The first map is then that of the current session as it was
/// last measured, and the second is the map that is reported.
pub proof fn law_compared_maps(
    sessions: &Sessions,
    event: &MeasurePeerEvent,
    maps: Option<(GhostXForm, GhostXForm)>,
)
    requires
        call_ensures(Sessions::compared_maps, (sessions, event), maps),
    ensures
        maps is Some <==> (*event matches MeasurePeerEvent::XForm(id, x_form) && {
            &&& id != sessions.current.session_id
            &&& exists|j: int|
                0 <= j < sessions.other_sessions@.len() && (
                #[trigger] sessions.other_sessions@[j]).session_id == id
            &&& !((x_form.slope.bits == 0 || x_form.slope.bits == 0x8000_0000_0000_0000)
                && x_form.intercept == Duration::of_micros(0))
        }),
        maps matches Some((a, b)) ==> {
            &&& a == sessions.current.measurement.x_form
            &&& *event matches MeasurePeerEvent::XForm(_, x_form) && b == x_form
        },
{
    if let MeasurePeerEvent::XForm(id, _) = *event {
        let others = sessions.other_sessions@;
        if position(others, same_as(id)) is None {
            lemma_position_none(others, same_as(id));
            assert forall|j: int| 0 <= j < others.len() implies (
            #[trigger] others[j]).session_id != id by {
                assert(!same_as(id)(others[j].session_id));
            }
        } else {
            let j = choose|j: int| is_first_session(others, same_as(id), j);
            assert(others[j].session_id == id);
        }
    }
}

/// Two session times can be compared where they are at most `i64::MAX`
/// milliseconds apart and the whole microseconds between them are not `i64::MIN`.
pub proof fn law_are_comparable(cur_ghost: &Duration, new_ghost: &Duration, comparable: bool)
    requires
        call_ensures(are_comparable, (cur_ghost, new_ghost), comparable),
    ensures
        ({
            let ahead = new_ghost.nanos() - cur_ghost.nanos();
            comparable <==> {
                &&& -9_223_372_036_854_775_807_000_000 <= ahead
                    <= 9_223_372_036_854_775_807_000_000
                &&& !(-9_223_372_036_854_775_809_000 < ahead <= -9_223_372_036_854_775_808_000)
            }
        }),
{
    lemma_num_micros_bounds(new_ghost.nanos() - cur_ghost.nanos());
}

/// A measurement of the current session is kept with it, and the node tells that
/// it is in that session; nothing else changes.
pub proof fn law_measured_current(
    sessions: &mut Sessions,
    session_id: SessionId,
    x_form: GhostXForm,
    timestamp: Duration,
    cur_ghost: Duration,
    new_ghost: Duration,
    peers: &Vec<ControllerPeer>,
    action: SessionAction,
)
    requires
        call_ensures(
            handle_successful_measurement,
            (sessions, session_id, x_form, timestamp, cur_ghost, new_ghost, peers),
            action,
        ),
        old(sessions).current.session_id == session_id,
    ensures
        final(sessions).current.session_id == session_id,
        final(sessions).current.timeline == old(sessions).current.timeline,
        final(sessions).current.measurement.x_form == x_form,
        final(sessions).current.measurement.timestamp == timestamp,
        final(sessions).other_sessions@ == old(sessions).other_sessions@,
        final(sessions).is_founding == old(sessions).is_founding,
        final(sessions).has_joined == old(sessions).has_joined,
        action matches SessionAction::Join(session) && session == final(sessions).current,
{
}

/// A measurement of a session that the node does not know changes nothing.
pub proof fn law_measured_unknown(
    sessions: &mut Sessions,
    session_id: SessionId,
    x_form: GhostXForm,
    timestamp: Duration,
    cur_ghost: Duration,
    new_ghost: Duration,
    peers: &Vec<ControllerPeer>,
    action: SessionAction,
)
    requires
        call_ensures(
            handle_successful_measurement,
            (sessions, session_id, x_form, timestamp, cur_ghost, new_ghost, peers),
            action,
        ),
        old(sessions).current.session_id != session_id,
        forall|j: int|
            0 <= j < old(sessions).other_sessions@.len() ==> (
            #[trigger] old(sessions).other_sessions@[j]).session_id != session_id,
    ensures
        final(sessions).current == old(sessions).current,
        final(sessions).other_sessions@ == old(sessions).other_sessions@,
        final(sessions).is_founding == old(sessions).is_founding,
        final(sessions).has_joined == old(sessions).has_joined,
        action is Stay,
{
    lemma_no_position(old(sessions).other_sessions@, same_as(session_id));
}

/// A node switches to a session that it measures, and that is first found at `i`
/// among the others, just where that is more than half a second ahead; or less
/// than half a second away and its identifier has the lesser number; or where no
/// peer is in the current session and the measurement is of the first five
/// seconds. A session that is behind by more microseconds than 64 bits hold counts
/// as not away. The two sessions then change places. Either way the measured
/// session gets the measurement and keeps its timeline, and all else stays.
pub proof fn law_measured_other(
    sessions: &mut Sessions,
    session_id: SessionId,
    x_form: GhostXForm,
    timestamp: Duration,
    cur_ghost: Duration,
    new_ghost: Duration,
    peers: &Vec<ControllerPeer>,
    action: SessionAction,
    i: int,
)
    requires
        call_ensures(
            handle_successful_measurement,
            (sessions, session_id, x_form, timestamp, cur_ghost, new_ghost, peers),
            action,
        ),
        old(sessions).current.session_id != session_id,
        0 <= i < old(sessions).other_sessions@.len(),
        old(sessions).other_sessions@[i].session_id == session_id,
        forall|j: int|
            0 <= j < i ==> (#[trigger] old(sessions).other_sessions@[j]).session_id != session_id,
    ensures
        ({
            let before = *old(sessions);
            let after = *final(sessions);
            let ahead = new_ghost.nanos() - cur_ghost.nanos();
            let near = -500_000_000 < ahead < 500_000_000 || ahead
                <= -9_223_372_036_854_775_809_000;
            let alone = forall|j: int|
                0 <= j < peers@.len() ==> (
                #[trigger] peers@[j]).peer_state.node_state.session_id
                    != before.current.session_id;
            let switches = {
                ||| ahead > 500_000_000
                ||| near && session_id.0.0 < before.current.session_id.0.0
                ||| alone && timestamp.nanos() < 5_000_000_000
            };
            let measured = if switches {
                after.current
            } else {
                after.other_sessions@[i]
            };
            let left = if switches {
                after.other_sessions@[i]
            } else {
                after.current
            };
            &&& measured.session_id == session_id
            &&& measured.timeline == before.other_sessions@[i].timeline
            &&& measured.measurement.x_form == x_form
            &&& measured.measurement.timestamp == timestamp
            &&& left == before.current
            &&& after.other_sessions@.len() == before.other_sessions@.len()
            &&& forall|j: int|
                0 <= j < before.other_sessions@.len() && j != i
                    ==> #[trigger] after.other_sessions@[j] == before.other_sessions@[j]
            &&& after.is_founding == before.is_founding
            &&& after.has_joined == before.has_joined
            &&& switches ==> (action matches SessionAction::Switch(session) && session
                == after.current)
            &&& !switches ==> action is Stay
        }),
{
    let current = old(sessions).current.session_id;
    let members = peers@.filter(in_session(current));
    lemma_position(old(sessions).other_sessions@, same_as(session_id), i);
    lemma_num_micros_bounds(new_ghost.nanos() - cur_ghost.nanos());
    if exists|j: int|
        0 <= j < peers@.len() && in_session(current)(#[trigger] peers@[j]) {
        lemma_filter_first(peers@, in_session(current));
    } else {
        assert forall|j: int| 0 <= j < peers@.len() implies (
        #[trigger] peers@[j]).peer_state.node_state.session_id != current by {
            assert(!in_session(current)(peers@[j]));
        }
        lemma_filter_none(peers@, in_session(current));
    }
}

/// Where the measurement of the current session fails, nothing changes and the
/// current session is measured again.
pub proof fn law_failed_current(
    sessions: &mut Sessions,
    session_id: SessionId,
    peers: &mut Vec<ControllerPeer>,
    action: SessionAction,
)
    requires
        call_ensures(handle_failed_measurement, (sessions, session_id, peers), action),
        old(sessions).current.session_id == session_id,
    ensures
        final(sessions).current == old(sessions).current,
        final(sessions).other_sessions@ == old(sessions).other_sessions@,
        final(sessions).is_founding == old(sessions).is_founding,
        final(sessions).has_joined == old(sessions).has_joined,
        final(peers)@ == old(peers)@,
        action matches SessionAction::Remeasure(session) && session == old(sessions).current,
{
}

/// Where the measurement of a session other than the current one fails, the first
/// of the other sessions that is not the failed one, at `i`, is dropped, and just
/// the peers that are in the failed session are; what is left keeps its order.
pub proof fn law_failed_other(
    sessions: &mut Sessions,
    session_id: SessionId,
    peers: &mut Vec<ControllerPeer>,
    action: SessionAction,
    i: int,
    peer: ControllerPeer,
)
    requires
        call_ensures(handle_failed_measurement, (sessions, session_id, peers), action),
        old(sessions).current.session_id != session_id,
        0 <= i < old(sessions).other_sessions@.len(),
        old(sessions).other_sessions@[i].session_id != session_id,
        forall|j: int|
            0 <= j < i ==> (#[trigger] old(sessions).other_sessions@[j]).session_id == session_id,
    ensures
        final(sessions).other_sessions@ == old(sessions).other_sessions@.take(i) + old(
            sessions).other_sessions@.skip(i + 1),
        final(sessions).current == old(sessions).current,
        final(sessions).is_founding == old(sessions).is_founding,
        final(sessions).has_joined == old(sessions).has_joined,
        final(peers)@ == old(peers)@.filter(
            |p: ControllerPeer| p.peer_state.node_state.session_id != session_id,
        ),
        final(peers)@.contains(peer) <==> old(peers)@.contains(peer)
            && peer.peer_state.node_state.session_id != session_id,
        action is Stay,
{
    lemma_position(old(sessions).other_sessions@, other_than(session_id), i);
    assert(outside_session(session_id) =~= (|p: ControllerPeer|
        p.peer_state.node_state.session_id != session_id));
    lemma_filter_keeps(old(peers)@, outside_session(session_id), peer);
}

/// Where the measurement of a session other than the current one fails and no
/// other session than that is listed, nothing changes.
pub proof fn law_failed_alone(
    sessions: &mut Sessions,
    session_id: SessionId,
    peers: &mut Vec<ControllerPeer>,
    action: SessionAction,
)
    requires
        call_ensures(handle_failed_measurement, (sessions, session_id, peers), action),
        old(sessions).current.session_id != session_id,
        forall|j: int|
            0 <= j < old(sessions).other_sessions@.len() ==> (
            #[trigger] old(sessions).other_sessions@[j]).session_id == session_id,
    ensures
        final(sessions).current == old(sessions).current,
        final(sessions).other_sessions@ == old(sessions).other_sessions@,
        final(sessions).is_founding == old(sessions).is_founding,
        final(sessions).has_joined == old(sessions).has_joined,
        final(peers)@ == old(peers)@,
        action is Stay,
{
    lemma_no_position(old(sessions).other_sessions@, other_than(session_id));
}

/// What is reported of a measurement is noted as a failure just where the map has
/// slope zero, of either sign, and no intercept: what is done is then what
/// `handle_failed_measurement` does.
pub proof fn law_failure_noted(
    sessions: &mut Sessions,
    same_sessions: &mut Sessions,
    session_id: SessionId,
    x_form: GhostXForm,
    timestamp: Duration,
    cur_ghost: Duration,
    new_ghost: Duration,
    peers: &mut Vec<ControllerPeer>,
    same_peers: &mut Vec<ControllerPeer>,
    action: SessionAction,
    expected: SessionAction,
)
    requires
        x_form.slope.bits == 0 || x_form.slope.bits == 0x8000_0000_0000_0000,
        x_form.intercept == Duration::of_micros(0),
        call_ensures(
            Sessions::handle_measurement,
            (
                sessions,
                MeasurePeerEvent::XForm(session_id, x_form),
                timestamp,
                cur_ghost,
                new_ghost,
                peers,
            ),
            action,
        ),
        call_ensures(
            handle_failed_measurement,
            (same_sessions, session_id, same_peers),
            expected,
        ),
        old(same_sessions).current == old(sessions).current,
        old(same_sessions).other_sessions@ == old(sessions).other_sessions@,
        old(same_sessions).is_founding == old(sessions).is_founding,
        old(same_sessions).has_joined == old(sessions).has_joined,
        old(same_peers)@ == old(peers)@,
    ensures
        final(sessions).current == final(same_sessions).current,
        final(sessions).other_sessions@ == final(same_sessions).other_sessions@,
        final(sessions).is_founding == final(same_sessions).is_founding,
        final(sessions).has_joined == final(same_sessions).has_joined,
        final(peers)@ == final(same_peers)@,
        action == expected,
{
}

/// What is reported of a measurement with any other map is noted as a success:
/// what is done is what `handle_successful_measurement` does with the same map and
/// the same times in the same order, and the peers stay.
pub proof fn law_success_noted(
    sessions: &mut Sessions,
    same_sessions: &mut Sessions,
    session_id: SessionId,
    x_form: GhostXForm,
    timestamp: Duration,
    cur_ghost: Duration,
    new_ghost: Duration,
    peers: &mut Vec<ControllerPeer>,
    same_peers: &Vec<ControllerPeer>,
    action: SessionAction,
    expected: SessionAction,
)
    requires
        !(x_form.slope.bits == 0 || x_form.slope.bits == 0x8000_0000_0000_0000)
            || x_form.intercept != Duration::of_micros(0),
        call_ensures(
            Sessions::handle_measurement,
            (
                sessions,
                MeasurePeerEvent::XForm(session_id, x_form),
                timestamp,
                cur_ghost,
                new_ghost,
                peers,
            ),
            action,
        ),
        call_ensures(
            handle_successful_measurement,
            (same_sessions, session_id, x_form, timestamp, cur_ghost, new_ghost, same_peers),
            expected,
        ),
        old(same_sessions).current == old(sessions).current,
        old(same_sessions).other_sessions@ == old(sessions).other_sessions@,
        old(same_sessions).is_founding == old(sessions).is_founding,
        old(same_sessions).has_joined == old(sessions).has_joined,
        same_peers@ == old(peers)@,
    ensures
        final(sessions).current == final(same_sessions).current,
        final(sessions).other_sessions@ == final(same_sessions).other_sessions@,
        final(sessions).is_founding == final(same_sessions).is_founding,
        final(sessions).has_joined == final(same_sessions).has_joined,
        final(peers)@ == old(peers)@,
        action == expected,
{
}

/// A request to measure a peer is no report, and noting it changes nothing.
pub proof fn law_request_ignored(
    sessions: &mut Sessions,
    event: MeasurePeerEvent,
    timestamp: Duration,
    cur_ghost: Duration,
    new_ghost: Duration,
    peers: &mut Vec<ControllerPeer>,
    action: SessionAction,
)
    requires
        call_ensures(
            Sessions::handle_measurement,
            (sessions, event, timestamp, cur_ghost, new_ghost, peers),
            action,
        ),
        event is PeerState,
    ensures
        final(sessions).current == old(sessions).current,
        final(sessions).other_sessions@ == old(sessions).other_sessions@,
        final(sessions).is_founding == old(sessions).is_founding,
        final(sessions).has_joined == old(sessions).has_joined,
        final(peers)@ == old(peers)@,
        action is Stay,
{
}

/// A session is measured again every thirty seconds.
pub proof fn law_remeasurement_interval()
    ensures
        REMEASUREMENT_MICROS == 30 * 1_000_000,
{
}

/// A session is named, ordered and written as the node that founded it.
pub proof fn law_session_id(
    a: &SessionId,
    b: &SessionId,
    text: String,
    node_text: String,
    order: Option<Ordering>,
    membership: SessionMembership,
)
    requires
        call_ensures(SessionId::to_string, (a,), text),
        call_ensures(NodeId::to_string, (&a.0,), node_text),
        call_ensures(SessionId::partial_cmp, (a, b), order),
        call_ensures(SessionMembership::from, (*a,), membership),
    ensures
        text@ == node_text@,
        order == Some(Ordering::Less) <==> a.0.0 < b.0.0,
        order == Some(Ordering::Equal) <==> a.0.0 == b.0.0,
        order == Some(Ordering::Greater) <==> a.0.0 > b.0.0,
        membership.session_id == *a,
{
}

/// What stands for no session is of number zero, and what stands for no
/// measurement takes every time to zero and was made at zero.
pub proof fn law_session_defaults(
    session_id: SessionId,
    membership: SessionMembership,
    measurement: SessionMeasurement,
)
    requires
        call_ensures(SessionId::default, (), session_id),
        call_ensures(SessionMembership::default, (), membership),
        call_ensures(SessionMeasurement::default, (), measurement),
    ensures
        session_id.0.0 == 0,
        membership.session_id.0.0 == 0,
        measurement.x_form.slope.bits == 0,
        measurement.x_form.intercept.nanos() == 0,
        measurement.timestamp.nanos() == 0,
{
    Duration::lemma_of_micros(0);
}

} // verus!
