//! Sessions: who is in them, how they were measured, and which one to be in.

use crate::duration::{in_range, num_micros, num_micros_or_zero, Duration};
use crate::encoding::{encode_to_vec, Decode, DecodeError, Encode};
use crate::link::error::Error;
use crate::link::ghostxform::GhostXForm;
use crate::link::measurement::MeasurePeerEvent;
use crate::link::node::{hex, law_node_id_roundtrip, NodeId};
use crate::link::payload::PayloadEntryHeader;
use crate::link::peers::ControllerPeer;
use crate::link::timeline::Timeline;
use std::cmp::Ordering;
use vstd::multiset::Multiset;
use vstd::prelude::*;

verus! {

/// The key of a session membership entry: "sess" in ASCII.
pub const SESSION_MEMBERSHIP_HEADER_KEY: u32 = 0x73657373;

/// The size of the value of a session membership entry.
pub const SESSION_MEMBERSHIP_SIZE: u32 = 8;

/// The header of a session membership entry.
#[verifier::allow_in_spec]
pub fn session_membership_header() -> PayloadEntryHeader
    returns
        (PayloadEntryHeader {
            key: SESSION_MEMBERSHIP_HEADER_KEY,
            size: SESSION_MEMBERSHIP_SIZE,
        }),
{
    PayloadEntryHeader {
        key: SESSION_MEMBERSHIP_HEADER_KEY,
        size: SESSION_MEMBERSHIP_SIZE,
    }
}

/// The identifier of a session: that of the node that founded it.
#[derive(Clone, Copy, Debug, PartialEq, Eq, Structural)]
pub struct SessionId(pub NodeId);

impl SessionId {
    /// Whether the identifier comes before `other`.
    pub open spec fn before(self, other: SessionId) -> bool {
        self.0.before(other.0)
    }

    /// The identifier as sixteen hexadecimal digits.
    pub fn to_string(&self) -> (text: String)
        ensures
            text@ == hex(self.0.bytes()),
    {
        self.0.to_string()
    }
}

impl Default for SessionId {
    fn default() -> (id: SessionId)
        ensures
            id == SessionId(NodeId(0)),
    {
        SessionId(NodeId::default())
    }
}

impl PartialOrd for SessionId {
    fn partial_cmp(&self, other: &SessionId) -> (order: Option<Ordering>) {
        self.0.partial_cmp(&other.0)
    }
}

impl vstd::std_specs::cmp::PartialOrdSpecImpl for SessionId {
    open spec fn obeys_partial_cmp_spec() -> bool {
        true
    }

    open spec fn partial_cmp_spec(&self, other: &SessionId) -> Option<Ordering> {
        if self.before(*other) {
            Some(Ordering::Less)
        } else if *self == *other {
            Some(Ordering::Equal)
        } else {
            Some(Ordering::Greater)
        }
    }
}

impl Encode for SessionId {
    open spec fn encoding(&self) -> Seq<u8> {
        self.0.encoding()
    }

    fn encode_to(&self, out: &mut Vec<u8>) {
        self.0.encode_to(out);
    }

    fn encoded_size(&self) -> usize {
        self.0.encoded_size()
    }
}

impl Decode for SessionId {
    open spec fn decoding(bytes: Seq<u8>) -> Option<(Self, nat)> {
        match NodeId::decoding(bytes) {
            Some((node_id, size)) => Some((SessionId(node_id), size)),
            None => None,
        }
    }

    fn decode_from(bytes: &[u8]) -> Result<(Self, usize), DecodeError> {
        let (node_id, n) = NodeId::decode_from(bytes)?;
        Ok((SessionId(node_id), n))
    }
}

/// The session that a node says it is in.
#[derive(Clone, Copy, Debug, PartialEq, Eq, Structural)]
pub struct SessionMembership {
    pub session_id: SessionId,
}

impl Default for SessionMembership {
    fn default() -> (membership: SessionMembership)
        ensures
            membership.session_id == SessionId(NodeId(0)),
    {
        SessionMembership { session_id: SessionId::default() }
    }
}

impl Encode for SessionMembership {
    open spec fn encoding(&self) -> Seq<u8> {
        self.session_id.encoding()
    }

    fn encode_to(&self, out: &mut Vec<u8>) {
        self.session_id.encode_to(out);
    }

    fn encoded_size(&self) -> usize {
        self.session_id.encoded_size()
    }
}

impl Decode for SessionMembership {
    open spec fn decoding(bytes: Seq<u8>) -> Option<(Self, nat)> {
        match SessionId::decoding(bytes) {
            Some((session_id, size)) => Some((SessionMembership { session_id }, size)),
            None => None,
        }
    }

    fn decode_from(bytes: &[u8]) -> Result<(Self, usize), DecodeError> {
        let (session_id, n) = SessionId::decode_from(bytes)?;
        Ok((SessionMembership { session_id }, n))
    }
}

impl From<SessionId> for SessionMembership {
    fn from(session_id: SessionId) -> (membership: SessionMembership) {
        SessionMembership { session_id }
    }
}

impl vstd::std_specs::convert::FromSpecImpl<SessionId> for SessionMembership {
    open spec fn obeys_from_spec() -> bool {
        true
    }

    open spec fn from_spec(session_id: SessionId) -> SessionMembership {
        SessionMembership { session_id }
    }
}

impl SessionMembership {
    /// The whole entry: its header, then the identifier.
    pub fn encode(&self) -> (encoded: Result<Vec<u8>, Error>)
        ensures
            encoded matches Ok(bytes) && bytes@ == session_membership_header().encoding()
                + self.encoding(),
    {
        let mut encoded: Vec<u8> = session_membership_header().encode();
        encoded.append(&mut encode_to_vec(&self.session_id));
        Ok(encoded)
    }
}

/// Decoding what a session identifier or a membership was encoded to, whatever
/// bytes follow, gives it back with the size of its encoding.
pub proof fn law_membership_roundtrip(membership: SessionMembership, rest: Seq<u8>)
    ensures
        SessionId::decoding(membership.session_id.encoding() + rest) == Some(
            (membership.session_id, 8nat),
        ),
        SessionMembership::decoding(membership.encoding() + rest) == Some((membership, 8nat)),
{
    law_node_id_roundtrip(membership.session_id.0, rest);
}

/// How a session was measured, and when.
#[derive(Clone, Copy, Debug)]
pub struct SessionMeasurement {
    pub x_form: GhostXForm,
    pub timestamp: Duration,
}

impl SessionMeasurement {
    /// The measurement of a session that was not measured yet.
    pub open spec fn unmeasured() -> SessionMeasurement {
        SessionMeasurement {
            x_form: GhostXForm::unmeasured(),
            timestamp: Duration::of_micros(0),
        }
    }
}

impl Default for SessionMeasurement {
    fn default() -> (measurement: SessionMeasurement)
        ensures
            measurement == SessionMeasurement::unmeasured(),
    {
        SessionMeasurement { x_form: GhostXForm::default(), timestamp: Duration::zero() }
    }
}

/// A session as it is known here.
#[derive(Clone, Copy, Debug)]
pub struct Session {
    pub session_id: SessionId,
    pub timeline: Timeline,
    pub measurement: SessionMeasurement,
}

/// Whether a peer is in the session `session_id`.
pub open spec fn in_session(session_id: SessionId) -> spec_fn(ControllerPeer) -> bool {
    |peer: ControllerPeer| peer.peer_state.session_id() == session_id
}

/// Whether a peer has the identifier `ident`.
pub open spec fn has_ident(ident: NodeId) -> spec_fn(ControllerPeer) -> bool {
    |peer: ControllerPeer| peer.peer_state.ident() == ident
}

/// Whether peers are in the order of their identifiers.
pub open spec fn sorted_by_ident(peers: Seq<ControllerPeer>) -> bool {
    forall|i: int, j: int|
        0 <= i < j < peers.len() ==> !(#[trigger] peers[j]).peer_state.ident().before(
            (#[trigger] peers[i]).peer_state.ident(),
        )
}

/// Whether `sorted` holds the peers of `peers`, in the order of their
/// identifiers, and those with the same identifier in the order that they have in
/// `peers`.
pub open spec fn is_stably_sorted(sorted: Seq<ControllerPeer>, peers: Seq<ControllerPeer>) -> bool {
    &&& sorted.len() == peers.len()
    &&& sorted_by_ident(sorted)
    &&& forall|ident: NodeId| #[trigger]
        sorted.filter(has_ident(ident)) == peers.filter(has_ident(ident))
}

/// Where nothing passes, the filter leaves nothing.
pub(crate) proof fn lemma_filter_none(peers: Seq<ControllerPeer>, pred: spec_fn(ControllerPeer) -> bool)
    requires
        forall|i: int| 0 <= i < peers.len() ==> !pred(#[trigger] peers[i]),
    ensures
        peers.filter(pred) == Seq::<ControllerPeer>::empty(),
    decreases peers.len(),
{
    reveal(Seq::filter);
    if peers.len() > 0 {
        assert(!pred(peers.last()));
        assert forall|i: int| 0 <= i < peers.drop_last().len() implies !pred(
            #[trigger] peers.drop_last()[i],
        ) by {
            assert(peers.drop_last()[i] == peers[i]);
        }
        lemma_filter_none(peers.drop_last(), pred);
    }
}

/// Putting a peer behind all that do not come after it keeps peers stably sorted.
proof fn lemma_insert_sorted(
    sorted: Seq<ControllerPeer>,
    peers: Seq<ControllerPeer>,
    pos: int,
    peer: ControllerPeer,
)
    requires
        is_stably_sorted(sorted, peers),
        0 <= pos <= sorted.len(),
        forall|i: int|
            0 <= i < pos ==> !peer.peer_state.ident().before(
                (#[trigger] sorted[i]).peer_state.ident(),
            ),
        forall|i: int|
            pos <= i < sorted.len() ==> peer.peer_state.ident().before(
                (#[trigger] sorted[i]).peer_state.ident(),
            ),
    ensures
        is_stably_sorted(sorted.insert(pos, peer), peers.push(peer)),
{
    let low = sorted.take(pos);
    let high = sorted.skip(pos);
    let result = sorted.insert(pos, peer);
    assert(sorted == low + high);
    assert(result == low.push(peer) + high);
    assert forall|ident: NodeId| #[trigger]
        result.filter(has_ident(ident)) == peers.push(peer).filter(has_ident(ident)) by {
        let pred = has_ident(ident);
        assert(sorted.filter(pred) == peers.filter(pred));
        Seq::filter_distributes_over_add(low, high, pred);
        Seq::filter_distributes_over_add(low.push(peer), high, pred);
        reveal(Seq::filter);
        assert(low.push(peer).drop_last() == low);
        assert(peers.push(peer).drop_last() == peers);
        if pred(peer) {
            assert forall|i: int| 0 <= i < high.len() implies !pred(#[trigger] high[i]) by {
                assert(high[i] == sorted[pos + i]);
            }
            lemma_filter_none(high, pred);
        }
    }
}

/// The peers that are in the session, in the order of their identifiers; peers
/// with the same identifier keep their order.
pub fn session_peers(peers: &Vec<ControllerPeer>, session_id: SessionId) -> (members: Vec<
    ControllerPeer,
>)
    ensures
        is_stably_sorted(members@, peers@.filter(in_session(session_id))),
{
    let mut members: Vec<ControllerPeer> = Vec::new();
    let mut i: usize = 0;
    proof {
        reveal(Seq::filter);
        assert(peers@.take(0).filter(in_session(session_id)) == members@);
    }
    while i < peers.len()
        invariant
            i <= peers@.len(),
            is_stably_sorted(members@, peers@.take(i as int).filter(in_session(session_id))),
        decreases peers@.len() - i,
    {
        let peer: ControllerPeer = peers[i];
        let ghost before = peers@.take(i as int).filter(in_session(session_id));
        proof {
            reveal(Seq::filter);
            assert(peers@.take(i + 1).drop_last() == peers@.take(i as int));
        }
        if peer.peer_state.session_id() == session_id {
            let mut pos: usize = members.len();
            while pos > 0 && peer.peer_state.ident() < members[pos - 1].peer_state.ident()
                invariant
                    pos <= members@.len(),
                    forall|j: int|
                        pos <= j < members@.len() ==> peer.peer_state.ident().before(
                            (#[trigger] members@[j]).peer_state.ident(),
                        ),
                decreases pos,
            {
                pos -= 1;
            }
            proof {
                lemma_insert_sorted(members@, before, pos as int, peer);
            }
            members.insert(pos, peer);
        }
        i += 1;
    }
    assert(peers@.take(i as int) == peers@);
    members
}

/// Whether `i` is the first place in `peers` where `pred` holds.
pub open spec fn is_first(
    peers: Seq<ControllerPeer>,
    pred: spec_fn(ControllerPeer) -> bool,
    i: int,
) -> bool {
    &&& 0 <= i < peers.len()
    &&& pred(peers[i])
    &&& forall|j: int| 0 <= j < i ==> !pred(#[trigger] peers[j])
}

/// What a filter keeps first is the first that passes.
pub(crate) proof fn lemma_filter_first(
    peers: Seq<ControllerPeer>,
    pred: spec_fn(ControllerPeer) -> bool,
) -> (i: int)
    requires
        exists|j: int| 0 <= j < peers.len() && pred(#[trigger] peers[j]),
    ensures
        is_first(peers, pred, i),
        peers.filter(pred).len() > 0,
        peers.filter(pred)[0] == peers[i],
    decreases peers.len(),
{
    reveal(Seq::filter);
    let front = peers.drop_last();
    if exists|j: int| 0 <= j < front.len() && pred(#[trigger] front[j]) {
        let i = lemma_filter_first(front, pred);
        assert forall|j: int| 0 <= j < i implies !pred(#[trigger] peers[j]) by {
            assert(!pred(front[j]));
        }
        i
    } else {
        lemma_filter_none(front, pred);
        let i = peers.len() - 1;
        assert forall|j: int| 0 <= j < i implies !pred(#[trigger] peers[j]) by {
            assert(!pred(front[j]));
        }
        i
    }
}

/// Two sequences of peers that are sorted, and that have the same peers in the
/// same order for each identifier, are equal.
proof fn lemma_sorted_unique(a: Seq<ControllerPeer>, b: Seq<ControllerPeer>)
    requires
        sorted_by_ident(a),
        sorted_by_ident(b),
        a.len() == b.len(),
        forall|ident: NodeId| #[trigger]
            a.filter(has_ident(ident)) == b.filter(has_ident(ident)),
    ensures
        a == b,
    decreases a.len(),
{
    if a.len() > 0 {
        let x = a.last();
        let y = b.last();
        let px = has_ident(x.peer_state.ident());
        let py = has_ident(y.peer_state.ident());
        reveal(Seq::filter);
        assert(px(x) && py(y));
        assert(a.filter(px).last() == x);
        assert(b.filter(py).last() == y);
        assert(a.filter(px) == b.filter(px));
        assert(a.filter(py) == b.filter(py));
        if forall|j: int| 0 <= j < b.len() ==> !px(#[trigger] b[j]) {
            lemma_filter_none(b, px);
        }
        if forall|j: int| 0 <= j < a.len() ==> !py(#[trigger] a[j]) {
            lemma_filter_none(a, py);
        }
        let j = choose|j: int| 0 <= j < b.len() && px(#[trigger] b[j]);
        let k = choose|k: int| 0 <= k < a.len() && py(#[trigger] a[k]);
        assert(j < b.len() - 1 ==> !b[b.len() - 1].peer_state.ident().before(
            b[j].peer_state.ident(),
        ));
        assert(k < a.len() - 1 ==> !a[a.len() - 1].peer_state.ident().before(
            a[k].peer_state.ident(),
        ));
        assert(x.peer_state.ident() == y.peer_state.ident());
        assert(x == y);
        assert forall|ident: NodeId| #[trigger]
            a.drop_last().filter(has_ident(ident)) == b.drop_last().filter(has_ident(ident)) by {
            let pred = has_ident(ident);
            assert(a.filter(pred) == b.filter(pred));
            if pred(x) {
                assert(a.filter(pred).drop_last() == a.drop_last().filter(pred));
                assert(b.filter(pred).drop_last() == b.drop_last().filter(pred));
            }
        }
        lemma_sorted_unique(a.drop_last(), b.drop_last());
        assert(a == a.drop_last().push(x));
        assert(b == b.drop_last().push(y));
    }
}

/// Peers have one stable order by identifier.
pub proof fn law_stable_order_unique(
    a: Seq<ControllerPeer>,
    b: Seq<ControllerPeer>,
    peers: Seq<ControllerPeer>,
)
    requires
        is_stably_sorted(a, peers),
        is_stably_sorted(b, peers),
    ensures
        a == b,
{
    assert forall|ident: NodeId| #[trigger]
        a.filter(has_ident(ident)) == b.filter(has_ident(ident)) by {
        assert(a.filter(has_ident(ident)) == peers.filter(has_ident(ident)));
        assert(b.filter(has_ident(ident)) == peers.filter(has_ident(ident)));
    }
    lemma_sorted_unique(a, b);
}

/// Whether `peer` is the one of `members` to measure for the session that the
/// node `founder` founded: the founder where it is a member, else the member with
/// the least identifier; of several with the same identifier, the first.
pub open spec fn is_measured(
    members: Seq<ControllerPeer>,
    founder: NodeId,
    peer: ControllerPeer,
) -> bool {
    &&& exists|i: int| #[trigger]
        is_first(members, has_ident(peer.peer_state.ident()), i) && members[i] == peer
    &&& peer.peer_state.ident() == founder || (forall|j: int|
        0 <= j < members.len() ==> (#[trigger] members[j]).peer_state.ident() != founder
            && !members[j].peer_state.ident().before(peer.peer_state.ident()))
}

/// Whether `event` is what measuring the session asks for where these are the
/// peers: nothing where the session has no members, else to measure one of them.
pub open spec fn asks_to_measure(
    peers: Seq<ControllerPeer>,
    session_id: SessionId,
    event: Option<MeasurePeerEvent>,
) -> bool {
    let members = peers.filter(in_session(session_id));
    match event {
        None => members.len() == 0,
        Some(MeasurePeerEvent::PeerState(id, peer_state)) => id == session_id && is_measured(
            members,
            session_id.0,
            ControllerPeer { peer_state },
        ),
        Some(MeasurePeerEvent::XForm(_, _)) => false,
    }
}

/// Peers that are stably sorted have the identifiers of the peers they come from,
/// and the other way round.
proof fn lemma_same_idents(sorted: Seq<ControllerPeer>, peers: Seq<ControllerPeer>, ident: NodeId)
    requires
        is_stably_sorted(sorted, peers),
    ensures
        (exists|i: int| 0 <= i < sorted.len() && has_ident(ident)(#[trigger] sorted[i])) <==> (
        exists|i: int| 0 <= i < peers.len() && has_ident(ident)(#[trigger] peers[i])),
{
    let pred = has_ident(ident);
    assert(sorted.filter(pred) == peers.filter(pred));
    if exists|i: int| 0 <= i < sorted.len() && pred(#[trigger] sorted[i]) {
        let i = lemma_filter_first(sorted, pred);
        if !exists|i: int| 0 <= i < peers.len() && pred(#[trigger] peers[i]) {
            lemma_filter_none(peers, pred);
        }
    }
    if exists|i: int| 0 <= i < peers.len() && pred(#[trigger] peers[i]) {
        let i = lemma_filter_first(peers, pred);
        if !exists|i: int| 0 <= i < sorted.len() && pred(#[trigger] sorted[i]) {
            lemma_filter_none(sorted, pred);
        }
    }
}

/// The first of stably sorted peers with some identifier is also the first with
/// it of the peers they come from.
proof fn lemma_same_first(
    sorted: Seq<ControllerPeer>,
    peers: Seq<ControllerPeer>,
    ident: NodeId,
    k: int,
)
    requires
        is_stably_sorted(sorted, peers),
        is_first(sorted, has_ident(ident), k),
    ensures
        exists|i: int| #[trigger] is_first(peers, has_ident(ident), i) && peers[i] == sorted[k],
{
    let pred = has_ident(ident);
    assert(sorted.filter(pred) == peers.filter(pred));
    lemma_same_idents(sorted, peers, ident);
    let i = lemma_filter_first(peers, pred);
    let l = lemma_filter_first(sorted, pred);
    assert(l == k);
}

/// What to ask for to have the session measured: the founder is measured where it
/// is a member, else the member with the least identifier.
pub fn launch_session_measurement(peers: &Vec<ControllerPeer>, session: &Session) -> (event: Option<
    MeasurePeerEvent,
>)
    ensures
        asks_to_measure(peers@, session.session_id, event),
{
    let ghost all = peers@.filter(in_session(session.session_id));
    let members: Vec<ControllerPeer> = session_peers(peers, session.session_id);
    if members.len() == 0 {
        return None;
    }
    let founder: NodeId = session.session_id.0;
    let mut k: usize = 0;
    while k < members.len()
        invariant
            k <= members@.len(),
            founder == session.session_id.0,
            all == peers@.filter(in_session(session.session_id)),
            is_stably_sorted(members@, all),
            forall|j: int| 0 <= j < k ==> !has_ident(founder)(#[trigger] members@[j]),
        decreases members@.len() - k,
    {
        if members[k].peer_state.ident() == founder {
            let peer: ControllerPeer = members[k];
            proof {
                lemma_same_first(members@, all, founder, k as int);
                assert(ControllerPeer { peer_state: peer.peer_state } == peer);
            }
            return Some(MeasurePeerEvent::PeerState(session.session_id, peer.peer_state));
        }
        k += 1;
    }
    let peer: ControllerPeer = members[0];
    proof {
        let ident = peer.peer_state.ident();
        assert(is_first(members@, has_ident(ident), 0));
        lemma_same_first(members@, all, ident, 0);
        lemma_same_idents(members@, all, founder);
        assert forall|j: int| 0 <= j < all.len() implies (
        #[trigger] all[j]).peer_state.ident() != founder && !all[j].peer_state.ident().before(
            ident,
        ) by {
            assert(!has_ident(founder)(all[j]));
            let other = all[j].peer_state.ident();
            assert(has_ident(other)(all[j]));
            lemma_same_idents(members@, all, other);
            let l = choose|l: int| 0 <= l < members@.len() && has_ident(other)(
                #[trigger] members@[l],
            );
            assert(l > 0 ==> !members@[l].peer_state.ident().before(members@[0].peer_state.ident()));
        }
        assert(ControllerPeer { peer_state: peer.peer_state } == peer);
    }
    Some(MeasurePeerEvent::PeerState(session.session_id, peer.peer_state))
}

/// How far apart, in microseconds, the times of two sessions may be to count as
/// similar.
pub const SESSION_EPS_MICROS: i64 = 500_000;

/// How long after the start, in microseconds, a node without peers takes any
/// session.
pub const JUST_STARTED_MICROS: i64 = 5_000_000;

/// How long to wait, in microseconds, before a session is measured again.
pub const REMEASUREMENT_MICROS: i64 = 30_000_000;

/// What to do after a measurement.
#[derive(Clone, Copy, Debug)]
pub enum SessionAction {
    /// Nothing.
    Stay,
    /// Tell that the node is in this session, which was measured.
    Join(Session),
    /// Tell that the node is now in this session, and measure it again every
    /// `REMEASUREMENT_MICROS`.
    Switch(Session),
    /// Measure this session again every `REMEASUREMENT_MICROS`.
    Remeasure(Session),
}

/// The sessions that a node knows.
#[derive(Debug)]
pub struct Sessions {
    /// The sessions that were seen. The one that the node starts in is listed here
    /// as well as in `current`.
    pub other_sessions: Vec<Session>,
    /// The session that the node is in.
    pub current: Session,
    pub is_founding: bool,
    /// Whether the timeline of the current session was seen from a peer.
    pub has_joined: bool,
}

/// The sessions that a node knows, as a value.
pub struct SessionsView {
    pub other_sessions: Seq<Session>,
    pub current: Session,
    pub is_founding: bool,
    pub has_joined: bool,
}

impl View for Sessions {
    type V = SessionsView;

    open spec fn view(&self) -> SessionsView {
        SessionsView {
            other_sessions: self.other_sessions@,
            current: self.current,
            is_founding: self.is_founding,
            has_joined: self.has_joined,
        }
    }
}

/// Whether `i` is the first place in `sessions` whose identifier `wanted` accepts.
pub open spec fn is_first_session(
    sessions: Seq<Session>,
    wanted: spec_fn(SessionId) -> bool,
    i: int,
) -> bool {
    &&& 0 <= i < sessions.len()
    &&& wanted(sessions[i].session_id)
    &&& forall|j: int| 0 <= j < i ==> !wanted((#[trigger] sessions[j]).session_id)
}

/// The first place in `sessions` whose identifier `wanted` accepts, if there is
/// one.
pub open spec fn position(sessions: Seq<Session>, wanted: spec_fn(SessionId) -> bool) -> Option<
    int,
> {
    if exists|i: int| is_first_session(sessions, wanted, i) {
        Some(choose|i: int| is_first_session(sessions, wanted, i))
    } else {
        None
    }
}

/// The identifiers that are `session_id`.
pub open spec fn same_as(session_id: SessionId) -> spec_fn(SessionId) -> bool {
    |id: SessionId| id == session_id
}

/// The identifiers that are not `session_id`.
pub open spec fn other_than(session_id: SessionId) -> spec_fn(SessionId) -> bool {
    |id: SessionId| id != session_id
}

/// There is one first place.
pub(crate) proof fn lemma_position(sessions: Seq<Session>, wanted: spec_fn(SessionId) -> bool, i: int)
    requires
        is_first_session(sessions, wanted, i),
    ensures
        position(sessions, wanted) == Some(i),
{
    let k = choose|k: int| is_first_session(sessions, wanted, k);
    assert(is_first_session(sessions, wanted, k));
    if k < i {
        assert(!wanted(sessions[k].session_id));
    } else if i < k {
        assert(!wanted(sessions[i].session_id));
    }
}

/// The first place in `sessions` of the session `session_id`, or of another one
/// where `same` is false.
fn find_session(sessions: &Vec<Session>, session_id: SessionId, same: bool) -> (found: Option<
    usize,
>)
    ensures
        ({
            let wanted = if same {
                same_as(session_id)
            } else {
                other_than(session_id)
            };
            match found {
                Some(i) => i < sessions@.len() && position(sessions@, wanted) == Some(i as int),
                None => position(sessions@, wanted) is None,
            }
        }),
{
    let ghost wanted = if same {
        same_as(session_id)
    } else {
        other_than(session_id)
    };
    let mut i: usize = 0;
    while i < sessions.len()
        invariant
            i <= sessions@.len(),
            wanted == (if same {
                same_as(session_id)
            } else {
                other_than(session_id)
            }),
            forall|j: int| 0 <= j < i ==> !wanted((#[trigger] sessions@[j]).session_id),
        decreases sessions@.len() - i,
    {
        if (sessions[i].session_id == session_id) == same {
            proof {
                lemma_position(sessions@, wanted, i as int);
            }
            return Some(i);
        }
        i += 1;
    }
    None
}

/// The session with the timeline, where that has a later beat origin than its
/// own.
pub open spec fn with_timeline(session: Session, timeline: Timeline) -> Session {
    if timeline.beat_origin.value > session.timeline.beat_origin.value {
        Session { timeline, ..session }
    } else {
        session
    }
}

/// The sessions after the timeline of the session `session_id` was seen.
pub open spec fn after_timeline(
    sessions: SessionsView,
    session_id: SessionId,
    timeline: Timeline,
) -> SessionsView {
    if sessions.current.session_id == session_id {
        SessionsView {
            current: with_timeline(sessions.current, timeline),
            has_joined: true,
            ..sessions
        }
    } else {
        SessionsView {
            other_sessions: match position(sessions.other_sessions, same_as(session_id)) {
                Some(i) => sessions.other_sessions.update(
                    i,
                    with_timeline(sessions.other_sessions[i], timeline),
                ),
                None => sessions.other_sessions.push(
                    Session { session_id, timeline, measurement: SessionMeasurement::unmeasured() },
                ),
            },
            ..sessions
        }
    }
}

/// Whether the session `session_id` is neither the current one nor among the
/// others.
pub open spec fn is_new(sessions: SessionsView, session_id: SessionId) -> bool {
    sessions.current.session_id != session_id && position(
        sessions.other_sessions,
        same_as(session_id),
    ) is None
}

/// Whether session `session_id` is better than session `current`, where its time
/// is `ghost_diff` nanoseconds ahead: it is far ahead, or the times are similar
/// and its identifier comes first. A difference of more microseconds than 64 bits
/// hold counts as none in the second case.
pub open spec fn is_preferred(session_id: SessionId, current: SessionId, ghost_diff: int) -> bool {
    ||| ghost_diff > SESSION_EPS_MICROS * 1_000
    ||| -SESSION_EPS_MICROS < num_micros_or_zero(ghost_diff) < SESSION_EPS_MICROS
        && session_id.before(current)
}

/// Whether to switch to session `session_id` from session `current`, of which the
/// node knows the members `members`, after a measurement at `timestamp`: the
/// session is better, or the node has just started and is alone.
pub open spec fn should_switch(
    session_id: SessionId,
    current: SessionId,
    ghost_diff: int,
    members: Seq<ControllerPeer>,
    timestamp: Duration,
) -> bool {
    ||| is_preferred(session_id, current, ghost_diff)
    ||| members.len() == 0 && timestamp.nanos() < JUST_STARTED_MICROS * 1_000
}

/// The sessions after session `session_id` was measured, and what to do.
pub open spec fn after_success(
    sessions: SessionsView,
    session_id: SessionId,
    measurement: SessionMeasurement,
    ghost_diff: int,
    peers: Seq<ControllerPeer>,
) -> (SessionsView, SessionAction) {
    if sessions.current.session_id == session_id {
        let current = Session { measurement, ..sessions.current };
        (SessionsView { current, ..sessions }, SessionAction::Join(current))
    } else {
        match position(sessions.other_sessions, same_as(session_id)) {
            None => (sessions, SessionAction::Stay),
            Some(i) => {
                let measured = Session { measurement, ..sessions.other_sessions[i] };
                if should_switch(
                    session_id,
                    sessions.current.session_id,
                    ghost_diff,
                    peers.filter(in_session(sessions.current.session_id)),
                    measurement.timestamp,
                ) {
                    (
                        SessionsView {
                            current: measured,
                            other_sessions: sessions.other_sessions.update(i, sessions.current),
                            ..sessions
                        },
                        SessionAction::Switch(measured),
                    )
                } else {
                    (
                        SessionsView {
                            other_sessions: sessions.other_sessions.update(i, measured),
                            ..sessions
                        },
                        SessionAction::Stay,
                    )
                }
            },
        }
    }
}

/// The sessions and the peers after the measurement of session `session_id`
/// failed, and what to do. The current session is measured again. Otherwise the
/// first other session that is not the failed one is dropped, and with it all
/// peers of the failed session; where there is none, nothing happens.
pub open spec fn after_failure(
    sessions: SessionsView,
    session_id: SessionId,
    peers: Seq<ControllerPeer>,
) -> (SessionsView, Seq<ControllerPeer>, SessionAction) {
    if sessions.current.session_id == session_id {
        (sessions, peers, SessionAction::Remeasure(sessions.current))
    } else {
        match position(sessions.other_sessions, other_than(session_id)) {
            None => (sessions, peers, SessionAction::Stay),
            Some(i) => (
                SessionsView {
                    other_sessions: sessions.other_sessions.remove(i),
                    ..sessions
                },
                peers.filter(outside_session(session_id)),
                SessionAction::Stay,
            ),
        }
    }
}

/// Whether a peer is not in the session `session_id`.
pub open spec fn outside_session(session_id: SessionId) -> spec_fn(ControllerPeer) -> bool {
    |peer: ControllerPeer| peer.peer_state.session_id() != session_id
}

/// Whether two session times can be compared: their difference exists, and so
/// does its absolute value in microseconds.
pub open spec fn comparable(cur_ghost: Duration, new_ghost: Duration) -> bool {
    let ghost_diff = new_ghost.nanos() - cur_ghost.nanos();
    in_range(ghost_diff) && num_micros(ghost_diff) != Some(i64::MIN)
}

/// Whether two session times can be compared.
pub fn are_comparable(cur_ghost: &Duration, new_ghost: &Duration) -> (comparable: bool)
    ensures
        comparable == self::comparable(*cur_ghost, *new_ghost),
{
    match new_ghost.checked_sub(cur_ghost) {
        Some(ghost_diff) => match ghost_diff.num_microseconds() {
            Some(micros) => micros != i64::MIN,
            None => true,
        },
        None => false,
    }
}

/// Whether a measurement of `session_id` makes a node compare session times.
pub open spec fn compares_times(sessions: SessionsView, session_id: SessionId) -> bool {
    sessions.current.session_id != session_id && position(
        sessions.other_sessions,
        same_as(session_id),
    ) is Some
}

/// The maps to the clocks of the current and the measured session, where what was
/// reported of a measurement makes a node compare session times.
pub open spec fn maps_to_compare(sessions: SessionsView, event: MeasurePeerEvent) -> Option<
    (GhostXForm, GhostXForm),
> {
    match event {
        MeasurePeerEvent::XForm(session_id, x_form) if !x_form.same_map(GhostXForm::unmeasured())
            && compares_times(sessions, session_id) => Some(
            (sessions.current.measurement.x_form, x_form),
        ),
        _ => None,
    }
}

impl Sessions {
    /// A node in the session `init`, which is the only one that it knows.
    pub fn new(init: Session) -> (sessions: Sessions)
        ensures
            sessions@.other_sessions == seq![init],
            sessions@.current == init,
            !sessions@.is_founding,
            !sessions@.has_joined,
    {
        let mut other_sessions: Vec<Session> = Vec::new();
        other_sessions.push(init);
        Sessions { other_sessions, current: init, is_founding: false, has_joined: false }
    }

    /// Puts the node in this session and forgets the others.
    pub fn reset_session(&mut self, session: Session)
        ensures
            final(self)@ == (SessionsView {
                current: session,
                other_sessions: Seq::empty(),
                ..old(self)@
            }),
    {
        self.current = session;
        self.other_sessions.clear();
    }

    /// Gives this timeline to the first of the other sessions that has the
    /// identifier of the current one.
    pub fn reset_timeline(&mut self, timeline: Timeline)
        ensures
            final(self)@ == (SessionsView {
                other_sessions: match position(
                    old(self)@.other_sessions,
                    same_as(old(self)@.current.session_id),
                ) {
                    Some(i) => old(self)@.other_sessions.update(
                        i,
                        Session { timeline, ..old(self)@.other_sessions[i] },
                    ),
                    None => old(self)@.other_sessions,
                },
                ..old(self)@
            }),
    {
        if let Some(i) = find_session(&self.other_sessions, self.current.session_id, true) {
            let session: Session = Session { timeline, ..self.other_sessions[i] };
            self.other_sessions[i] = session;
        }
    }

    /// The session with the timeline, where that has a later beat origin than its
    /// own; else the session as it was.
    pub fn update_timeline(&self, session: Session, timeline: Timeline) -> (updated: Session)
        ensures
            updated == with_timeline(session, timeline),
    {
        if timeline.beat_origin.value > session.timeline.beat_origin.value {
            Session { timeline, ..session }
        } else {
            session
        }
    }

    /// Notes that a peer showed this timeline for the session `session_id`, and
    /// gives back the timeline of the current session. A session that is new
    /// joins the others, and what to ask for to have it measured is given back
    /// too.
    pub fn saw_session_timeline(
        &mut self,
        session_id: SessionId,
        timeline: Timeline,
        peers: &Vec<ControllerPeer>,
    ) -> (seen: (Timeline, Option<MeasurePeerEvent>))
        ensures
            final(self)@ == after_timeline(old(self)@, session_id, timeline),
            seen.0 == final(self)@.current.timeline,
            if is_new(old(self)@, session_id) {
                asks_to_measure(peers@, session_id, seen.1)
            } else {
                seen.1 is None
            },
    {
        let mut event: Option<MeasurePeerEvent> = None;
        if self.current.session_id == session_id {
            let session: Session = self.update_timeline(self.current, timeline);
            self.current.timeline = session.timeline;
            self.has_joined = true;
        } else {
            match find_session(&self.other_sessions, session_id, true) {
                Some(i) => {
                    let session: Session = self.update_timeline(self.other_sessions[i], timeline);
                    self.other_sessions[i] = session;
                },
                None => {
                    let session: Session = Session {
                        session_id,
                        timeline,
                        measurement: SessionMeasurement::default(),
                    };
                    self.other_sessions.push(session);
                    event = launch_session_measurement(peers, &session);
                },
            }
        }
        (self.current.timeline, event)
    }

    /// The maps to the clocks of the current and the measured session that have to
    /// be evaluated, at one host time, before what was reported of a measurement is
    /// noted; `None` where it is noted without session times.
    pub fn compared_maps(&self, event: &MeasurePeerEvent) -> (maps: Option<
        (GhostXForm, GhostXForm),
    >)
        ensures
            maps == maps_to_compare(self@, *event),
    {
        match event {
            MeasurePeerEvent::PeerState(_, _) => None,
            MeasurePeerEvent::XForm(session_id, x_form) => {
                if *x_form == GhostXForm::default() || self.current.session_id == *session_id {
                    return None;
                }
                match find_session(&self.other_sessions, *session_id, true) {
                    Some(_) => Some((self.current.measurement.x_form, *x_form)),
                    None => None,
                }
            },
        }
    }

    /// Notes what was reported of a measurement: the map that stands for the lack
    /// of a measurement is a failure, every other one a success. `cur_ghost` and
    /// `new_ghost` are what the maps that `compared_maps` gives make of one host
    /// time; where it gives none, they do not count.
    pub fn handle_measurement(
        &mut self,
        event: MeasurePeerEvent,
        timestamp: Duration,
        cur_ghost: Duration,
        new_ghost: Duration,
        peers: &mut Vec<ControllerPeer>,
    ) -> (action: SessionAction)
        requires
            maps_to_compare(old(self)@, event) is Some ==> comparable(cur_ghost, new_ghost),
        ensures
            match event {
                MeasurePeerEvent::PeerState(_, _) => {
                    &&& final(self)@ == old(self)@
                    &&& final(peers)@ == old(peers)@
                    &&& action is Stay
                },
                MeasurePeerEvent::XForm(session_id, x_form) => if x_form.same_map(
                    GhostXForm::unmeasured(),
                ) {
                    (final(self)@, final(peers)@, action) == after_failure(
                        old(self)@,
                        session_id,
                        old(peers)@,
                    )
                } else {
                    &&& (final(self)@, action) == after_success(
                        old(self)@,
                        session_id,
                        SessionMeasurement { x_form, timestamp },
                        new_ghost.nanos() - cur_ghost.nanos(),
                        old(peers)@,
                    )
                    &&& final(peers)@ == old(peers)@
                },
            },
    {
        match event {
            MeasurePeerEvent::PeerState(_, _) => SessionAction::Stay,
            MeasurePeerEvent::XForm(session_id, x_form) => {
                if x_form == GhostXForm::default() {
                    handle_failed_measurement(self, session_id, peers)
                } else {
                    handle_successful_measurement(
                        self,
                        session_id,
                        x_form,
                        timestamp,
                        cur_ghost,
                        new_ghost,
                        peers,
                    )
                }
            },
        }
    }
}

/// Notes that session `session_id` was measured at `timestamp` with the result
/// `x_form`, where at one moment the time of the current session is
/// `cur_ghost` and that of the measured one `new_ghost`.
pub fn handle_successful_measurement(
    sessions: &mut Sessions,
    session_id: SessionId,
    x_form: GhostXForm,
    timestamp: Duration,
    cur_ghost: Duration,
    new_ghost: Duration,
    peers: &Vec<ControllerPeer>,
) -> (action: SessionAction)
    requires
        compares_times(old(sessions)@, session_id) ==> comparable(cur_ghost, new_ghost),
    ensures
        (final(sessions)@, action) == after_success(
            old(sessions)@,
            session_id,
            SessionMeasurement { x_form, timestamp },
            new_ghost.nanos() - cur_ghost.nanos(),
            peers@,
        ),
{
    let measurement: SessionMeasurement = SessionMeasurement { x_form, timestamp };
    if sessions.current.session_id == session_id {
        sessions.current.measurement = measurement;
        return SessionAction::Join(sessions.current);
    }
    let i: usize = match find_session(&sessions.other_sessions, session_id, true) {
        Some(i) => i,
        None => {
            return SessionAction::Stay;
        },
    };
    let measured: Session = Session { measurement, ..sessions.other_sessions[i] };
    let ghost_diff: Duration = match new_ghost.checked_sub(&cur_ghost) {
        Some(ghost_diff) => ghost_diff,
        None => Duration::zero(),
    };
    let ghost_diff_us: i64 = ghost_diff.microseconds_or_zero();
    let alone: bool = session_peers(peers, sessions.current.session_id).len() == 0;
    let just_started: bool = alone && Duration::microseconds(JUST_STARTED_MICROS).exceeds(
        &timestamp,
    );
    let switch: bool = ghost_diff.exceeds(&Duration::microseconds(SESSION_EPS_MICROS)) || (
    -SESSION_EPS_MICROS < ghost_diff_us && ghost_diff_us < SESSION_EPS_MICROS && session_id
        < sessions.current.session_id) || just_started;
    if switch {
        let previous: Session = sessions.current;
        sessions.current = measured;
        sessions.other_sessions[i] = previous;
        SessionAction::Switch(measured)
    } else {
        sessions.other_sessions[i] = measured;
        SessionAction::Stay
    }
}

/// Notes that the measurement of session `session_id` failed.
pub fn handle_failed_measurement(
    sessions: &mut Sessions,
    session_id: SessionId,
    peers: &mut Vec<ControllerPeer>,
) -> (action: SessionAction)
    ensures
        (final(sessions)@, final(peers)@, action) == after_failure(
            old(sessions)@,
            session_id,
            old(peers)@,
        ),
{
    if sessions.current.session_id == session_id {
        return SessionAction::Remeasure(sessions.current);
    }
    if let Some(i) = find_session(&sessions.other_sessions, session_id, false) {
        sessions.other_sessions.remove(i);
        let kept: Vec<ControllerPeer> = peers_outside(peers, session_id);
        *peers = kept;
    }
    SessionAction::Stay
}

/// The peers that are not in the session, in order.
fn peers_outside(peers: &Vec<ControllerPeer>, session_id: SessionId) -> (kept: Vec<ControllerPeer>)
    ensures
        kept@ == peers@.filter(outside_session(session_id)),
{
    let mut kept: Vec<ControllerPeer> = Vec::new();
    let mut i: usize = 0;
    proof {
        reveal(Seq::filter);
        assert(peers@.take(0).filter(outside_session(session_id)) == kept@);
    }
    while i < peers.len()
        invariant
            i <= peers@.len(),
            kept@ == peers@.take(i as int).filter(outside_session(session_id)),
        decreases peers@.len() - i,
    {
        let peer: ControllerPeer = peers[i];
        proof {
            reveal(Seq::filter);
            assert(peers@.take(i + 1).drop_last() == peers@.take(i as int));
        }
        if peer.peer_state.session_id() != session_id {
            kept.push(peer);
        }
        i += 1;
    }
    assert(peers@.take(i as int) == peers@);
    kept
}

/// The sessions that a node knows, each with its identifier and its timeline and
/// as often as the node knows it.
pub open spec fn known_sessions(sessions: SessionsView) -> Multiset<(SessionId, Timeline)> {
    (seq![sessions.current] + sessions.other_sessions).map_values(
        |session: Session| (session.session_id, session.timeline),
    ).to_multiset()
}

/// A measurement loses no session, makes none up, and leaves every timeline with
/// its session: a switch exchanges two.
pub proof fn law_no_session_lost(
    sessions: SessionsView,
    session_id: SessionId,
    measurement: SessionMeasurement,
    ghost_diff: int,
    peers: Seq<ControllerPeer>,
)
    ensures
        known_sessions(after_success(sessions, session_id, measurement, ghost_diff, peers).0)
            == known_sessions(sessions),
{
    let after = after_success(sessions, session_id, measurement, ghost_diff, peers).0;
    let pair = |session: Session| (session.session_id, session.timeline);
    let known = (seq![sessions.current] + sessions.other_sessions).map_values(pair);
    let known_after = (seq![after.current] + after.other_sessions).map_values(pair);
    if sessions.current.session_id == session_id {
        assert(known_after == known);
    } else if let Some(i) = position(sessions.other_sessions, same_as(session_id)) {
        assert(is_first_session(sessions.other_sessions, same_as(session_id), i));
        let a = known[0];
        let b = known[i + 1];
        assert(known_after == known || known_after == known.update(0, b).update(i + 1, a));
        broadcast use vstd::seq_lib::group_to_multiset_ensures;

        vstd::seq_lib::to_multiset_update(known, 0, b);
        vstd::seq_lib::to_multiset_update(known.update(0, b), i + 1, a);
        assert(known.update(0, b).update(i + 1, a).to_multiset() =~= known.to_multiset());
    }
}

/// Seeing a timeline never sets a session back: the sessions that are known stay
/// where they are, and none gets an earlier beat origin.
pub proof fn law_timeline_forward(sessions: SessionsView, session_id: SessionId, timeline: Timeline)
    ensures
        ({
            let after = after_timeline(sessions, session_id, timeline);
            &&& after.current.session_id == sessions.current.session_id
            &&& after.current.timeline.beat_origin.value
                >= sessions.current.timeline.beat_origin.value
            &&& sessions.has_joined ==> after.has_joined
            &&& after.other_sessions.len() >= sessions.other_sessions.len()
            &&& forall|i: int|
                0 <= i < sessions.other_sessions.len() ==> {
                    &&& (#[trigger] after.other_sessions[i]).session_id
                        == sessions.other_sessions[i].session_id
                    &&& after.other_sessions[i].timeline.beat_origin.value
                        >= sessions.other_sessions[i].timeline.beat_origin.value
                }
        }),
{
}

/// A session whose timeline was seen is known, with a beat origin that is not
/// earlier than the one seen; so it is measured once, when it is first seen.
pub proof fn law_seen_is_known(sessions: SessionsView, session_id: SessionId, timeline: Timeline)
    ensures
        ({
            let after = after_timeline(sessions, session_id, timeline);
            &&& !is_new(after, session_id)
            &&& after.current.session_id == session_id
                ==> after.current.timeline.beat_origin.value >= timeline.beat_origin.value
            &&& after.current.session_id != session_id ==> exists|i: int|
                {
                    &&& 0 <= i < after.other_sessions.len()
                    &&& (#[trigger] after.other_sessions[i]).session_id == session_id
                    &&& after.other_sessions[i].timeline.beat_origin.value
                        >= timeline.beat_origin.value
                }
        }),
{
    if sessions.current.session_id != session_id {
        lemma_seen_at(sessions, session_id, timeline);
    }
}

/// Another session whose timeline was seen stands where it was first found before,
/// or at the end where it is new.
proof fn lemma_seen_at(
    sessions: SessionsView,
    session_id: SessionId,
    timeline: Timeline,
) -> (i: int)
    requires
        sessions.current.session_id != session_id,
    ensures
        ({
            let after = after_timeline(sessions, session_id, timeline);
            &&& is_first_session(after.other_sessions, same_as(session_id), i)
            &&& position(after.other_sessions, same_as(session_id)) == Some(i)
            &&& after.other_sessions[i].timeline.beat_origin.value >= timeline.beat_origin.value
        }),
{
    let after = after_timeline(sessions, session_id, timeline);
    let wanted = same_as(session_id);
    let i = match position(sessions.other_sessions, wanted) {
        Some(i) => {
            assert(is_first_session(sessions.other_sessions, wanted, i));
            i
        },
        None => {
            lemma_position_none(sessions.other_sessions, wanted);
            sessions.other_sessions.len() as int
        },
    };
    assert forall|j: int| 0 <= j < i implies !wanted(
        (#[trigger] after.other_sessions[j]).session_id,
    ) by {
        assert(after.other_sessions[j] == sessions.other_sessions[j]);
    }
    lemma_position(after.other_sessions, wanted, i);
    i
}

/// Where there is no first place, there is none at all.
pub(crate) proof fn lemma_position_none(sessions: Seq<Session>, wanted: spec_fn(SessionId) -> bool)
    requires
        position(sessions, wanted) is None,
    ensures
        forall|i: int| 0 <= i < sessions.len() ==> !wanted((#[trigger] sessions[i]).session_id),
    decreases sessions.len(),
{
    if sessions.len() > 0 {
        let front = sessions.drop_last();
        if position(front, wanted) is Some {
            let i = choose|i: int| is_first_session(front, wanted, i);
            assert forall|j: int| 0 <= j < i implies !wanted(
                (#[trigger] sessions[j]).session_id,
            ) by {
                assert(!wanted(front[j].session_id));
            }
            assert(is_first_session(sessions, wanted, i));
        }
        lemma_position_none(front, wanted);
        assert forall|i: int| 0 <= i < sessions.len() implies !wanted(
            (#[trigger] sessions[i]).session_id,
        ) by {
            if i < front.len() {
                assert(!wanted(front[i].session_id));
            } else {
                assert forall|j: int| 0 <= j < i implies !wanted(
                    (#[trigger] sessions[j]).session_id,
                ) by {
                    assert(!wanted(front[j].session_id));
                }
                if wanted(sessions[i].session_id) {
                    assert(is_first_session(sessions, wanted, i));
                }
            }
        }
    }
}

/// Seeing the same timeline again changes nothing.
pub proof fn law_timeline_idempotent(
    sessions: SessionsView,
    session_id: SessionId,
    timeline: Timeline,
)
    ensures
        ({
            let once = after_timeline(sessions, session_id, timeline);
            after_timeline(once, session_id, timeline) == once
        }),
{
    let once = after_timeline(sessions, session_id, timeline);
    let twice = after_timeline(once, session_id, timeline);
    if sessions.current.session_id != session_id {
        lemma_seen_at(sessions, session_id, timeline);
        assert(twice.other_sessions == once.other_sessions);
    }
}

/// Of two sessions at most one is better than the other, where the difference of
/// their times fits in 64 bits of microseconds both ways: nodes do not keep
/// switching to and fro.
pub proof fn law_preference_one_sided(a: SessionId, b: SessionId, ghost_diff: int)
    requires
        num_micros(ghost_diff) is Some,
        num_micros(-ghost_diff) is Some,
    ensures
        !(is_preferred(a, b, ghost_diff) && is_preferred(b, a, -ghost_diff)),
{
}

/// A known session that is far ahead, one whose time is similar and whose
/// identifier comes first, and any known session for a node that has just started
/// and is alone, is switched to; no other is. A node that switches is then in the
/// measured session, with the new measurement, and its former session is among
/// the others.
pub proof fn law_switch(
    sessions: SessionsView,
    session_id: SessionId,
    measurement: SessionMeasurement,
    ghost_diff: int,
    peers: Seq<ControllerPeer>,
)
    requires
        compares_times(sessions, session_id),
    ensures
        ({
            let (after, action) = after_success(
                sessions,
                session_id,
                measurement,
                ghost_diff,
                peers,
            );
            let alone = peers.filter(in_session(sessions.current.session_id)).len() == 0;
            let far_ahead = ghost_diff > SESSION_EPS_MICROS * 1_000;
            let similar = -SESSION_EPS_MICROS < num_micros_or_zero(ghost_diff)
                < SESSION_EPS_MICROS;
            let just_started = measurement.timestamp.nanos() < JUST_STARTED_MICROS * 1_000;
            &&& action is Switch <==> far_ahead || (similar && session_id.before(
                sessions.current.session_id,
            )) || (alone && just_started)
            &&& action is Switch ==> {
                &&& action == SessionAction::Switch(after.current)
                &&& after.current.session_id == session_id
                &&& after.current.measurement == measurement
                &&& after.other_sessions.contains(sessions.current)
            }
            &&& !(action is Switch) ==> after.current == sessions.current
        }),
{
    let (after, action) = after_success(sessions, session_id, measurement, ghost_diff, peers);
    let i = position(sessions.other_sessions, same_as(session_id))->Some_0;
    assert(is_first_session(sessions.other_sessions, same_as(session_id), i));
    if action is Switch {
        assert(after.other_sessions[i] == sessions.current);
    }
}

/// A failed measurement leaves the current session alone, drops at most one other
/// session, and leaves all peers of other sessions in place.
pub proof fn law_failure_is_mild(
    sessions: SessionsView,
    session_id: SessionId,
    peers: Seq<ControllerPeer>,
)
    ensures
        ({
            let (after, left, _) = after_failure(sessions, session_id, peers);
            &&& after.current == sessions.current
            &&& after.other_sessions.len() >= sessions.other_sessions.len() - 1
            &&& left == peers || left == peers.filter(outside_session(session_id))
            &&& left.filter(outside_session(session_id)) == peers.filter(
                outside_session(session_id),
            )
        }),
{
    if let Some(i) = position(sessions.other_sessions, other_than(session_id)) {
        assert(is_first_session(sessions.other_sessions, other_than(session_id), i));
    }
    lemma_filter_twice(peers, outside_session(session_id));
}

/// Filtering again changes nothing.
proof fn lemma_filter_twice(peers: Seq<ControllerPeer>, pred: spec_fn(ControllerPeer) -> bool)
    ensures
        peers.filter(pred).filter(pred) == peers.filter(pred),
    decreases peers.len(),
{
    reveal(Seq::filter);
    if peers.len() > 0 {
        lemma_filter_twice(peers.drop_last(), pred);
        if pred(peers.last()) {
            let kept = peers.drop_last().filter(pred);
            assert(kept.push(peers.last()).drop_last() == kept);
        }
    }
}

} // verus!
