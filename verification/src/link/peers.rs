//! The peers that a node has seen.

use crate::link::measurement::SocketAddrV4;
use crate::link::node::NodeId;
use crate::link::sessions::SessionId;
use vstd::prelude::*;

verus! {

/// Who a node is and which session it is in.
#[derive(Clone, Copy, Debug, PartialEq, Eq, Structural)]
pub struct NodeState {
    pub node_id: NodeId,
    pub session_id: SessionId,
}

/// What a peer says of itself.
#[derive(Clone, Copy, Debug, PartialEq, Eq, Structural)]
pub struct PeerState {
    pub node_state: NodeState,
    /// Where the peer can be measured, if it can.
    pub measurement_endpoint: Option<SocketAddrV4>,
}

impl PeerState {
    /// The identifier of the peer.
    #[verifier::allow_in_spec]
    pub fn ident(&self) -> NodeId
        returns
            self.node_state.node_id,
    {
        self.node_state.node_id
    }

    /// The session that the peer is in.
    #[verifier::allow_in_spec]
    pub fn session_id(&self) -> SessionId
        returns
            self.node_state.session_id,
    {
        self.node_state.session_id
    }
}

/// A peer that the controller knows.
#[derive(Clone, Copy, Debug, PartialEq, Eq, Structural)]
pub struct ControllerPeer {
    pub peer_state: PeerState,
}

} // verus!
