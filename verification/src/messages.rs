//! What the adapter and its node say to each other over the lane flow.

use vstd::prelude::*;

use crate::node_id::NodeId;

verus! {

/// From the node to the transport.
#[derive(Debug, PartialEq, Eq)]
pub enum NodeToTransport {
    /// The identity of the node.
    Hello { node_id: NodeId },
    /// A frame for the peer that it names. What is in it is for that peer alone.
    Frame { to: NodeId, frame: Vec<u8> },
}

/// From the transport to the node.
#[derive(Debug, PartialEq, Eq)]
pub enum TransportToNode {
    /// These peers can be reached over a link.
    Up { peers: Vec<NodeId> },
    /// These peers can no longer be reached over a link.
    Down { peers: Vec<NodeId> },
    /// A frame that came over a link.
    Frame { frame: Vec<u8> },
}

} // verus!
