use crate::batch::NodeId;
use vstd::prelude::*;

verus! {

/// What an iteration of a protocol asks of the replica loop.
#[derive(Debug, PartialEq, Eq, Structural)]
pub enum IterableProtocolRes {
    /// Run the protocol again.
    ReRun,
    /// Receive a message for the protocol.
    Receive,
    /// Carry on.
    Continue,
}

/// Tracks the node currently attempting to join the quorum; one at a time.
#[derive(Debug)]
pub struct QuorumReconfig {
    node_pending_join: Option<NodeId>,
}

impl QuorumReconfig {
    /// No node is attempting to join.
    pub fn new() -> (r: Self)
        ensures
            r.pending_join() is None,
    {
        QuorumReconfig { node_pending_join: None }
    }

    /// The node attempting to join, if any.
    pub closed spec fn pending_join(&self) -> Option<NodeId> {
        self.node_pending_join
    }

    /// Registers `node` as joining, unless another node already is; returns whether it
    /// was registered.
    pub fn append_pending_node_join(&mut self, node: NodeId) -> (registered: bool)
        ensures
            registered == old(self).pending_join() is None,
            registered ==> final(self).pending_join() == Some(node),
            !registered ==> final(self).pending_join() == old(self).pending_join(),
    {
        if self.node_pending_join.is_none() {
            self.node_pending_join = Some(node);
            true
        } else {
            false
        }
    }

    /// Takes the joining node out, leaving none.
    pub fn pop_pending_node_join(&mut self) -> (r: Option<NodeId>)
        ensures
            r == old(self).pending_join(),
            final(self).pending_join() is None,
    {
        self.node_pending_join.take()
    }
}

} // verus!
