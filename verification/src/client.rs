use crate::batch::NodeId;
use crate::seq_no::SeqNo;
use vstd::prelude::*;

verus! {

/// A client request for ordered execution.
#[derive(Debug, Clone)]
pub struct RequestMessage<O> {
    pub session_id: SeqNo,
    pub operation_id: SeqNo,
    pub operation: O,
}

/// Ordered client requests: sent to every replica, answered once `f + 1` replicas agree.
pub struct Ordered;

impl Ordered {
    /// The ordered request carrying `operation`.
    pub fn init_request<O>(session_id: SeqNo, operation_id: SeqNo, operation: O) -> (m: RequestMessage<O>)
        ensures
            m.session_id == session_id,
            m.operation_id == operation_id,
            m.operation == operation,
    {
        RequestMessage { session_id, operation_id, operation }
    }

    /// The replicas an ordered request goes to (all `n` of them) and how many there are.
    pub fn init_targets(n: u32) -> (r: (Vec<NodeId>, usize))
        ensures
            r.0@.len() == n,
            r.1 == n,
            forall|i: int| 0 <= i < n ==> (#[trigger] r.0@[i]).id == i,
    {
        let mut targets: Vec<NodeId> = Vec::new();
        let mut i: u32 = 0;
        while i < n
            invariant
                i <= n,
                targets@.len() == i,
                forall|j: int| 0 <= j < i ==> (#[trigger] targets@[j]).id == j,
            decreases n - i,
        {
            targets.push(NodeId::from(i));
            i = i + 1;
        }
        (targets, n as usize)
    }

    /// How many matching replies an ordered request needs when up to `f` replicas are
    /// faulty.
    pub fn needed_responses(f: usize) -> (r: usize)
        requires
            f < usize::MAX,
        ensures
            r == f + 1,
    {
        f + 1
    }
}

} // verus!
