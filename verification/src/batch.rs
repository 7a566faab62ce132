use crate::seq_no::SeqNo;
use vstd::prelude::*;

verus! {

/// The identifier of a node (replica or client).
#[derive(Clone, Copy, Debug, PartialEq, Eq, Structural, Hash)]
pub struct NodeId {
    pub id: u32,
}

impl NodeId {
    /// The node with identifier `id`.
    pub fn from(id: u32) -> (n: NodeId)
        ensures
            n.id == id,
    {
        NodeId { id }
    }
}

/// Who sent an operation and under which session / operation number.
#[derive(Clone, Copy, Debug, PartialEq, Eq, Structural)]
pub struct UpdateInfo {
    pub from: NodeId,
    pub session: SeqNo,
    pub operation: SeqNo,
}

impl UpdateInfo {
    /// The information of an operation issued by `from` in session `session`.
    pub fn new_session_based(from: NodeId, session: SeqNo, operation: SeqNo) -> (u: UpdateInfo)
        ensures
            u.from == from,
            u.session == session,
            u.operation == operation,
    {
        UpdateInfo { from, session, operation }
    }
}

/// One operation of a batch together with its origin.
#[derive(Debug, Clone)]
pub struct Update<O> {
    pub info: UpdateInfo,
    pub operation: O,
}

/// A batch of operations decided at one sequence number.
#[derive(Debug, Clone)]
pub struct UpdateBatch<O> {
    pub seq: SeqNo,
    pub updates: Vec<Update<O>>,
}

impl<O> UpdateBatch<O> {
    /// An empty batch decided at `seq`.
    pub fn new(seq: SeqNo) -> (b: Self)
        ensures
            b.seq == seq,
            b.updates@.len() == 0,
    {
        UpdateBatch { seq, updates: Vec::new() }
    }

    /// Appends an operation to the batch.
    pub fn add(&mut self, info: UpdateInfo, operation: O)
        ensures
            final(self).seq == old(self).seq,
            final(self).updates@ == old(self).updates@.push(Update { info, operation }),
    {
        self.updates.push(Update { info, operation });
    }

    /// The sequence number the batch was decided at.
    pub fn sequence_number(&self) -> (s: SeqNo)
        ensures
            s == self.seq,
    {
        self.seq
    }

    /// The number of operations in the batch.
    pub fn len(&self) -> (n: usize)
        ensures
            n == self.updates@.len(),
    {
        self.updates.len()
    }

    /// Splits the batch into its sequence number and its operations.
    pub fn into_inner(self) -> (r: (SeqNo, Vec<Update<O>>))
        ensures
            r.0 == self.seq,
            r.1@ == self.updates@,
    {
        (self.seq, self.updates)
    }
}

/// The reply to one operation, addressed by the operation's origin.
#[derive(Debug)]
pub struct UpdateReply<P> {
    pub info: UpdateInfo,
    pub reply: P,
}

impl<P> UpdateReply<P> {
    /// The reply.
    pub fn reply(&self) -> (r: &P)
        ensures
            *r == self.reply,
    {
        &self.reply
    }

    /// The origin of the operation replied to.
    pub fn info(&self) -> (r: UpdateInfo)
        ensures
            r == self.info,
    {
        self.info
    }
}

/// The replies to the operations of a batch, in batch order.
#[derive(Debug)]
pub struct ReplyBatch<P> {
    pub replies: Vec<UpdateReply<P>>,
}

/// The abstract reply to one operation.
pub open spec fn reply_view<P: DeepView>(r: UpdateReply<P>) -> (UpdateInfo, P::V) {
    (r.info, r.reply.deep_view())
}

impl<P: DeepView> ReplyBatch<P> {
    /// The abstract replies, in batch order.
    pub open spec fn views(&self) -> Seq<(UpdateInfo, P::V)> {
        self.replies@.map_values(|r: UpdateReply<P>| reply_view(r))
    }
}

impl<P> ReplyBatch<P> {
    /// An empty set of replies with room for `cap` of them.
    pub fn new_with_cap(cap: usize) -> (b: Self)
        ensures
            b.replies@.len() == 0,
    {
        ReplyBatch { replies: Vec::with_capacity(cap) }
    }

    /// Appends a reply.
    pub fn add(&mut self, info: UpdateInfo, reply: P)
        ensures
            final(self).replies@ == old(self).replies@.push(UpdateReply { info, reply }),
    {
        self.replies.push(UpdateReply { info, reply });
    }

    /// The number of replies.
    pub fn len(&self) -> (n: usize)
        ensures
            n == self.replies@.len(),
    {
        self.replies.len()
    }

    /// The replies, in batch order.
    pub fn into_inner(self) -> (v: Vec<UpdateReply<P>>)
        ensures
            v@ == self.replies@,
    {
        self.replies
    }

    /// Whether there are no replies.
    pub fn is_empty(&self) -> (b: bool)
        ensures
            b == (self.replies@.len() == 0),
    {
        self.replies.len() == 0
    }
}

} // verus!
