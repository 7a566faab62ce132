use crate::batch::UpdateBatch;
use crate::seq_no::SeqNo;
use vstd::prelude::*;

verus! {

/// Whether a worker takes execution requests or waits for a state to install.
#[derive(Clone, Copy, Debug, PartialEq, Eq, Structural)]
pub enum RunMode {
    Normal,
    StateTransfer,
}

/// A batch of operations to execute without ordering.
#[derive(Debug)]
pub struct UnorderedBatch<O> {
    pub updates: Vec<crate::batch::Update<O>>,
}

/// A request to a preemptive executor.
#[derive(Debug)]
pub enum PreemptiveExecutionRequest<O> {
    /// Poll the state channel for an installed state.
    PollStateChannel,
    /// Catch up to a quorum with these decided batches.
    CatchUp(Vec<UpdateBatch<O>>),
    /// A decided, finalized batch to execute.
    UpdateBatch(UpdateBatch<O>),
    /// A decided, finalized batch to execute, followed by a snapshot of the state.
    UpdateBatchAndGetAppstate(UpdateBatch<O>),
    /// A batch to execute speculatively.
    PreemptiveUpdate(UpdateBatch<O>),
    /// The speculatively executed batch at this sequence number is finalized.
    PreemptiveUpdateFinalized(SeqNo),
    /// As `PreemptiveUpdateFinalized`, followed by a snapshot of the state.
    PreemptiveUpdateFinalizedAndGetAppstate(SeqNo),
    /// Operations to execute on the confirmed state only, without ordering.
    ExecuteUnordered(UnorderedBatch<O>),
}

} // verus!
