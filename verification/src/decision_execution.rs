use crate::batch::UpdateBatch;
use crate::exec_handle::PreemptiveExecutionRequest;
use vstd::prelude::*;

verus! {

/// How the decision log hands decided batches to an executor.
pub trait TDecisionLogExecution<O> {
    /// The request that executes a decided batch.
    fn send_for_execution(&self, decision: UpdateBatch<O>) -> PreemptiveExecutionRequest<O>;

    /// The request that executes a decided batch and then snapshots the state.
    fn send_for_execution_and_get_appstate(&self, decision: UpdateBatch<O>) -> PreemptiveExecutionRequest<O>;
}

/// Executes each decided batch only once it is decided (no speculation).
pub struct DeterministicExecutor<E> {
    executor_handle: E,
}

impl<E> DeterministicExecutor<E> {
    /// An executor that sends its requests through `executor_handle`.
    pub fn new(executor_handle: E) -> (e: Self)
        ensures
            e.handle() == executor_handle,
    {
        DeterministicExecutor { executor_handle }
    }

    /// The handle requests are sent through.
    pub closed spec fn handle(&self) -> E {
        self.executor_handle
    }

    /// The handle requests are sent through.
    pub fn executor_handle(&self) -> (h: &E)
        ensures
            *h == self.handle(),
    {
        &self.executor_handle
    }
}

impl<E, O> TDecisionLogExecution<O> for DeterministicExecutor<E> {
    fn send_for_execution(&self, decision: UpdateBatch<O>) -> (r: PreemptiveExecutionRequest<O>)
        ensures
            r == PreemptiveExecutionRequest::UpdateBatch(decision),
    {
        PreemptiveExecutionRequest::UpdateBatch(decision)
    }

    fn send_for_execution_and_get_appstate(&self, decision: UpdateBatch<O>) -> (r: PreemptiveExecutionRequest<O>)
        ensures
            r == PreemptiveExecutionRequest::UpdateBatchAndGetAppstate(decision),
    {
        PreemptiveExecutionRequest::UpdateBatchAndGetAppstate(decision)
    }
}

/// Executes batches speculatively before they are decided: a decision only confirms the
/// speculation at its sequence number.
pub struct PreemptiveExecutor<E> {
    executor_handle: E,
}

impl<E> PreemptiveExecutor<E> {
    /// An executor that sends its requests through `executor_handle`.
    pub fn new(executor_handle: E) -> (e: Self)
        ensures
            e.handle() == executor_handle,
    {
        PreemptiveExecutor { executor_handle }
    }

    /// The handle requests are sent through.
    pub closed spec fn handle(&self) -> E {
        self.executor_handle
    }

    /// The handle requests are sent through.
    pub fn executor_handle(&self) -> (h: &E)
        ensures
            *h == self.handle(),
    {
        &self.executor_handle
    }
}

impl<E, O> TDecisionLogExecution<O> for PreemptiveExecutor<E> {
    fn send_for_execution(&self, decision: UpdateBatch<O>) -> (r: PreemptiveExecutionRequest<O>)
        ensures
            r == PreemptiveExecutionRequest::<O>::PreemptiveUpdateFinalized(decision.seq),
    {
        PreemptiveExecutionRequest::PreemptiveUpdateFinalized(decision.sequence_number())
    }

    fn send_for_execution_and_get_appstate(&self, decision: UpdateBatch<O>) -> (r: PreemptiveExecutionRequest<O>)
        ensures
            r == PreemptiveExecutionRequest::<O>::PreemptiveUpdateFinalizedAndGetAppstate(decision.seq),
    {
        PreemptiveExecutionRequest::PreemptiveUpdateFinalizedAndGetAppstate(decision.sequence_number())
    }
}

} // verus!
