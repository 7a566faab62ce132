use crate::application::{run_updates, Application};
use crate::batch::{ReplyBatch, UpdateBatch};
use crate::exec_handle::{PreemptiveExecutionRequest, RunMode, UnorderedBatch};
use crate::preemptive_requests::{
    apply_batches, consistent_with, keep_between, permanent_batches, BacktrackError, ConfirmedUpdateError,
    ExecuteUpdateError,
    HandleUpdateConfirmedError, PreemptiveState,
};
use crate::pending_state::seq_chain;
use crate::seq_no::{next_raw, prev_raw, SeqNo};
use vstd::prelude::*;

verus! {

/// A message for the worker that keeps the confirmed state.
#[derive(Debug)]
pub enum ConfirmedUpdateMessage<R> {
    /// Catch up with these decided batches.
    CatchUp(Vec<UpdateBatch<R>>),
    /// A decided, finalized batch.
    UpdateBatch(UpdateBatch<R>),
    /// A decided, finalized batch, followed by a snapshot of the state.
    UpdateFinalizedAndGetAppstateBatch(UpdateBatch<R>),
    /// Operations to answer on the confirmed state, without ordering.
    ExecuteUnordered(UnorderedBatch<R>),
    /// A state received by state transfer is waiting to be installed.
    StateTransferAvailable,
}

/// A message for the worker that speculates.
#[derive(Debug)]
pub enum PreemptiveWorkMessage<R> {
    /// A batch to execute speculatively.
    PreemptiveUpdate(UpdateBatch<R>),
    /// The speculated batch at this sequence number is confirmed.
    PreemptiveUpdateConfirmed(SeqNo),
    /// As `PreemptiveUpdateConfirmed`, with a snapshot of the confirmed state afterwards.
    PreemptiveUpdateConfirmedAndGetAppState(SeqNo),
    /// A decided, finalized batch that was never speculated.
    ConfirmedUpdate(UpdateBatch<R>),
    /// As `ConfirmedUpdate`, with a snapshot of the confirmed state afterwards.
    ConfirmedUpdateAndGetAppstate(UpdateBatch<R>),
    /// Catch up with these decided batches.
    CatchUp(Vec<UpdateBatch<R>>),
    /// A state received by state transfer is waiting to be installed.
    PollStateChannel,
}

/// Where the front of the dual-state executor sends an execution request.
#[derive(Debug)]
pub enum Dispatch<R> {
    /// Wait for a state from state transfer.
    EnterStateTransfer,
    /// The same decided batches go to the confirmed worker, then to the speculating worker.
    CatchUpBoth(Vec<UpdateBatch<R>>),
    /// A message for the worker that keeps the confirmed state.
    ToConfirmed(ConfirmedUpdateMessage<R>),
    /// A message for the worker that speculates.
    ToPreemptive(PreemptiveWorkMessage<R>),
}

/// Routes an execution request to the dual-state workers: finalized batches and unordered
/// operations go to the worker that keeps the confirmed state, speculative batches and
/// confirmations to the worker that speculates, catch-up batches to both.
pub fn dispatch_execution_request<R>(request: PreemptiveExecutionRequest<R>) -> (d: Dispatch<R>)
    ensures
        match request {
            PreemptiveExecutionRequest::PollStateChannel => d is EnterStateTransfer,
            PreemptiveExecutionRequest::CatchUp(bs) => d == Dispatch::CatchUpBoth(bs),
            PreemptiveExecutionRequest::UpdateBatch(b) => d == Dispatch::ToConfirmed(
                ConfirmedUpdateMessage::UpdateBatch(b),
            ),
            PreemptiveExecutionRequest::UpdateBatchAndGetAppstate(b) => d == Dispatch::ToConfirmed(
                ConfirmedUpdateMessage::UpdateFinalizedAndGetAppstateBatch(b),
            ),
            PreemptiveExecutionRequest::PreemptiveUpdate(b) => d == Dispatch::ToPreemptive(
                PreemptiveWorkMessage::PreemptiveUpdate(b),
            ),
            PreemptiveExecutionRequest::PreemptiveUpdateFinalized(s) => d == Dispatch::ToPreemptive(
                PreemptiveWorkMessage::<R>::PreemptiveUpdateConfirmed(s),
            ),
            PreemptiveExecutionRequest::PreemptiveUpdateFinalizedAndGetAppstate(s) => d
                == Dispatch::ToPreemptive(PreemptiveWorkMessage::<R>::PreemptiveUpdateConfirmedAndGetAppState(s)),
            PreemptiveExecutionRequest::ExecuteUnordered(u) => d == Dispatch::ToConfirmed(
                ConfirmedUpdateMessage::ExecuteUnordered(u),
            ),
        },
{
    match request {
        PreemptiveExecutionRequest::PollStateChannel => Dispatch::EnterStateTransfer,
        PreemptiveExecutionRequest::CatchUp(batches) => Dispatch::CatchUpBoth(batches),
        PreemptiveExecutionRequest::UpdateBatch(batch) => Dispatch::ToConfirmed(
            ConfirmedUpdateMessage::UpdateBatch(batch),
        ),
        PreemptiveExecutionRequest::UpdateBatchAndGetAppstate(batch) => Dispatch::ToConfirmed(
            ConfirmedUpdateMessage::UpdateFinalizedAndGetAppstateBatch(batch),
        ),
        PreemptiveExecutionRequest::PreemptiveUpdate(batch) => Dispatch::ToPreemptive(
            PreemptiveWorkMessage::PreemptiveUpdate(batch),
        ),
        PreemptiveExecutionRequest::PreemptiveUpdateFinalized(seq) => Dispatch::ToPreemptive(
            PreemptiveWorkMessage::PreemptiveUpdateConfirmed(seq),
        ),
        PreemptiveExecutionRequest::PreemptiveUpdateFinalizedAndGetAppstate(seq) => Dispatch::ToPreemptive(
            PreemptiveWorkMessage::PreemptiveUpdateConfirmedAndGetAppState(seq),
        ),
        PreemptiveExecutionRequest::ExecuteUnordered(batch) => Dispatch::ToConfirmed(
            ConfirmedUpdateMessage::ExecuteUnordered(batch),
        ),
    }
}

/// What the speculating worker hands back after handling a message, for its caller to
/// carry out in order.
#[derive(Debug)]
pub enum PreemptiveWorkerAction<R, P> {
    /// Deliver the replies of the batch at this sequence number.
    Deliver(SeqNo, ReplyBatch<P>),
    /// Send a confirmed batch to the worker that keeps the confirmed state (asking it for a
    /// snapshot afterwards when the flag is set).
    ForwardConfirmed(UpdateBatch<R>, bool),
    /// The batch is behind the speculation: fetch a copy of the confirmed state and hand it,
    /// with the batch, to `backtrack_with_state`.
    FetchConfirmedState(UpdateBatch<R>),
    /// A speculative batch was refused.
    ExecuteFailed(ExecuteUpdateError<R>),
    /// A confirmation was refused.
    ConfirmFailed(HandleUpdateConfirmedError),
    /// A finalized batch could not be applied to the speculative state.
    ConfirmedUpdateFailed(ConfirmedUpdateError),
    /// A backtrack was refused or could not replay a kept batch.
    BacktrackFailed(BacktrackError),
}

/// The worker that keeps a speculative copy of the state.
pub struct DualPreemptiveWorker<S: View, A: Application<S>> {
    state: PreemptiveState<S, A>,
    run_mode: RunMode,
}

impl<S: View, A: Application<S>> DualPreemptiveWorker<S, A> {
    /// The speculative state.
    pub closed spec fn pstate(&self) -> PreemptiveState<S, A> {
        self.state
    }

    /// The current run mode.
    pub closed spec fn mode(&self) -> RunMode {
        self.run_mode
    }

    /// A worker in normal mode around `state`.
    pub fn new(state: PreemptiveState<S, A>) -> (w: Self)
        ensures
            w.pstate() == state,
            w.mode() == RunMode::Normal,
    {
        DualPreemptiveWorker { state, run_mode: RunMode::Normal }
    }

    /// The current run mode.
    pub fn run_mode(&self) -> (m: RunMode)
        ensures
            m == self.mode(),
    {
        self.run_mode
    }

    /// The speculative state.
    pub fn state(&self) -> (s: &PreemptiveState<S, A>)
        ensures
            *s == self.pstate(),
    {
        &self.state
    }

    /// Installs a confirmed state received by state transfer and returns to normal mode.
    pub fn install_state(&mut self, seq: SeqNo, state: S)
        ensures
            final(self).mode() == RunMode::Normal,
            final(self).pstate().wf(),
            forall|app: A| final(self).pstate().sound(app),
            final(self).pstate().state() == state,
            final(self).pstate().preemptive_seq() == seq.value,
            final(self).pstate().confirmed_seq() == seq.value,
            final(self).pstate().pending().len() == 0,
    {
        self.state.install_confirmed_state(seq, state);
        self.run_mode = RunMode::Normal;
        proof {
            assert forall|app: A| self.state.sound(app) by {
                assert(consistent_with(app, state@, self.state.state()@, self.state.pending()));
            }
        }
    }

    /// What offering a speculative `batch` does: a batch the state takes is applied (the
    /// first one on a fresh state may re-base the sequence numbers), a batch behind the head
    /// asks for the confirmed state, any other is refused.
    pub open spec fn preemptive_effect(
        self,
        after: Self,
        app: A,
        batch: UpdateBatch<A::Request>,
        actions: Seq<PreemptiveWorkerAction<A::Request, A::Reply>>,
    ) -> bool {
        let o = self.pstate();
        let n = after.pstate();
        let next = o.takes(batch.seq.value);
        &&& next ==> {
            &&& actions.len() == 0
            &&& n.preemptive_seq() == batch.seq.value
            &&& n.confirmed_seq() == if o.fresh() && batch.seq.value == o.preemptive_seq() {
                prev_raw(batch.seq.value)
            } else {
                o.confirmed_seq()
            }
            &&& permanent_batches(n.pending()) == permanent_batches(o.pending()).push(batch)
            &&& n.state()@ == run_updates(app, o.state()@, batch.updates@).0
        }
        &&& !next && batch.seq.value < o.preemptive_seq() ==> {
            &&& actions == seq![
                PreemptiveWorkerAction::<A::Request, A::Reply>::FetchConfirmedState(batch),
            ]
            &&& n == o
        }
        &&& !next && batch.seq.value >= o.preemptive_seq() ==> {
            &&& actions == seq![
                PreemptiveWorkerAction::<A::Request, A::Reply>::ExecuteFailed(
                    ExecuteUpdateError::FutureRequest(batch.seq, SeqNo { value: o.preemptive_seq() }),
                ),
            ]
            &&& n == o
        }
    }

    /// Offers a speculative batch.
    pub fn handle_preemptive_update(&mut self, application: &A, batch: UpdateBatch<A::Request>) -> (actions: Vec<PreemptiveWorkerAction<A::Request, A::Reply>>)
        requires
            old(self).pstate().wf(),
            old(self).pstate().sound(*application),
        ensures
            final(self).pstate().wf(),
            final(self).pstate().sound(*application),
            final(self).mode() == old(self).mode(),
            old(self).preemptive_effect(*final(self), *application, batch, actions@),
    {
        let ghost o = self.state;
        let mut actions: Vec<PreemptiveWorkerAction<A::Request, A::Reply>> = Vec::new();
        match self.state.handle_preemptive_update(application, batch) {
            Ok(()) => {},
            Err(ExecuteUpdateError::Backtracking(_, batch)) => {
                actions.push(PreemptiveWorkerAction::FetchConfirmedState(batch));
                assert(actions@ =~= seq![
                    PreemptiveWorkerAction::<A::Request, A::Reply>::FetchConfirmedState(batch),
                ]);
            },
            Err(e) => {
                actions.push(PreemptiveWorkerAction::ExecuteFailed(e));
                assert(actions@ =~= seq![PreemptiveWorkerAction::<A::Request, A::Reply>::ExecuteFailed(e)]);
            },
        }
        proof {
            let base = choose|base: S::V| consistent_with(*application, base, o.state()@, o.pending());
            assert(consistent_with(*application, base, self.state.state()@, self.state.pending()));
        }
        actions
    }

    /// Resumes a speculative batch that was behind the head, given a copy of the confirmed
    /// state at `confirmed_seq`: backtracks to the batch, replaying the kept pending batches
    /// over that state, then offers the batch again.
    pub fn backtrack_with_state(
        &mut self,
        application: &A,
        confirmed_seq: SeqNo,
        confirmed_state: S,
        batch: UpdateBatch<A::Request>,
    ) -> (actions: Vec<PreemptiveWorkerAction<A::Request, A::Reply>>)
        requires
            old(self).pstate().wf(),
        ensures
            final(self).pstate().wf(),
            final(self).mode() == old(self).mode(),
            batch.seq.value <= confirmed_seq.value ==> {
                &&& actions@ == seq![
                    PreemptiveWorkerAction::<A::Request, A::Reply>::BacktrackFailed(
                        BacktrackError::BacktrackToConfirmedOrBelow {
                            backtrack_seq: batch.seq,
                            confirmed_seq,
                        },
                    ),
                ]
                &&& final(self).pstate() == old(self).pstate()
            },
            batch.seq.value > confirmed_seq.value ==> {
                let kept = keep_between(permanent_batches(old(self).pstate().pending()), confirmed_seq.value, batch.seq.value);
                let replayable = forall|j: int|
                    0 <= j < kept.len() ==> (#[trigger] kept[j]).seq.value == seq_chain(
                        next_raw(confirmed_seq.value),
                        j as nat,
                    );
                let head = seq_chain(confirmed_seq.value, kept.len());
                &&& final(self).pstate().confirmed_seq() == confirmed_seq.value
                &&& final(self).pstate().sound(*application)
                &&& !replayable ==> actions@.len() == 1 && (actions@[0] matches PreemptiveWorkerAction::BacktrackFailed(
                    BacktrackError::ReExecutionFailed { .. },
                ))
                &&& replayable && batch.seq.value == next_raw(head) ==> {
                    &&& actions@.len() == 0
                    &&& permanent_batches(final(self).pstate().pending()) == kept.push(batch)
                    &&& final(self).pstate().preemptive_seq() == batch.seq.value
                    &&& final(self).pstate().state()@ == run_updates(
                        *application,
                        apply_batches(*application, confirmed_state@, kept),
                        batch.updates@,
                    ).0
                }
                &&& replayable && batch.seq.value != next_raw(head) ==> {
                    &&& actions@ == seq![
                        PreemptiveWorkerAction::<A::Request, A::Reply>::ExecuteFailed(
                            ExecuteUpdateError::FutureRequest(batch.seq, SeqNo { value: head }),
                        ),
                    ]
                    &&& permanent_batches(final(self).pstate().pending()) == kept
                    &&& final(self).pstate().state()@ == apply_batches(*application, confirmed_state@, kept)
                }
            },
    {
        let ghost base = confirmed_state@;
        let mut actions: Vec<PreemptiveWorkerAction<A::Request, A::Reply>> = Vec::new();
        match self.state.backtrack(application, confirmed_seq, confirmed_state, batch.seq) {
            Err(e) => {
                actions.push(PreemptiveWorkerAction::BacktrackFailed(e));
                assert(actions@ =~= seq![PreemptiveWorkerAction::<A::Request, A::Reply>::BacktrackFailed(e)]);
                if batch.seq.value > confirmed_seq.value {
                    assert(consistent_with(*application, base, self.state.state()@, self.state.pending()));
                }
            },
            Ok(()) => {
                let ghost mid = self.state;
                proof {
                    let kept = keep_between(permanent_batches(old(self).pstate().pending()), confirmed_seq.value, batch.seq.value);
                    lemma_keep_between_all_below(permanent_batches(old(self).pstate().pending()), confirmed_seq.value, batch.seq.value);
                    let m = mid.pending().len();
                    if m > 0 {
                        crate::preemptive_requests::lemma_chain_shift(confirmed_seq.value, (m - 1) as nat);
                        assert(mid.pending()[m - 1].batch.seq.value == seq_chain(next_raw(confirmed_seq.value), (m - 1) as nat));
                        assert(permanent_batches(mid.pending())[m - 1] == mid.pending()[m - 1].batch);
                        assert(kept[m - 1].seq.value < batch.seq.value);
                    }
                    assert(mid.preemptive_seq() < batch.seq.value);
                }
                match self.state.handle_preemptive_update(application, batch) {
                    Ok(()) => {},
                    Err(e) => {
                        actions.push(PreemptiveWorkerAction::ExecuteFailed(e));
                        assert(actions@ =~= seq![PreemptiveWorkerAction::<A::Request, A::Reply>::ExecuteFailed(e)]);
                    },
                }
                proof {
                    assert(consistent_with(*application, base, self.state.state()@, self.state.pending()));
                }
            },
        }
        actions
    }
}

impl<S: View, A: Application<S>> DualPreemptiveWorker<S, A> {
    /// What confirming the speculated batch at `seq` does: the oldest pending batch, if it
    /// is at `seq`, leaves the queue, its replies are delivered and it is forwarded to the
    /// worker that keeps the confirmed state; anything else is refused.
    pub open spec fn confirm_effect(
        self,
        after: Self,
        seq: SeqNo,
        emit: bool,
        actions: Seq<PreemptiveWorkerAction<A::Request, A::Reply>>,
    ) -> bool {
        let o = self.pstate();
        let n = after.pstate();
        &&& o.pending().len() == 0 ==> {
            &&& actions == seq![
                PreemptiveWorkerAction::<A::Request, A::Reply>::ConfirmFailed(
                    HandleUpdateConfirmedError::EmptyQueue { received: seq },
                ),
            ]
            &&& n == o
        }
        &&& o.pending().len() > 0 && o.pending()[0].batch.seq != seq ==> {
            &&& actions == seq![
                PreemptiveWorkerAction::<A::Request, A::Reply>::ConfirmFailed(
                    HandleUpdateConfirmedError::SeqMismatch {
                        expected: o.pending()[0].batch.seq,
                        received: seq,
                    },
                ),
            ]
            &&& n == o
        }
        &&& o.pending().len() > 0 && o.pending()[0].batch.seq == seq ==> {
            &&& actions == seq![
                PreemptiveWorkerAction::<A::Request, A::Reply>::Deliver(seq, o.pending()[0].replies),
                PreemptiveWorkerAction::<A::Request, A::Reply>::ForwardConfirmed(o.pending()[0].batch, emit),
            ]
            &&& n.pending() == o.pending().drop_first()
            &&& n.confirmed_seq() == seq.value
            &&& n.state() == o.state()
            &&& n.preemptive_seq() == o.preemptive_seq()
        }
    }

    fn confirmed(&mut self, application: &A, seq: SeqNo, emit: bool) -> (actions: Vec<PreemptiveWorkerAction<A::Request, A::Reply>>)
        requires
            old(self).pstate().wf(),
            old(self).pstate().sound(*application),
        ensures
            final(self).pstate().wf(),
            final(self).pstate().sound(*application),
            final(self).mode() == old(self).mode(),
            old(self).confirm_effect(*final(self), seq, emit, actions@),
    {
        let ghost o = self.state;
        let mut actions: Vec<PreemptiveWorkerAction<A::Request, A::Reply>> = Vec::new();
        match self.state.handle_update_confirmed(seq) {
            Ok(update) => {
                let (batch, replies) = update.into_inner();
                actions.push(PreemptiveWorkerAction::Deliver(seq, replies));
                actions.push(PreemptiveWorkerAction::ForwardConfirmed(batch, emit));
                proof {
                    assert(actions@ =~= seq![
                        PreemptiveWorkerAction::<A::Request, A::Reply>::Deliver(seq, o.pending()[0].replies),
                        PreemptiveWorkerAction::<A::Request, A::Reply>::ForwardConfirmed(o.pending()[0].batch, emit),
                    ]);
                    let base = choose|base: S::V| consistent_with(*application, base, o.state()@, o.pending());
                    assert(consistent_with(
                        *application,
                        run_updates(*application, base, o.pending()[0].batch.updates@).0,
                        self.state.state()@,
                        self.state.pending(),
                    ));
                }
            },
            Err(e) => {
                actions.push(PreemptiveWorkerAction::ConfirmFailed(e));
                assert(actions@ =~= seq![PreemptiveWorkerAction::<A::Request, A::Reply>::ConfirmFailed(e)]);
            },
        }
        actions
    }

    /// What a finalized batch that was never speculated does: it is forwarded to the worker
    /// that keeps the confirmed state, then applied to the speculative state and its replies
    /// delivered; while speculative batches are pending it is refused here instead.
    pub open spec fn finalized_effect(
        self,
        after: Self,
        app: A,
        batch: UpdateBatch<A::Request>,
        emit: bool,
        actions: Seq<PreemptiveWorkerAction<A::Request, A::Reply>>,
    ) -> bool {
        let o = self.pstate();
        let n = after.pstate();
        let idle = o.preemptive_seq() == o.confirmed_seq() && o.pending().len() == 0;
        &&& actions.len() == 2
        &&& actions[0] == PreemptiveWorkerAction::<A::Request, A::Reply>::ForwardConfirmed(batch, emit)
        &&& idle ==> {
            &&& actions[1] matches PreemptiveWorkerAction::Deliver(s, r) && s == batch.seq && (
                n.state()@,
                r.views(),
            ) == run_updates(app, o.state()@, batch.updates@)
            &&& n.preemptive_seq() == batch.seq.value
            &&& n.confirmed_seq() == batch.seq.value
            &&& n.pending().len() == 0
        }
        &&& !idle ==> {
            &&& actions[1] == PreemptiveWorkerAction::<A::Request, A::Reply>::ConfirmedUpdateFailed(
                ConfirmedUpdateError::PendingPreemptiveUpdates {
                    confirmed_update_seq: batch.seq,
                    preemptive_seq: (SeqNo { value: o.preemptive_seq() }),
                    confirmed_seq: (SeqNo { value: o.confirmed_seq() }),
                },
            )
            &&& n == o
        }
    }

    fn finalized(&mut self, application: &A, batch: UpdateBatch<A::Request>, emit: bool) -> (actions: Vec<PreemptiveWorkerAction<A::Request, A::Reply>>)
        requires
            old(self).pstate().wf(),
            old(self).pstate().sound(*application),
        ensures
            final(self).pstate().wf(),
            final(self).pstate().sound(*application),
            final(self).mode() == old(self).mode(),
            old(self).finalized_effect(*final(self), *application, batch, emit, actions@),
    {
        let seq = batch.seq;
        let result = self.state.apply_finalized(application, &batch);
        let mut actions: Vec<PreemptiveWorkerAction<A::Request, A::Reply>> = Vec::new();
        actions.push(PreemptiveWorkerAction::ForwardConfirmed(batch, emit));
        match result {
            Ok(replies) => {
                actions.push(PreemptiveWorkerAction::Deliver(seq, replies));
                assert(consistent_with(*application, self.state.state()@, self.state.state()@, self.state.pending()));
            },
            Err(e) => {
                actions.push(PreemptiveWorkerAction::ConfirmedUpdateFailed(e));
            },
        }
        actions
    }

    /// Handles one message in normal mode and says what the caller must carry out, in
    /// order.
    pub fn handle_work_message(&mut self, application: &A, message: PreemptiveWorkMessage<A::Request>) -> (actions: Vec<PreemptiveWorkerAction<A::Request, A::Reply>>)
        requires
            old(self).pstate().wf(),
            old(self).pstate().sound(*application),
        ensures
            final(self).pstate().wf(),
            final(self).pstate().sound(*application),
            message is PollStateChannel ==> final(self).mode() == RunMode::StateTransfer
                && final(self).pstate() == old(self).pstate() && actions@.len() == 0,
            !(message is PollStateChannel) ==> final(self).mode() == old(self).mode(),
            message matches PreemptiveWorkMessage::PreemptiveUpdate(b) ==> old(self).preemptive_effect(
                *final(self),
                *application,
                b,
                actions@,
            ),
            message matches PreemptiveWorkMessage::PreemptiveUpdateConfirmed(s) ==> old(
                self,
            ).confirm_effect(*final(self), s, false, actions@),
            message matches PreemptiveWorkMessage::PreemptiveUpdateConfirmedAndGetAppState(s) ==> old(
                self,
            ).confirm_effect(*final(self), s, true, actions@),
            message matches PreemptiveWorkMessage::ConfirmedUpdate(b) ==> old(self).finalized_effect(
                *final(self),
                *application,
                b,
                false,
                actions@,
            ),
            message matches PreemptiveWorkMessage::ConfirmedUpdateAndGetAppstate(b) ==> old(
                self,
            ).finalized_effect(*final(self), *application, b, true, actions@),
            message matches PreemptiveWorkMessage::CatchUp(bs) ==> {
                &&& final(self).pstate().state()@ == apply_batches(
                    *application,
                    old(self).pstate().state()@,
                    bs@,
                )
                &&& final(self).pstate().pending().len() == 0
                &&& bs@.len() > 0 ==> final(self).pstate().confirmed_seq() == bs@.last().seq.value
                &&& final(self).pstate().preemptive_seq() == final(self).pstate().confirmed_seq()
                &&& actions@.len() == 0
            },
    {
        match message {
            PreemptiveWorkMessage::PreemptiveUpdate(batch) => self.handle_preemptive_update(application, batch),
            PreemptiveWorkMessage::PreemptiveUpdateConfirmed(seq) => self.confirmed(application, seq, false),
            PreemptiveWorkMessage::PreemptiveUpdateConfirmedAndGetAppState(seq) => self.confirmed(
                application,
                seq,
                true,
            ),
            PreemptiveWorkMessage::ConfirmedUpdate(batch) => self.finalized(application, batch, false),
            PreemptiveWorkMessage::ConfirmedUpdateAndGetAppstate(batch) => self.finalized(application, batch, true),
            PreemptiveWorkMessage::CatchUp(batches) => {
                self.state.handle_catch_up(application, batches);
                assert(consistent_with(*application, self.state.state()@, self.state.state()@, self.state.pending()));
                Vec::new()
            },
            PreemptiveWorkMessage::PollStateChannel => {
                self.run_mode = RunMode::StateTransfer;
                Vec::new()
            },
        }
    }
}

/// Every batch kept below `high` is below it.
proof fn lemma_keep_between_all_below<R>(bs: Seq<UpdateBatch<R>>, low: u32, high: u32)
    ensures
        forall|j: int|
            0 <= j < keep_between(bs, low, high).len() ==> (#[trigger] keep_between(bs, low, high)[j]).seq.value
                < high,
    decreases bs.len(),
{
    if bs.len() > 0 {
        lemma_keep_between_all_below(bs.drop_last(), low, high);
        let prev = keep_between(bs.drop_last(), low, high);
        if low < bs.last().seq.value < high {
            assert forall|j: int| 0 <= j < keep_between(bs, low, high).len() implies (#[trigger] keep_between(
                bs,
                low,
                high,
            )[j]).seq.value < high by {
                if j < prev.len() {
                    assert(keep_between(bs, low, high)[j] == prev[j]);
                }
            }
        }
    }
}

} // verus!
