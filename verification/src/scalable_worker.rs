use crate::application::{run_batch, run_updates, CRUDApplication};
use crate::batch::{ReplyBatch, UpdateBatch};
use crate::confirmed_requests::{run_unordered_in_parallel, unordered_replies};
use crate::crud::CRUDState;
use crate::exec_handle::{PreemptiveExecutionRequest, RunMode, UnorderedBatch};
use crate::metric::MetricSample;
use crate::model::overlay;
use crate::pending_state::{
    chain_batches, chain_set, run_batches, seq_chain, staged_with, BacktrackError, ConfirmError, PreemptiveError,
    MAX_STAGED_BATCHES,
};
use crate::scalable_state::ScalableCachingPreemptiveState;
use crate::seq_no::{next_raw, SeqNo};
use rayon::ThreadPool;
use vstd::prelude::*;

verus! {

/// What the worker hands back after handling a request, for its caller to carry out in
/// order.
#[derive(Debug)]
pub enum WorkerAction<R, P> {
    /// Deliver the replies of the batch at `Some(seq)`, or of unordered operations (`None`).
    Deliver(Option<SeqNo>, ReplyBatch<P>),
    /// Send a snapshot of the confirmed state, taken right after the batch at `seq`.
    Checkpoint(SeqNo),
    /// A confirmation or a finalized batch was refused.
    ConfirmFailed(ConfirmError),
    /// A backtrack was refused.
    BacktrackFailed(BacktrackError),
    /// A speculative batch could not be taken.
    PreemptiveFailed(PreemptiveError<R>),
}

/// The worker around a scalable CRUD preemptive state: routes each execution request to
/// the state and says what must be delivered, checkpointed or reported.
pub struct ScalableCachingPreemptiveWorker<S: CRUDState + View + Sync, A: CRUDApplication<S> + Sync> where
    A::Request: Sync,
    A::Reply: Send,
 {
    state: ScalableCachingPreemptiveState<S, A>,
    read_thread_pool: ThreadPool,
    run_mode: RunMode,
}

impl<S: CRUDState + View + Sync, A: CRUDApplication<S> + Sync> ScalableCachingPreemptiveWorker<S, A> where
    A::Request: Sync,
    A::Reply: Send,
 {
    /// The preemptive state.
    pub closed spec fn pstate(&self) -> ScalableCachingPreemptiveState<S, A> {
        self.state
    }

    /// The current run mode.
    pub closed spec fn mode(&self) -> RunMode {
        self.run_mode
    }

    /// A worker in normal mode around `state`, executing unordered operations on the
    /// threads of `read_thread_pool`.
    pub fn new(state: ScalableCachingPreemptiveState<S, A>, read_thread_pool: ThreadPool) -> (w: Self)
        ensures
            w.pstate() == state,
            w.mode() == RunMode::Normal,
    {
        ScalableCachingPreemptiveWorker { state, read_thread_pool, run_mode: RunMode::Normal }
    }

    /// The current run mode.
    pub fn run_mode(&self) -> (m: RunMode)
        ensures
            m == self.mode(),
    {
        self.run_mode
    }

    /// The preemptive state.
    pub fn state(&self) -> (s: &ScalableCachingPreemptiveState<S, A>)
        ensures
            *s == self.pstate(),
    {
        &self.state
    }

    /// Hands out the metric samples the state recorded so far, oldest first; nothing else
    /// changes.
    pub fn take_metric_samples(&mut self) -> (r: Vec<MetricSample>)
        ensures
            r@ == old(self).pstate().recorded_samples(),
            final(self).pstate().recorded_samples() == Seq::<MetricSample>::empty(),
            final(self).mode() == old(self).mode(),
            old(self).pstate().wf() ==> final(self).pstate().wf(),
            forall|app: A| old(self).pstate().sound(app) ==> #[trigger] final(self).pstate().sound(app),
            final(self).pstate().confirmed() == old(self).pstate().confirmed(),
            final(self).pstate().next_confirmed_value() == old(self).pstate().next_confirmed_value(),
            final(self).pstate().next_preemptive_value() == old(self).pstate().next_preemptive_value(),
            final(self).pstate().pending_updates() == old(self).pstate().pending_updates(),
            final(self).pstate().staged_batches() == old(self).pstate().staged_batches(),
    {
        self.state.take_metric_samples()
    }

    /// Installs a state received by state transfer at `seq`, and returns to normal mode.
    pub fn install_state(&mut self, seq: SeqNo, state: S)
        requires
            old(self).pstate().wf(),
        ensures
            final(self).mode() == RunMode::Normal,
            final(self).pstate().wf(),
            forall|app: A| final(self).pstate().sound(app),
            final(self).pstate().confirmed() == state,
            final(self).pstate().next_confirmed_value() == next_raw(seq.value),
            final(self).pstate().next_preemptive_value() == next_raw(seq.value),
            final(self).pstate().pending_updates().len() == 0,
            final(self).pstate().staged_batches() == Map::<u32, UpdateBatch<A::Request>>::empty(),
    {
        self.state.install_confirmed_state(seq, state);
        self.run_mode = RunMode::Normal;
    }

    /// Executes unordered operations on the confirmed state, in parallel.
    pub fn execute_unordered(&self, application: &A, batch: UnorderedBatch<A::Request>) -> (replies: ReplyBatch<A::Reply>)
        ensures
            replies.views() == unordered_replies(*application, self.pstate().confirmed()@, batch.updates@),
            replies.views().len() == batch.updates@.len(),
            forall|i: int|
                0 <= i < batch.updates@.len() ==> #[trigger] replies.views()[i] == (
                    batch.updates@[i].info,
                    application.unordered_spec(self.pstate().confirmed()@, batch.updates@[i].operation),
                ),
    {
        let state = self.state.confirmed_state();
        let replies = run_unordered_in_parallel(&self.read_thread_pool, application, state, &batch.updates);
        let r = ReplyBatch { replies };
        assert(r.views() =~= unordered_replies(*application, self.pstate().confirmed()@, batch.updates@));
        proof {
            crate::confirmed_requests::lemma_unordered_reply_is_own(
                *application,
                self.pstate().confirmed()@,
                batch.updates@,
            );
        }
        r
    }
}

impl<S: CRUDState + View + Sync, A: CRUDApplication<S> + Sync> ScalableCachingPreemptiveWorker<S, A> where
    A::Request: Sync,
    A::Reply: Send,
 {
    /// Where a batch behind the speculation ends up once the worker backtracked to it: the
    /// pending batches before it are kept, and it is then executed at its turn, buffered, or
    /// refused by the full buffer.
    pub open spec fn backtrack_outcome(
        o: ScalableCachingPreemptiveState<S, A>,
        n: ScalableCachingPreemptiveState<S, A>,
        batch: UpdateBatch<A::Request>,
        actions: Seq<WorkerAction<A::Request, A::Reply>>,
    ) -> bool {
        let bs = batch.seq.value;
        exists|k: int|
            {
                &&& 0 <= k <= o.pending_batches().len()
                &&& n.pending_batches().len() >= k
                &&& #[trigger] n.pending_batches().take(k) == o.pending_batches().take(k)
                &&& forall|j: int| 0 <= j < k ==> (#[trigger] o.pending_batches()[j]).seq.value < bs
                &&& k < o.pending_batches().len() ==> o.pending_batches()[k].seq.value >= bs
                &&& {
                    ||| actions.len() == 0 && n.pending_batches().len() > k && n.pending_batches()[k]
                        == batch
                    ||| actions.len() == 0 && n.pending_batches().len() == k
                        && n.staged_batches().contains_key(bs) && n.staged_batches()[bs] == batch
                    ||| actions.len() == 1 && actions[0] is PreemptiveFailed
                        && n.pending_batches().len() == k
                }
            }
    }

    /// What handling a speculative `batch` does to the state and reports: a batch at its
    /// turn is executed, a batch ahead of its turn is buffered (or refused when the buffer
    /// is full), and a batch behind the speculation makes the worker backtrack to it (refused
    /// below what is confirmed) and offer it again.
    pub open spec fn preemptive_effect(
        self,
        after: Self,
        batch: UpdateBatch<A::Request>,
        actions: Seq<WorkerAction<A::Request, A::Reply>>,
    ) -> bool {
        let o = self.pstate();
        let n = after.pstate();
        let bs = batch.seq.value;
        &&& n.confirmed() == o.confirmed()
        &&& n.next_confirmed_value() == o.next_confirmed_value()
        &&& bs == o.next_preemptive_value() ==> {
            &&& actions.len() == 0
            &&& n.pending_batches().take(o.pending_batches().len() as int + 1) == o.pending_batches().push(batch)
            &&& exists|d: nat|
                {
                    &&& n.pending_batches() == o.pending_batches().push(batch) + #[trigger] chain_batches(
                        o.staged_batches(),
                        next_raw(bs),
                        d,
                    )
                    &&& n.staged_batches() == o.staged_batches().remove_keys(chain_set(next_raw(bs), d))
                    &&& n.next_preemptive_value() == seq_chain(next_raw(bs), d)
                }
        }
        &&& bs > o.next_preemptive_value() && o.staged_batches().len() < MAX_STAGED_BATCHES ==> {
            &&& actions.len() == 0
            &&& n.staged_batches() == o.staged_batches().insert(bs, batch)
            &&& n.pending_updates() == o.pending_updates()
            &&& n.next_preemptive_value() == o.next_preemptive_value()
            &&& n.accumulated() == o.accumulated()
        }
        &&& bs > o.next_preemptive_value() && o.staged_batches().len() >= MAX_STAGED_BATCHES ==> {
            &&& actions == seq![
                WorkerAction::<A::Request, A::Reply>::PreemptiveFailed(
                    PreemptiveError::<A::Request>::ReorderBufferFull {
                        seq: batch.seq,
                        awaiting: (SeqNo { value: o.next_preemptive_value() }),
                        buffered: o.staged_batches().len() as usize,
                    },
                ),
            ]
            &&& n == o
        }
        &&& bs < o.next_preemptive_value() && bs < o.next_confirmed_value() ==> {
            &&& actions == seq![
                WorkerAction::<A::Request, A::Reply>::BacktrackFailed(
                    BacktrackError::BacktrackBelowConfirmed {
                        backtrack_seq: batch.seq,
                        next_confirmed: (SeqNo { value: o.next_confirmed_value() }),
                    },
                ),
            ]
            &&& n == o
        }
        &&& o.next_confirmed_value() <= bs < o.next_preemptive_value() ==> Self::backtrack_outcome(
            o,
            n,
            batch,
            actions,
        )
    }

    /// Speculatively executes `batch`. A batch behind the speculation makes the worker
    /// backtrack to its sequence number and offer it again.
    pub fn handle_preemptive_update(&mut self, application: &A, batch: UpdateBatch<A::Request>) -> (actions: Vec<WorkerAction<A::Request, A::Reply>>)
        requires
            old(self).pstate().wf(),
            old(self).pstate().sound(*application),
        ensures
            final(self).pstate().wf(),
            final(self).pstate().sound(*application),
            final(self).mode() == old(self).mode(),
            old(self).preemptive_effect(*final(self), batch, actions@),
    {
        let ghost o = self.state;
        let mut actions: Vec<WorkerAction<A::Request, A::Reply>> = Vec::new();
        match self.state.handle_preemptive_update(application, batch) {
            Ok(_) => {},
            Err(PreemptiveError::Backtracking(seq, batch)) => {
                assert(batch.seq.value < o.next_preemptive_value());
                match self.state.backtrack(seq) {
                    Err(e) => {
                        actions.push(WorkerAction::BacktrackFailed(e));
                        assert(actions@ =~= seq![WorkerAction::<A::Request, A::Reply>::BacktrackFailed(e)]);
                        assert(old(self).preemptive_effect(*self, batch, actions@));
                    },
                    Ok(()) => {
                        let ghost mid = self.state;
                        proof {
                            let k = choose|k: int|
                                {
                                    &&& 0 <= k <= o.pending_updates().len()
                                    &&& mid.pending_updates() == #[trigger] o.pending_updates().take(k)
                                    &&& forall|j: int|
                                        0 <= j < k ==> (#[trigger] o.pending_updates()[j]).batch.seq.value
                                            < seq.value
                                    &&& k < o.pending_updates().len() ==> o.pending_updates()[k].batch.seq.value
                                        >= seq.value
                                };
                            assert(mid.pending_batches() =~= o.pending_batches().take(k));
                            if k > 0 {
                                assert(mid.pending_updates().last() == o.pending_updates()[k - 1]);
                            }
                            assert(mid.next_preemptive_value() <= seq.value);
                        }
                        match self.state.handle_preemptive_update(application, batch) {
                            Ok(_) => {},
                            Err(e) => {
                                actions.push(WorkerAction::PreemptiveFailed(e));
                            },
                        }
                        proof {
                            let k = choose|k: int|
                                {
                                    &&& 0 <= k <= o.pending_updates().len()
                                    &&& mid.pending_updates() == #[trigger] o.pending_updates().take(k)
                                    &&& forall|j: int|
                                        0 <= j < k ==> (#[trigger] o.pending_updates()[j]).batch.seq.value
                                            < seq.value
                                    &&& k < o.pending_updates().len() ==> o.pending_updates()[k].batch.seq.value
                                        >= seq.value
                                };
                            let n = self.state;
                            assert(mid.pending_batches() =~= o.pending_batches().take(k));
                            assert(n.pending_batches().take(k) =~= o.pending_batches().take(k));
                            assert forall|j: int| 0 <= j < k implies (#[trigger] o.pending_batches()[j]).seq.value
                                < seq.value by {
                                assert(o.pending_batches()[j] == o.pending_updates()[j].batch);
                            }
                            if k < o.pending_batches().len() {
                                assert(o.pending_batches()[k] == o.pending_updates()[k].batch);
                            }
                            if batch.seq.value == mid.next_preemptive_value() {
                                assert(n.pending_batches().len() > k);
                                assert(n.pending_batches()[k] == batch);
                            } else if mid.staged_batches().len() < MAX_STAGED_BATCHES {
                                assert(n.pending_batches().len() == k);
                                assert(n.staged_batches()[batch.seq.value] == batch);
                            } else {
                                assert(n.pending_batches().len() == k);
                                assert(actions@.len() == 1);
                                assert(actions@[0] is PreemptiveFailed);
                            }
                            assert(Self::backtrack_outcome(o, n, batch, actions@));
                            assert(old(self).preemptive_effect(*self, batch, actions@));
                        }
                    },
                }
            },
            Err(e) => {
                actions.push(WorkerAction::PreemptiveFailed(e));
                assert(actions@ =~= seq![WorkerAction::<A::Request, A::Reply>::PreemptiveFailed(e)]);
            },
        }
        proof {
            if batch.seq.value == o.next_preemptive_value() {
                assert(self.state.pending_batches().take(o.pending_batches().len() as int + 1)
                    =~= o.pending_batches().push(batch));
            }
            assert(old(self).preemptive_effect(*self, batch, actions@));
        }
        actions
    }
}

impl<S: CRUDState + View + Sync, A: CRUDApplication<S> + Sync> ScalableCachingPreemptiveWorker<S, A> where
    A::Request: Sync,
    A::Reply: Send,
 {
    /// What a decided, finalized batch does: executed directly on the confirmed state, its
    /// replies delivered (then a checkpoint when asked), unless speculative work is pending.
    pub open spec fn finalized_effect(
        self,
        after: Self,
        app: A,
        batch: UpdateBatch<A::Request>,
        checkpoint: bool,
        actions: Seq<WorkerAction<A::Request, A::Reply>>,
    ) -> bool {
        let o = self.pstate();
        let n = after.pstate();
        let allowed = o.next_preemptive_value() == o.next_confirmed_value() && o.pending_updates().len() == 0;
        &&& !allowed ==> {
            &&& actions == seq![
                WorkerAction::<A::Request, A::Reply>::ConfirmFailed(
                    ConfirmError::PendingPreemptiveUpdates {
                        confirmed_update_seq: batch.seq,
                        next_preemptive: (SeqNo { value: o.next_preemptive_value() }),
                        next_confirmed: (SeqNo { value: o.next_confirmed_value() }),
                    },
                ),
            ]
            &&& n == o
        }
        &&& allowed ==> {
            &&& n.confirmed().contents() == run_batch(app, o.confirmed().contents(), batch.updates@).0
            &&& n.next_confirmed_value() == next_raw(batch.seq.value)
            &&& n.next_preemptive_value() == next_raw(batch.seq.value)
            &&& n.confirmed()@ == run_updates(app, o.confirmed()@, batch.updates@).0
            &&& n.pending_updates().len() == 0
            &&& n.staged_batches() == o.staged_batches()
            &&& actions.len() == (if checkpoint { 2int } else { 1int })
            &&& actions[0] matches WorkerAction::Deliver(Some(s), r) && s == batch.seq && r.views()
                == run_batch(app, o.confirmed().contents(), batch.updates@).1
            &&& checkpoint ==> actions[1] == WorkerAction::<A::Request, A::Reply>::Checkpoint(batch.seq)
        }
    }

    /// Executing a finalized batch keeps the reorder buffer: every batch buffered before it is
    /// still buffered, unchanged, and will be executed at its turn.
    pub proof fn lemma_finalized_keeps_buffered(
        self,
        after: Self,
        app: A,
        batch: UpdateBatch<A::Request>,
        checkpoint: bool,
        actions: Seq<WorkerAction<A::Request, A::Reply>>,
        k: u32,
    )
        requires
            self.finalized_effect(after, app, batch, checkpoint, actions),
            self.pstate().staged_batches().contains_key(k),
        ensures
            after.pstate().staged_batches().contains_key(k),
            after.pstate().staged_batches()[k] == self.pstate().staged_batches()[k],
    {
    }

    /// Confirming the batch at the head of the speculation keeps the reorder buffer and the
    /// speculation's next number: every batch buffered before is still buffered, unchanged,
    /// and is replayed once the gap before it closes.
    pub proof fn lemma_confirmation_keeps_buffered(
        self,
        after: Self,
        app: A,
        seq: SeqNo,
        checkpoint: bool,
        actions: Seq<WorkerAction<A::Request, A::Reply>>,
        k: u32,
    )
        requires
            self.confirm_effect(after, app, seq, checkpoint, actions),
            seq.value == self.pstate().next_confirmed_value(),
            self.pstate().pending_updates().len() > 0,
            self.pstate().pending_updates()[0].batch.seq == seq,
            self.pstate().staged_batches().contains_key(k),
        ensures
            after.pstate().staged_batches().contains_key(k),
            after.pstate().staged_batches()[k] == self.pstate().staged_batches()[k],
            after.pstate().next_preemptive_value() == self.pstate().next_preemptive_value(),
    {
    }

    /// What the confirmation of the batch at `seq` does: the speculated batch's layer is
    /// applied and its replies delivered, a batch still buffered is executed directly, and
    /// anything else is refused; a checkpoint follows a delivery when asked.
    pub open spec fn confirm_effect(
        self,
        after: Self,
        app: A,
        seq: SeqNo,
        checkpoint: bool,
        actions: Seq<WorkerAction<A::Request, A::Reply>>,
    ) -> bool {
        let o = self.pstate();
        let n = after.pstate();
        let at_head = o.pending_updates().len() > 0 && o.pending_updates()[0].batch.seq == seq;
        let delivered = actions.len() == (if checkpoint { 2int } else { 1int }) && (checkpoint
            ==> actions[1] == WorkerAction::<A::Request, A::Reply>::Checkpoint(seq));
        &&& seq.value != o.next_confirmed_value() ==> {
            &&& actions == seq![
                WorkerAction::<A::Request, A::Reply>::ConfirmFailed(
                    ConfirmError::OutOfOrderConfirmation {
                        expected: (SeqNo { value: o.next_confirmed_value() }),
                        received: seq,
                    },
                ),
            ]
            &&& n == o
        }
        &&& seq.value == o.next_confirmed_value() && at_head ==> {
            &&& delivered
            &&& actions[0] matches WorkerAction::Deliver(Some(s), r) && s == seq && r
                == o.pending_updates()[0].replies
            &&& n.confirmed().contents() == overlay(o.confirmed().contents(), o.pending_deltas()[0])
            &&& n.pending_updates() == o.pending_updates().drop_first()
            &&& n.next_confirmed_value() == next_raw(seq.value)
            &&& n.next_preemptive_value() == o.next_preemptive_value()
            &&& n.staged_batches() == o.staged_batches()
            &&& n.speculative_contents() == o.speculative_contents()
        }
        &&& seq.value == o.next_confirmed_value() && !at_head && o.staged_batches().contains_key(
            seq.value,
        ) ==> {
            &&& delivered
            &&& actions[0] matches WorkerAction::Deliver(Some(s), r) && s == seq && (
                n.confirmed().contents(),
                r.views(),
            ) == run_batch(app, o.confirmed().contents(), o.staged_batches()[seq.value].updates@)
            &&& n.next_confirmed_value() == next_raw(seq.value)
            &&& exists|d: nat|
                {
                    &&& n.next_preemptive_value() == seq_chain(next_raw(seq.value), d)
                    &&& forall|m: nat|
                        m < d ==> staged_with(o.staged_batches().remove(seq.value), o.pending_batches()).contains_key(
                            #[trigger] seq_chain(next_raw(seq.value), m),
                        )
                    &&& n.staged_batches() == staged_with(o.staged_batches().remove(seq.value), o.pending_batches()).remove_keys(
                        chain_set(next_raw(seq.value), d),
                    )
                    &&& !n.staged_batches().contains_key(n.next_preemptive_value())
                    &&& n.pending_batches() == #[trigger] chain_batches(
                        staged_with(o.staged_batches().remove(seq.value), o.pending_batches()),
                        next_raw(seq.value),
                        d,
                    )
                }
        }
        &&& seq.value == o.next_confirmed_value() && o.pending_updates().len() > 0 && !at_head
            && !o.staged_batches().contains_key(seq.value) ==> {
            &&& actions == seq![
                WorkerAction::<A::Request, A::Reply>::ConfirmFailed(
                    ConfirmError::SeqMismatch { expected: o.pending_updates()[0].batch.seq, received: seq },
                ),
            ]
            &&& n == o
        }
        &&& seq.value == o.next_confirmed_value() && o.pending_updates().len() == 0
            && !o.staged_batches().contains_key(seq.value) ==> {
            &&& actions == seq![
                WorkerAction::<A::Request, A::Reply>::ConfirmFailed(
                    ConfirmError::EmptyQueue { received: seq },
                ),
            ]
            &&& n == o
        }
    }

    /// What catching up with decided batches does: speculation and the reorder buffer are
    /// dropped, the batches are applied in order and each one's replies delivered.
    pub open spec fn catch_up_effect(
        self,
        after: Self,
        app: A,
        batches: Seq<UpdateBatch<A::Request>>,
        actions: Seq<WorkerAction<A::Request, A::Reply>>,
    ) -> bool {
        let o = self.pstate();
        let n = after.pstate();
        &&& n.confirmed().contents() == run_batches(app, o.confirmed().contents(), batches)
        &&& n.pending_updates().len() == 0
        &&& n.staged_batches() == Map::<u32, UpdateBatch<A::Request>>::empty()
        &&& batches.len() > 0 ==> n.next_confirmed_value() == next_raw(batches.last().seq.value)
            && n.next_preemptive_value() == next_raw(batches.last().seq.value)
        &&& actions.len() == batches.len()
        &&& forall|i: int|
            0 <= i < batches.len() ==> (#[trigger] actions[i] matches WorkerAction::Deliver(Some(s), r)
                && s == batches[i].seq && r.views() == run_batch(
                app,
                run_batches(app, o.confirmed().contents(), batches.take(i)),
                batches[i].updates@,
            ).1)
    }

    fn finalized(&mut self, application: &A, batch: UpdateBatch<A::Request>, checkpoint: bool) -> (actions: Vec<WorkerAction<A::Request, A::Reply>>)
        requires
            old(self).pstate().wf(),
            old(self).pstate().sound(*application),
        ensures
            final(self).pstate().wf(),
            final(self).pstate().sound(*application),
            final(self).mode() == old(self).mode(),
            old(self).finalized_effect(*final(self), *application, batch, checkpoint, actions@),
    {
        let seq = batch.seq;
        let mut actions: Vec<WorkerAction<A::Request, A::Reply>> = Vec::new();
        match self.state.handle_confirmed_update(application, batch) {
            Ok(replies) => {
                actions.push(WorkerAction::Deliver(Some(seq), replies));
                if checkpoint {
                    actions.push(WorkerAction::Checkpoint(seq));
                }
            },
            Err(e) => {
                actions.push(WorkerAction::ConfirmFailed(e));
                assert(actions@ =~= seq![WorkerAction::<A::Request, A::Reply>::ConfirmFailed(e)]);
            },
        }
        actions
    }

    fn confirmed(&mut self, application: &A, seq: SeqNo, checkpoint: bool) -> (actions: Vec<WorkerAction<A::Request, A::Reply>>)
        requires
            old(self).pstate().wf(),
            old(self).pstate().sound(*application),
        ensures
            final(self).pstate().wf(),
            final(self).pstate().sound(*application),
            final(self).mode() == old(self).mode(),
            old(self).confirm_effect(*final(self), *application, seq, checkpoint, actions@),
    {
        let mut actions: Vec<WorkerAction<A::Request, A::Reply>> = Vec::new();
        match self.state.handle_update_confirmed(application, seq) {
            Ok(replies) => {
                actions.push(WorkerAction::Deliver(Some(seq), replies));
                if checkpoint {
                    actions.push(WorkerAction::Checkpoint(seq));
                }
            },
            Err(e) => {
                actions.push(WorkerAction::ConfirmFailed(e));
                assert(actions@ =~= seq![WorkerAction::<A::Request, A::Reply>::ConfirmFailed(e)]);
            },
        }
        actions
    }

    fn catch_up(&mut self, application: &A, batches: Vec<UpdateBatch<A::Request>>) -> (actions: Vec<WorkerAction<A::Request, A::Reply>>)
        requires
            old(self).pstate().wf(),
        ensures
            final(self).pstate().wf(),
            final(self).pstate().sound(*application),
            final(self).mode() == old(self).mode(),
            old(self).catch_up_effect(*final(self), *application, batches@, actions@),
    {
        let ghost bs = batches@;
        let mut results = self.state.handle_catch_up(application, batches);
        let ghost res = results@;
        let n = results.len();
        let mut reversed: Vec<(SeqNo, ReplyBatch<A::Reply>)> = Vec::new();
        while results.len() > 0
            invariant
                results@.len() + reversed@.len() == n,
                res.len() == n,
                results@ == res.take(results@.len() as int),
                forall|j: int| 0 <= j < reversed@.len() ==> #[trigger] reversed@[j] == res[n - 1 - j],
            decreases results@.len(),
        {
            let item = results.pop().unwrap();
            reversed.push(item);
        }
        let mut actions: Vec<WorkerAction<A::Request, A::Reply>> = Vec::new();
        while reversed.len() > 0
            invariant
                reversed@.len() + actions@.len() == n,
                res.len() == n,
                forall|j: int| 0 <= j < reversed@.len() ==> #[trigger] reversed@[j] == res[n - 1 - j],
                forall|j: int|
                    0 <= j < actions@.len() ==> #[trigger] actions@[j] == WorkerAction::<
                        A::Request,
                        A::Reply,
                    >::Deliver(Some(res[j].0), res[j].1),
            decreases reversed@.len(),
        {
            let (seq, replies) = reversed.pop().unwrap();
            actions.push(WorkerAction::Deliver(Some(seq), replies));
        }
        actions
    }

    /// Handles one execution request in normal mode and says what the caller must carry
    /// out, in order.
    pub fn handle_request(&mut self, application: &A, request: PreemptiveExecutionRequest<A::Request>) -> (actions: Vec<WorkerAction<A::Request, A::Reply>>)
        requires
            old(self).pstate().wf(),
            old(self).pstate().sound(*application),
        ensures
            final(self).pstate().wf(),
            final(self).pstate().sound(*application),
            request is PollStateChannel ==> final(self).mode() == RunMode::StateTransfer
                && final(self).pstate() == old(self).pstate() && actions@.len() == 0,
            !(request is PollStateChannel) ==> final(self).mode() == old(self).mode(),
            request matches PreemptiveExecutionRequest::CatchUp(bs) ==> old(self).catch_up_effect(
                *final(self),
                *application,
                bs@,
                actions@,
            ),
            request matches PreemptiveExecutionRequest::UpdateBatch(b) ==> old(self).finalized_effect(
                *final(self),
                *application,
                b,
                false,
                actions@,
            ),
            request matches PreemptiveExecutionRequest::UpdateBatchAndGetAppstate(b) ==> old(
                self,
            ).finalized_effect(*final(self), *application, b, true, actions@),
            request matches PreemptiveExecutionRequest::PreemptiveUpdate(b) ==> old(
                self,
            ).preemptive_effect(*final(self), b, actions@),
            request matches PreemptiveExecutionRequest::PreemptiveUpdateFinalized(seq) ==> old(
                self,
            ).confirm_effect(*final(self), *application, seq, false, actions@),
            request matches PreemptiveExecutionRequest::PreemptiveUpdateFinalizedAndGetAppstate(seq)
                ==> old(self).confirm_effect(*final(self), *application, seq, true, actions@),
            request matches PreemptiveExecutionRequest::ExecuteUnordered(u) ==> {
                &&& final(self).pstate() == old(self).pstate()
                &&& actions@.len() == 1
                &&& actions@[0] matches WorkerAction::Deliver(None, r) && r.views() == unordered_replies(
                    *application,
                    old(self).pstate().confirmed()@,
                    u.updates@,
                )
            },
    {
        match request {
            PreemptiveExecutionRequest::PollStateChannel => {
                self.run_mode = RunMode::StateTransfer;
                Vec::new()
            },
            PreemptiveExecutionRequest::CatchUp(batches) => self.catch_up(application, batches),
            PreemptiveExecutionRequest::UpdateBatch(batch) => self.finalized(application, batch, false),
            PreemptiveExecutionRequest::UpdateBatchAndGetAppstate(batch) => self.finalized(
                application,
                batch,
                true,
            ),
            PreemptiveExecutionRequest::PreemptiveUpdate(batch) => self.handle_preemptive_update(
                application,
                batch,
            ),
            PreemptiveExecutionRequest::PreemptiveUpdateFinalized(seq) => self.confirmed(
                application,
                seq,
                false,
            ),
            PreemptiveExecutionRequest::PreemptiveUpdateFinalizedAndGetAppstate(seq) => self.confirmed(
                application,
                seq,
                true,
            ),
            PreemptiveExecutionRequest::ExecuteUnordered(batch) => {
                let replies = self.execute_unordered(application, batch);
                let mut actions: Vec<WorkerAction<A::Request, A::Reply>> = Vec::new();
                actions.push(WorkerAction::Deliver(None, replies));
                actions
            },
        }
    }
}

} // verus!
