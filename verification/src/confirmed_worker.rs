use crate::application::{run_updates, Application};
use crate::batch::{ReplyBatch, UpdateBatch};
use crate::confirmed_requests::{unordered_replies, ConfirmedRequestPipeline};
use crate::dual_state::ConfirmedUpdateMessage;
use crate::exec_handle::RunMode;
use crate::pending_state::{chain_set, lemma_chain_set_step, lemma_chain_set_zero, seq_chain};
use crate::preemptive_requests::apply_batches;
use crate::seq_no::{next_raw, SeqNo};
use rayon::ThreadPool;
use std::collections::BTreeMap;
use vstd::prelude::*;

verus! {

/// A confirmed batch waiting for its turn, possibly with a request for a snapshot of the
/// state once it is applied.
#[derive(Debug)]
pub enum QueuedUpdate<R> {
    Update(UpdateBatch<R>),
    UpdateAndGetState(UpdateBatch<R>),
}

impl<R> QueuedUpdate<R> {
    /// The batch waiting.
    pub open spec fn batch(self) -> UpdateBatch<R> {
        match self {
            QueuedUpdate::Update(b) => b,
            QueuedUpdate::UpdateAndGetState(b) => b,
        }
    }

    /// The sequence number of the batch waiting.
    pub fn sequence_number(&self) -> (s: SeqNo)
        ensures
            s == self.batch().seq,
    {
        match self {
            QueuedUpdate::Update(b) => b.seq,
            QueuedUpdate::UpdateAndGetState(b) => b.seq,
        }
    }
}

/// A message from the worker that speculates to the worker that keeps the confirmed state.
#[derive(Debug)]
pub enum PreemptiveToConfirmedMsg<R> {
    /// A speculated batch was confirmed: apply it.
    UpdateConfirmed(UpdateBatch<R>),
    /// As `UpdateConfirmed`, with a snapshot of the state afterwards.
    UpdateConfirmedEmitAppState(UpdateBatch<R>),
    /// Send a copy of the confirmed state back.
    RequestStateCopy,
}

/// What the worker that keeps the confirmed state hands back, for its caller to carry out
/// in order.
#[derive(Debug)]
pub enum ConfirmedWorkerAction<P, S> {
    /// Deliver the replies of the batch at `Some(seq)`, or of unordered operations (`None`).
    Deliver(Option<SeqNo>, ReplyBatch<P>),
    /// Send a snapshot of the state, taken right after the batch at this sequence number, to
    /// state transfer.
    EmitAppState(SeqNo, S),
    /// Send a copy of the state at this sequence number to the worker that speculates.
    SendStateCopy(SeqNo, S),
    /// A confirmed batch behind the queue's head was refused.
    QueueRefused(SeqNo),
}

/// The batches found in `queue` at the `n` sequence numbers from `start` on.
pub open spec fn queued_chain<R>(queue: Map<u32, QueuedUpdate<R>>, start: u32, n: nat) -> Seq<UpdateBatch<R>> {
    Seq::new(n, |m: int| queue[seq_chain(start, m as nat)].batch())
}

/// The snapshots owed after applying, to a state whose view is `s0`, the first `d` batches
/// waiting in `queue` from `start` on: for each batch that asked for one, in order, its
/// sequence number and the state right after it.
pub open spec fn snapshots<S: View, A: Application<S>>(
    app: A,
    s0: S::V,
    queue: Map<u32, QueuedUpdate<A::Request>>,
    start: u32,
    d: nat,
) -> Seq<(u32, S::V)>
    decreases d,
{
    if d == 0 {
        Seq::empty()
    } else {
        let earlier = snapshots::<S, A>(app, s0, queue, start, (d - 1) as nat);
        let k = seq_chain(start, (d - 1) as nat);
        if queue[k] is UpdateAndGetState {
            earlier.push((k, apply_batches(app, s0, queued_chain(queue, start, d))))
        } else {
            earlier
        }
    }
}

/// `action` hands out the snapshot `snap`: its sequence number, and a copy of a state with
/// that view.
pub open spec fn emits<P, S: View + Clone>(action: ConfirmedWorkerAction<P, S>, snap: (u32, S::V)) -> bool {
    &&& action matches ConfirmedWorkerAction::EmitAppState(seq, copy)
    &&& action->EmitAppState_0.value == snap.0
    &&& exists|x: S| x@ == snap.1 && #[trigger] cloned::<S>(x, action->EmitAppState_1)
}

/// The worker that keeps the authoritative copy of the state: confirmed batches wait in a
/// queue keyed by sequence number and are applied strictly in order from `next_update`.
pub struct ConfirmedUpdateExecutor<S: View, A: Application<S>> {
    confirmed_state: ConfirmedRequestPipeline<S>,
    update_queue: BTreeMap<u32, QueuedUpdate<A::Request>>,
    next_update: SeqNo,
    read_thread_pool: ThreadPool,
    run_mode: RunMode,
    awaiting_first: bool,
}

impl<S: View, A: Application<S>> ConfirmedUpdateExecutor<S, A> {
    /// The confirmed state and its sequence number.
    pub closed spec fn pipeline(&self) -> ConfirmedRequestPipeline<S> {
        self.confirmed_state
    }

    /// The waiting batches, by sequence number.
    pub closed spec fn queue(&self) -> Map<u32, QueuedUpdate<A::Request>> {
        self.update_queue@
    }

    /// The sequence number of the next batch to apply.
    pub closed spec fn next_update_value(&self) -> u32 {
        self.next_update.value
    }

    /// The current run mode.
    pub closed spec fn mode(&self) -> RunMode {
        self.run_mode
    }

    /// Whether no batch has been applied since the worker was created: the first batch may
    /// then carry the state's own sequence number, which it takes over.
    pub closed spec fn fresh(&self) -> bool {
        self.awaiting_first
    }

    /// Whether a confirmed batch at `seq` is the first one of a fresh worker, carrying the
    /// state's own sequence number: the queue then restarts at it.
    pub open spec fn adopts(&self, seq: u32) -> bool {
        self.fresh() && seq == self.pipeline().seq() && seq < self.next_update_value()
    }

    /// Whether a confirmed batch at `seq` is queued: it is not behind the next batch to
    /// apply, or it is adopted as the first one.
    pub open spec fn admits(&self, seq: u32) -> bool {
        seq >= self.next_update_value() || self.adopts(seq)
    }

    /// Each waiting batch is keyed by its own sequence number; a fresh worker expects the
    /// batch after its state.
    pub closed spec fn wf(&self) -> bool {
        &&& forall|k: u32| #[trigger] self.update_queue@.contains_key(k) ==> self.update_queue@[k].batch().seq.value == k
        &&& self.awaiting_first ==> self.next_update.value == next_raw(self.confirmed_state.seq())
    }

    /// A worker in normal mode whose state `state` is at `seq`, expecting the batch after it.
    pub fn new(seq: SeqNo, state: S, read_thread_pool: ThreadPool) -> (w: Self)
        ensures
            w.wf(),
            w.pipeline().seq() == seq.value,
            w.pipeline().state() == state,
            w.queue() == Map::<u32, QueuedUpdate<A::Request>>::empty(),
            w.next_update_value() == next_raw(seq.value),
            w.mode() == RunMode::Normal,
            w.fresh(),
    {
        ConfirmedUpdateExecutor {
            confirmed_state: ConfirmedRequestPipeline::new(seq, state),
            update_queue: BTreeMap::new(),
            next_update: seq.next(),
            read_thread_pool,
            run_mode: RunMode::Normal,
            awaiting_first: true,
        }
    }

    /// The current run mode.
    pub fn run_mode(&self) -> (m: RunMode)
        ensures
            m == self.mode(),
    {
        self.run_mode
    }

    /// The confirmed state and its sequence number.
    pub fn confirmed(&self) -> (p: &ConfirmedRequestPipeline<S>)
        ensures
            *p == self.pipeline(),
    {
        &self.confirmed_state
    }

    /// The number of batches waiting.
    pub fn queued_count(&self) -> (n: usize)
        ensures
            n == self.queue().len(),
    {
        self.update_queue.len()
    }

    /// Queues a confirmed batch; refused when it is behind the next batch to apply, unless
    /// it is the first batch of a fresh worker at the state's own sequence number, from which
    /// the queue then restarts (so that numbering from zero or from one both work).
    pub fn queue_update(&mut self, item: QueuedUpdate<A::Request>) -> (accepted: bool)
        requires
            old(self).wf(),
        ensures
            final(self).wf(),
            accepted == old(self).admits(item.batch().seq.value),
            accepted ==> final(self).queue() == old(self).queue().insert(item.batch().seq.value, item),
            !accepted ==> final(self).queue() == old(self).queue(),
            final(self).pipeline() == old(self).pipeline(),
            final(self).next_update_value() == if old(self).adopts(item.batch().seq.value) {
                item.batch().seq.value
            } else {
                old(self).next_update_value()
            },
            final(self).fresh() == (old(self).fresh() && !old(self).adopts(item.batch().seq.value)),
            final(self).mode() == old(self).mode(),
    {
        let seq = item.sequence_number();
        let first = self.awaiting_first && seq.value == self.confirmed_state.sequence_number().value
            && seq.value < self.next_update.value;
        if seq.value < self.next_update.value && !first {
            return false;
        }
        if first {
            self.next_update = seq;
            self.awaiting_first = false;
        }
        self.update_queue.insert(seq.value, item);
        true
    }

    /// Installs a state received by state transfer at `seq`: the queue restarts after it
    /// and the worker returns to normal mode.
    pub fn install_state(&mut self, seq: SeqNo, state: S)
        ensures
            final(self).wf(),
            final(self).pipeline().seq() == seq.value,
            final(self).pipeline().state() == state,
            final(self).queue() == Map::<u32, QueuedUpdate<A::Request>>::empty(),
            final(self).next_update_value() == next_raw(seq.value),
            final(self).mode() == RunMode::Normal,
            !final(self).fresh(),
    {
        self.confirmed_state.install_state_message(seq, state);
        self.update_queue.clear();
        self.next_update = seq.next();
        self.run_mode = RunMode::Normal;
        self.awaiting_first = false;
    }
}

impl<S: View + Clone, A: Application<S>> ConfirmedUpdateExecutor<S, A> {
    /// Applies the waiting batches that continue the sequence, in order, until the next one
    /// is missing; a snapshot of the state follows each batch that asked for one. Returns
    /// the snapshots to emit.
    pub fn execute_updates(&mut self, application: &A) -> (actions: Vec<ConfirmedWorkerAction<A::Reply, S>>)
        requires
            old(self).wf(),
        ensures
            final(self).wf(),
            final(self).mode() == old(self).mode(),
            exists|d: nat|
                {
                    &&& final(self).next_update_value() == seq_chain(old(self).next_update_value(), d)
                    &&& forall|m: nat|
                        m < d ==> old(self).queue().contains_key(
                            #[trigger] seq_chain(old(self).next_update_value(), m),
                        )
                    &&& final(self).queue() == old(self).queue().remove_keys(
                        chain_set(old(self).next_update_value(), d),
                    )
                    &&& final(self).pipeline().state()@ == apply_batches(
                        *application,
                        old(self).pipeline().state()@,
                        #[trigger] queued_chain(old(self).queue(), old(self).next_update_value(), d),
                    )
                    &&& d > 0 ==> final(self).pipeline().seq() == seq_chain(
                        old(self).next_update_value(),
                        (d - 1) as nat,
                    )
                    &&& d == 0 ==> final(self).pipeline() == old(self).pipeline()
                    &&& d > 0 ==> !final(self).fresh()
                    &&& d == 0 ==> final(self).fresh() == old(self).fresh()
                    &&& actions@.len() == snapshots::<S, A>(
                        *application,
                        old(self).pipeline().state()@,
                        old(self).queue(),
                        old(self).next_update_value(),
                        d,
                    ).len()
                    &&& forall|i: int|
                        0 <= i < actions@.len() ==> emits(
                            #[trigger] actions@[i],
                            snapshots::<S, A>(
                                *application,
                                old(self).pipeline().state()@,
                                old(self).queue(),
                                old(self).next_update_value(),
                                d,
                            )[i],
                        )
                },
            !final(self).queue().contains_key(final(self).next_update_value()),
    {
        let ghost start = self.next_update.value;
        let ghost q0 = self.update_queue@;
        let ghost s0 = self.confirmed_state.state()@;
        let ghost p0 = self.confirmed_state;
        let mut actions: Vec<ConfirmedWorkerAction<A::Reply, S>> = Vec::new();
        let mut done: usize = 0;
        let n0 = self.update_queue.len();
        proof {
            lemma_chain_set_zero(start);
            assert(q0.remove_keys(Set::<u32>::empty()) =~= q0);
            assert(queued_chain(q0, start, 0) =~= Seq::<UpdateBatch<A::Request>>::empty());
        }
        loop
            invariant_except_break
                self.wf(),
                self.mode() == old(self).mode(),
                self.next_update.value == seq_chain(start, done as nat),
                forall|m: nat| m < done ==> q0.contains_key(#[trigger] seq_chain(start, m)),
                self.update_queue@ == q0.remove_keys(chain_set(start, done as nat)),
                self.confirmed_state.state()@ == apply_batches(*application, s0, queued_chain(q0, start, done as nat)),
                done > 0 ==> self.confirmed_state.seq() == seq_chain(start, (done - 1) as nat),
                done == 0 ==> self.confirmed_state == p0,
                done > 0 ==> !self.awaiting_first,
                done == 0 ==> self.awaiting_first == old(self).fresh(),
                done + self.update_queue@.len() == n0,
                q0.len() == n0,
                q0.dom().finite(),
                start == old(self).next_update_value(),
                q0 == old(self).queue(),
                forall|k: u32| #[trigger] q0.contains_key(k) ==> q0[k].batch().seq.value == k,
                s0 == old(self).pipeline().state()@,
                p0 == old(self).pipeline(),
                actions@.len() == snapshots::<S, A>(*application, s0, q0, start, done as nat).len(),
                forall|i: int|
                    0 <= i < actions@.len() ==> emits(
                        #[trigger] actions@[i],
                        snapshots::<S, A>(*application, s0, q0, start, done as nat)[i],
                    ),
            ensures
                self.wf(),
                self.mode() == old(self).mode(),
                self.next_update.value == seq_chain(start, done as nat),
                forall|m: nat| m < done ==> q0.contains_key(#[trigger] seq_chain(start, m)),
                self.update_queue@ == q0.remove_keys(chain_set(start, done as nat)),
                self.confirmed_state.state()@ == apply_batches(*application, s0, queued_chain(q0, start, done as nat)),
                done > 0 ==> self.confirmed_state.seq() == seq_chain(start, (done - 1) as nat),
                done == 0 ==> self.confirmed_state == p0,
                done > 0 ==> !self.awaiting_first,
                done == 0 ==> self.awaiting_first == old(self).fresh(),
                !self.update_queue@.contains_key(self.next_update.value),
                actions@.len() == snapshots::<S, A>(*application, s0, q0, start, done as nat).len(),
                forall|i: int|
                    0 <= i < actions@.len() ==> emits(
                        #[trigger] actions@[i],
                        snapshots::<S, A>(*application, s0, q0, start, done as nat)[i],
                    ),
            decreases self.update_queue@.len(),
        {
            let key = self.next_update.value;
            let ghost pre = self.update_queue@;
            match self.update_queue.remove(&key) {
                Some(item) => {
                    proof {
                        assert(pre.contains_key(key));
                        assert(q0.contains_key(key));
                        assert(q0[key] == item);
                    }
                    let (batch, emit) = match item {
                        QueuedUpdate::Update(b) => (b, false),
                        QueuedUpdate::UpdateAndGetState(b) => (b, true),
                    };
                    let ghost before = self.confirmed_state.state()@;
                    let ghost earlier = actions@;
                    self.awaiting_first = false;
                    let _ = self.confirmed_state.execute_update(application, batch);
                    self.next_update = self.next_update.next();
                    let ghost after = self.confirmed_state.state();
                    if emit {
                        let (seq, state) = self.confirmed_state.take_state_snapshot();
                        actions.push(ConfirmedWorkerAction::EmitAppState(seq, state));
                        proof {
                            assert(cloned::<S>(after, state));
                        }
                    }
                    proof {
                        lemma_chain_set_step(start, done as nat);
                        assert(self.update_queue@ =~= q0.remove_keys(chain_set(start, (done + 1) as nat)));
                        let qc = queued_chain(q0, start, (done + 1) as nat);
                        assert(qc.drop_last() =~= queued_chain(q0, start, done as nat));
                        assert(qc.last() == batch);
                        assert forall|m: nat| m < done + 1 implies q0.contains_key(
                            #[trigger] seq_chain(start, m),
                        ) by {
                            if m == done {
                                assert(seq_chain(start, m) == key);
                            }
                        }
                        assert(seq_chain(start, (done + 1) as nat) == next_raw(seq_chain(start, done as nat)));
                    }
                    proof {
                        let snaps0 = snapshots::<S, A>(*application, s0, q0, start, done as nat);
                        let snaps1 = snapshots::<S, A>(*application, s0, q0, start, (done + 1) as nat);
                        assert(seq_chain(start, done as nat) == key);
                        if emit {
                            assert(snaps1 == snaps0.push((key, apply_batches(*application, s0, queued_chain(q0, start, (done + 1) as nat)))));
                        } else {
                            assert(snaps1 == snaps0);
                        }
                        assert forall|i: int| 0 <= i < actions@.len() implies emits(
                            #[trigger] actions@[i],
                            snaps1[i],
                        ) by {
                            if i < earlier.len() {
                                assert(actions@[i] == earlier[i]);
                                assert(snaps1[i] == snaps0[i]);
                            } else {
                                assert(q0[key].batch().seq.value == key);
                                assert(after@ == snaps1[i].1);
                                assert(cloned::<S>(after, actions@[i]->EmitAppState_1));
                            }
                        }
                    }
                    done = done + 1;
                },
                None => {
                    proof {
                        assert(self.update_queue@ =~= pre);
                    }
                    break ;
                },
            }
        }
        proof {
            let d = done as nat;
            assert(queued_chain(old(self).queue(), old(self).next_update_value(), d) == queued_chain(q0, start, d));
            assert(self.pipeline().state()@ == apply_batches(
                *application,
                old(self).pipeline().state()@,
                queued_chain(old(self).queue(), old(self).next_update_value(), d),
            ));
        }
        actions
    }
}

impl<S: View + Clone, A: Application<S>> ConfirmedUpdateExecutor<S, A> {
    /// Handles a message from the worker that speculates: a confirmed batch is queued (or
    /// refused when behind the queue's head), a request for a copy of the state is answered.
    pub fn handle_preemptive_msg(&mut self, message: PreemptiveToConfirmedMsg<A::Request>) -> (actions: Vec<ConfirmedWorkerAction<A::Reply, S>>)
        requires
            old(self).wf(),
        ensures
            final(self).wf(),
            final(self).pipeline() == old(self).pipeline(),
            final(self).mode() == old(self).mode(),
            message matches PreemptiveToConfirmedMsg::UpdateConfirmed(b) ==> {
                &&& old(self).admits(b.seq.value) ==> final(self).queue() == old(self).queue().insert(
                    b.seq.value,
                    QueuedUpdate::Update(b),
                ) && actions@.len() == 0
                &&& !old(self).admits(b.seq.value) ==> final(self).queue() == old(self).queue()
                    && actions@ == seq![ConfirmedWorkerAction::<A::Reply, S>::QueueRefused(b.seq)]
                &&& final(self).next_update_value() == if old(self).adopts(b.seq.value) {
                    b.seq.value
                } else {
                    old(self).next_update_value()
                }
            },
            message matches PreemptiveToConfirmedMsg::UpdateConfirmedEmitAppState(b) ==> {
                &&& old(self).admits(b.seq.value) ==> final(self).queue() == old(self).queue().insert(
                    b.seq.value,
                    QueuedUpdate::UpdateAndGetState(b),
                ) && actions@.len() == 0
                &&& !old(self).admits(b.seq.value) ==> final(self).queue() == old(self).queue()
                    && actions@ == seq![ConfirmedWorkerAction::<A::Reply, S>::QueueRefused(b.seq)]
                &&& final(self).next_update_value() == if old(self).adopts(b.seq.value) {
                    b.seq.value
                } else {
                    old(self).next_update_value()
                }
            },
            message is RequestStateCopy ==> {
                &&& final(self).next_update_value() == old(self).next_update_value()
                &&& final(self).queue() == old(self).queue()
                &&& actions@.len() == 1
                &&& actions@[0] matches ConfirmedWorkerAction::SendStateCopy(seq, state) && seq.value
                    == old(self).pipeline().seq() && cloned::<S>(old(self).pipeline().state(), state)
            },
    {
        let mut actions: Vec<ConfirmedWorkerAction<A::Reply, S>> = Vec::new();
        match message {
            PreemptiveToConfirmedMsg::UpdateConfirmed(batch) => {
                let seq = batch.seq;
                if !self.queue_update(QueuedUpdate::Update(batch)) {
                    actions.push(ConfirmedWorkerAction::QueueRefused(seq));
                    assert(actions@ =~= seq![ConfirmedWorkerAction::<A::Reply, S>::QueueRefused(seq)]);
                }
            },
            PreemptiveToConfirmedMsg::UpdateConfirmedEmitAppState(batch) => {
                let seq = batch.seq;
                if !self.queue_update(QueuedUpdate::UpdateAndGetState(batch)) {
                    actions.push(ConfirmedWorkerAction::QueueRefused(seq));
                    assert(actions@ =~= seq![ConfirmedWorkerAction::<A::Reply, S>::QueueRefused(seq)]);
                }
            },
            PreemptiveToConfirmedMsg::RequestStateCopy => {
                let (seq, state) = self.confirmed_state.take_state_snapshot();
                actions.push(ConfirmedWorkerAction::SendStateCopy(seq, state));
            },
        }
        actions
    }

    /// Drops the waiting batches below the next batch to apply.
    fn drop_queued_below_next(&mut self)
        requires
            old(self).wf(),
        ensures
            final(self).wf(),
            final(self).queue() == old(self).queue().restrict(
                Set::new(|k: u32| k >= old(self).next_update_value()),
            ),
            final(self).pipeline() == old(self).pipeline(),
            final(self).next_update_value() == old(self).next_update_value(),
            final(self).mode() == old(self).mode(),
            final(self).fresh() == old(self).fresh(),
    {
        let limit = self.next_update.value;
        let mut doomed: Vec<u32> = Vec::new();
        for key in it: self.update_queue.keys()
            invariant
                forall|j: int| 0 <= j < doomed@.len() ==> doomed@[j] < limit,
                forall|j: int|
                    0 <= j < it.index() && *it.seq()[j] < limit ==> doomed@.contains(*it.seq()[j]),
        {
            let ghost old_doomed = doomed@;
            if *key < limit {
                doomed.push(*key);
            }
            proof {
                assert forall|x: u32| old_doomed.contains(x) implies doomed@.contains(x) by {
                    let m = choose|m: int| 0 <= m < old_doomed.len() && old_doomed[m] == x;
                    assert(doomed@[m] == x);
                }
                if *key < limit {
                    assert(doomed@[doomed@.len() - 1] == *key);
                }
            }
        }
        let ghost q0 = self.update_queue@;
        let mut i: usize = 0;
        while i < doomed.len()
            invariant
                0 <= i <= doomed@.len(),
                self.update_queue@ == q0.remove_keys(doomed@.take(i as int).to_set()),
                self.confirmed_state == old(self).confirmed_state,
                self.next_update == old(self).next_update,
                self.run_mode == old(self).run_mode,
                self.awaiting_first == old(self).awaiting_first,
                forall|k: u32| #[trigger] q0.contains_key(k) ==> q0[k].batch().seq.value == k,
            decreases doomed@.len() - i,
        {
            self.update_queue.remove(&doomed[i]);
            proof {
                let t1 = doomed@.take(i + 1);
                let t0 = doomed@.take(i as int);
                assert forall|x: u32| t1.contains(x) implies t0.to_set().insert(doomed@[i as int]).contains(x) by {
                    let m = choose|m: int| 0 <= m < t1.len() && t1[m] == x;
                    if m < i {
                        assert(t0[m] == x);
                    }
                }
                assert forall|x: u32| t0.to_set().insert(doomed@[i as int]).contains(x) implies t1.contains(x) by {
                    if x == doomed@[i as int] {
                        assert(t1[i as int] == x);
                    } else {
                        let m = choose|m: int| 0 <= m < t0.len() && t0[m] == x;
                        assert(t1[m] == x);
                    }
                }
                assert(t1.to_set() =~= t0.to_set().insert(doomed@[i as int]));
                assert(self.update_queue@ =~= q0.remove_keys(doomed@.take(i + 1).to_set()));
            }
            i = i + 1;
        }
        proof {
            assert(doomed@.take(doomed@.len() as int) =~= doomed@);
            assert(self.update_queue@ =~= q0.restrict(Set::new(|k: u32| k >= limit)));
        }
    }

    /// Applies catch-up batches in order, delivering each one's replies, then moves the
    /// queue's head to just after the last one applied.
    pub fn handle_catch_up(&mut self, application: &A, batches: Vec<UpdateBatch<A::Request>>) -> (actions: Vec<ConfirmedWorkerAction<A::Reply, S>>)
        requires
            old(self).wf(),
        ensures
            final(self).wf(),
            final(self).mode() == old(self).mode(),
            final(self).pipeline().state()@ == apply_batches(
                *application,
                old(self).pipeline().state()@,
                batches@,
            ),
            batches@.len() > 0 ==> final(self).pipeline().seq() == batches@.last().seq.value,
            batches@.len() == 0 ==> final(self).pipeline() == old(self).pipeline(),
            final(self).next_update_value() == next_raw(final(self).pipeline().seq()),
            final(self).queue() == old(self).queue().restrict(
                Set::new(|k: u32| k >= final(self).next_update_value()),
            ),
            actions@.len() == batches@.len(),
            forall|i: int|
                0 <= i < batches@.len() ==> (#[trigger] actions@[i] matches ConfirmedWorkerAction::Deliver(
                    Some(s),
                    r,
                ) && s == batches@[i].seq && r.views() == run_updates(
                    *application,
                    apply_batches(*application, old(self).pipeline().state()@, batches@.take(i)),
                    batches@[i].updates@,
                ).1),
            !final(self).fresh(),
    {
        self.awaiting_first = false;
        let ghost bs = batches@;
        let ghost s0 = self.confirmed_state.state()@;
        let n = batches.len();
        let mut batches = batches;
        let mut reversed: Vec<UpdateBatch<A::Request>> = Vec::new();
        while batches.len() > 0
            invariant
                batches@.len() + reversed@.len() == n,
                bs.len() == n,
                batches@ == bs.take(batches@.len() as int),
                forall|j: int| 0 <= j < reversed@.len() ==> #[trigger] reversed@[j] == bs[n - 1 - j],
            decreases batches@.len(),
        {
            let b = batches.pop().unwrap();
            reversed.push(b);
        }
        let mut actions: Vec<ConfirmedWorkerAction<A::Reply, S>> = Vec::new();
        proof {
            assert(bs.take(0) =~= Seq::<UpdateBatch<A::Request>>::empty());
        }
        while reversed.len() > 0
            invariant
                reversed@.len() + actions@.len() == n,
                bs.len() == n,
                forall|j: int| 0 <= j < reversed@.len() ==> #[trigger] reversed@[j] == bs[n - 1 - j],
                self.wf(),
                self.mode() == old(self).mode(),
                self.update_queue@ == old(self).queue(),
                self.next_update == old(self).next_update,
                !self.awaiting_first,
                s0 == old(self).pipeline().state()@,
                self.confirmed_state.state()@ == apply_batches(*application, s0, bs.take(actions@.len() as int)),
                actions@.len() > 0 ==> self.confirmed_state.seq() == bs[actions@.len() - 1].seq.value,
                actions@.len() == 0 ==> self.confirmed_state == old(self).pipeline(),
                forall|i: int|
                    0 <= i < actions@.len() ==> (#[trigger] actions@[i] matches ConfirmedWorkerAction::Deliver(
                        Some(s),
                        r,
                    ) && s == bs[i].seq && r.views() == run_updates(
                        *application,
                        apply_batches(*application, s0, bs.take(i)),
                        bs[i].updates@,
                    ).1),
            decreases reversed@.len(),
        {
            let ghost i = actions@.len() as int;
            let batch = reversed.pop().unwrap();
            let seq = batch.seq;
            let replies = self.confirmed_state.execute_update(application, batch);
            actions.push(ConfirmedWorkerAction::Deliver(Some(seq), replies));
            proof {
                assert(bs.take(i + 1).drop_last() =~= bs.take(i));
                assert(bs.take(i + 1).last() == bs[i]);
            }
        }
        self.next_update = self.confirmed_state.sequence_number().next();
        self.drop_queued_below_next();
        proof {
            assert(bs.take(n as int) =~= bs);
            if n > 0 {
                assert(bs.last() == bs[n - 1]);
            }
        }
        actions
    }
}

impl<S: View + Clone + Sync, A: Application<S> + Sync> ConfirmedUpdateExecutor<S, A> where
    A::Request: Sync,
    A::Reply: Send,
 {
    /// Handles one work message in normal mode and says what the caller must carry out, in
    /// order: catch-up batches are applied at once, finalized batches are queued, unordered
    /// operations are answered on the confirmed state, and a state from state transfer puts
    /// the worker in the mode that waits for it.
    pub fn handle_work_message(&mut self, application: &A, message: ConfirmedUpdateMessage<A::Request>) -> (actions: Vec<ConfirmedWorkerAction<A::Reply, S>>)
        requires
            old(self).wf(),
        ensures
            final(self).wf(),
            message is StateTransferAvailable ==> final(self).mode() == RunMode::StateTransfer
                && final(self).pipeline() == old(self).pipeline() && final(self).queue() == old(
                self,
            ).queue() && actions@.len() == 0,
            !(message is StateTransferAvailable) ==> final(self).mode() == old(self).mode(),
            message matches ConfirmedUpdateMessage::CatchUp(bs) ==> {
                &&& final(self).pipeline().state()@ == apply_batches(
                    *application,
                    old(self).pipeline().state()@,
                    bs@,
                )
                &&& bs@.len() > 0 ==> final(self).pipeline().seq() == bs@.last().seq.value
                &&& bs@.len() == 0 ==> final(self).pipeline() == old(self).pipeline()
                &&& final(self).next_update_value() == next_raw(final(self).pipeline().seq())
                &&& final(self).queue() == old(self).queue().restrict(
                    Set::new(|k: u32| k >= final(self).next_update_value()),
                )
                &&& actions@.len() == bs@.len()
                &&& forall|i: int|
                    0 <= i < bs@.len() ==> (#[trigger] actions@[i] matches ConfirmedWorkerAction::Deliver(
                        Some(s),
                        r,
                    ) && s == bs@[i].seq && r.views() == run_updates(
                        *application,
                        apply_batches(*application, old(self).pipeline().state()@, bs@.take(i)),
                        bs@[i].updates@,
                    ).1)
            },
            message matches ConfirmedUpdateMessage::UpdateBatch(b) ==> {
                &&& final(self).pipeline() == old(self).pipeline()
                &&& old(self).admits(b.seq.value) ==> final(self).queue() == old(self).queue().insert(
                    b.seq.value,
                    QueuedUpdate::Update(b),
                ) && actions@.len() == 0
                &&& !old(self).admits(b.seq.value) ==> final(self).queue() == old(self).queue()
                    && actions@ == seq![ConfirmedWorkerAction::<A::Reply, S>::QueueRefused(b.seq)]
                &&& final(self).next_update_value() == if old(self).adopts(b.seq.value) {
                    b.seq.value
                } else {
                    old(self).next_update_value()
                }
            },
            message matches ConfirmedUpdateMessage::UpdateFinalizedAndGetAppstateBatch(b) ==> {
                &&& final(self).pipeline() == old(self).pipeline()
                &&& old(self).admits(b.seq.value) ==> final(self).queue() == old(self).queue().insert(
                    b.seq.value,
                    QueuedUpdate::UpdateAndGetState(b),
                ) && actions@.len() == 0
                &&& !old(self).admits(b.seq.value) ==> final(self).queue() == old(self).queue()
                    && actions@ == seq![ConfirmedWorkerAction::<A::Reply, S>::QueueRefused(b.seq)]
                &&& final(self).next_update_value() == if old(self).adopts(b.seq.value) {
                    b.seq.value
                } else {
                    old(self).next_update_value()
                }
            },
            message matches ConfirmedUpdateMessage::ExecuteUnordered(u) ==> {
                &&& final(self).pipeline() == old(self).pipeline()
                &&& final(self).queue() == old(self).queue()
                &&& actions@.len() == 1
                &&& actions@[0] matches ConfirmedWorkerAction::Deliver(None, r) && r.views()
                    == unordered_replies(*application, old(self).pipeline().state()@, u.updates@)
            },
    {
        let mut actions: Vec<ConfirmedWorkerAction<A::Reply, S>> = Vec::new();
        match message {
            ConfirmedUpdateMessage::CatchUp(batches) => {
                actions = self.handle_catch_up(application, batches);
            },
            ConfirmedUpdateMessage::UpdateBatch(batch) => {
                let seq = batch.seq;
                if !self.queue_update(QueuedUpdate::Update(batch)) {
                    actions.push(ConfirmedWorkerAction::QueueRefused(seq));
                    assert(actions@ =~= seq![ConfirmedWorkerAction::<A::Reply, S>::QueueRefused(seq)]);
                }
            },
            ConfirmedUpdateMessage::UpdateFinalizedAndGetAppstateBatch(batch) => {
                let seq = batch.seq;
                if !self.queue_update(QueuedUpdate::UpdateAndGetState(batch)) {
                    actions.push(ConfirmedWorkerAction::QueueRefused(seq));
                    assert(actions@ =~= seq![ConfirmedWorkerAction::<A::Reply, S>::QueueRefused(seq)]);
                }
            },
            ConfirmedUpdateMessage::ExecuteUnordered(batch) => {
                let replies = self.confirmed_state.execute_read(application, batch, &self.read_thread_pool);
                actions.push(ConfirmedWorkerAction::Deliver(None, replies));
            },
            ConfirmedUpdateMessage::StateTransferAvailable => {
                self.run_mode = RunMode::StateTransfer;
            },
        }
        actions
    }
}

} // verus!
