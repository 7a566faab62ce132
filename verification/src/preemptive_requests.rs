use crate::application::{run_updates, Application};
use crate::batch::{ReplyBatch, UpdateBatch};
use crate::pending_state::seq_chain;
use crate::seq_no::{next_raw, prev_raw, SeqNo};
use std::collections::VecDeque;
use vstd::prelude::*;

verus! {

/// A batch executed on the speculative state, with its replies, awaiting confirmation.
#[derive(Debug)]
pub struct PendingPermanentUpdate<R, P> {
    pub batch: UpdateBatch<R>,
    pub replies: ReplyBatch<P>,
}

impl<R, P> PendingPermanentUpdate<R, P> {
    /// Pairs a batch with its replies.
    pub fn new(batch: UpdateBatch<R>, replies: ReplyBatch<P>) -> (u: Self)
        ensures
            u.batch == batch,
            u.replies == replies,
    {
        PendingPermanentUpdate { batch, replies }
    }

    /// The sequence number of the batch.
    pub fn sequence_number(&self) -> (s: SeqNo)
        ensures
            s == self.batch.seq,
    {
        self.batch.seq
    }

    /// Splits the update into its batch and replies.
    pub fn into_inner(self) -> (r: (UpdateBatch<R>, ReplyBatch<P>))
        ensures
            r.0 == self.batch,
            r.1 == self.replies,
    {
        (self.batch, self.replies)
    }
}

/// Why a speculative batch was refused.
#[derive(Debug)]
pub enum ExecuteUpdateError<R> {
    /// The batch is at or behind the speculative head: a new state is needed.
    Backtracking(SeqNo, UpdateBatch<R>),
    /// The batch is ahead of the speculative head (its sequence number, then the head's).
    FutureRequest(SeqNo, SeqNo),
}

/// A finalized batch arrived while speculative batches await confirmation.
#[derive(Debug, PartialEq, Eq, Structural)]
pub enum ConfirmedUpdateError {
    PendingPreemptiveUpdates { confirmed_update_seq: SeqNo, preemptive_seq: SeqNo, confirmed_seq: SeqNo },
}

/// A confirmation does not match the head of the pending queue.
#[derive(Debug, PartialEq, Eq, Structural)]
pub enum HandleUpdateConfirmedError {
    /// The head of the queue holds another sequence number.
    SeqMismatch { expected: SeqNo, received: SeqNo },
    /// The queue is empty.
    EmptyQueue { received: SeqNo },
}

/// A backtrack was refused or could not replay a kept batch.
#[derive(Debug, PartialEq, Eq, Structural)]
pub enum BacktrackError {
    /// The backtrack point is at or below the confirmed sequence number.
    BacktrackToConfirmedOrBelow { backtrack_seq: SeqNo, confirmed_seq: SeqNo },
    /// A kept batch was not next in sequence when replayed.
    ReExecutionFailed { seq: SeqNo },
}

/// The batches of a sequence of pending updates.
pub open spec fn permanent_batches<R, P>(p: Seq<PendingPermanentUpdate<R, P>>) -> Seq<UpdateBatch<R>> {
    p.map_values(|u: PendingPermanentUpdate<R, P>| u.batch)
}

/// The state after applying every batch of `bs` in order.
pub open spec fn apply_batches<S: View, A: Application<S>>(app: A, state: S::V, bs: Seq<UpdateBatch<A::Request>>) -> S::V
    decreases bs.len(),
{
    if bs.len() == 0 {
        state
    } else {
        run_updates(app, apply_batches(app, state, bs.drop_last()), bs.last().updates@).0
    }
}

/// The batches of `bs` whose sequence number lies strictly between `low` and `high`, in
/// order.
pub open spec fn keep_between<R>(bs: Seq<UpdateBatch<R>>, low: u32, high: u32) -> Seq<UpdateBatch<R>>
    decreases bs.len(),
{
    if bs.len() == 0 {
        Seq::empty()
    } else if low < bs.last().seq.value < high {
        keep_between(bs.drop_last(), low, high).push(bs.last())
    } else {
        keep_between(bs.drop_last(), low, high)
    }
}

/// Successor of a step of the chain is the next step.
pub proof fn lemma_chain_shift(start: u32, n: nat)
    ensures
        seq_chain(next_raw(start), n) == seq_chain(start, n + 1),
    decreases n,
{
    if n > 0 {
        lemma_chain_shift(start, (n - 1) as nat);
        assert(seq_chain(next_raw(start), n) == next_raw(seq_chain(next_raw(start), (n - 1) as nat)));
        assert(seq_chain(start, n + 1) == next_raw(seq_chain(start, n)));
    } else {
        assert(seq_chain(start, 0) == start);
        assert(seq_chain(start, 1) == next_raw(seq_chain(start, 0)));
        assert(seq_chain(next_raw(start), 0) == next_raw(start));
    }
}

/// Applying batches, split after the first one.
pub proof fn lemma_apply_batches_first<S: View, A: Application<S>>(app: A, v: S::V, bs: Seq<UpdateBatch<A::Request>>)
    requires
        bs.len() > 0,
    ensures
        apply_batches(app, v, bs) == apply_batches(app, run_updates(app, v, bs[0].updates@).0, bs.drop_first()),
    decreases bs.len(),
{
    let r0 = run_updates(app, v, bs[0].updates@).0;
    if bs.len() == 1 {
        assert(bs.drop_last() =~= Seq::<UpdateBatch<A::Request>>::empty());
        assert(bs.drop_first() =~= Seq::<UpdateBatch<A::Request>>::empty());
        assert(apply_batches(app, v, bs.drop_last()) == v);
        assert(apply_batches(app, r0, bs.drop_first()) == r0);
    } else {
        lemma_apply_batches_first(app, v, bs.drop_last());
        assert(bs.drop_last().drop_first() =~= bs.drop_first().drop_last());
        assert(bs.drop_first().last() == bs.last());
        assert(bs.drop_last()[0] == bs[0]);
        assert(apply_batches(app, r0, bs.drop_first()) == run_updates(
            app,
            apply_batches(app, r0, bs.drop_first().drop_last()),
            bs.drop_first().last().updates@,
        ).0);
    }
}

/// The speculative state is `base` with the pending batches applied in order, and each
/// pending batch's replies are what applying it at its turn produced.
pub open spec fn consistent_with<S: View, A: Application<S>>(
    app: A,
    base: S::V,
    state: S::V,
    pending: Seq<PendingPermanentUpdate<A::Request, A::Reply>>,
) -> bool {
    let bs = permanent_batches(pending);
    &&& state == apply_batches(app, base, bs)
    &&& forall|i: int|
        0 <= i < pending.len() ==> (#[trigger] pending[i]).replies.views() == run_updates(
            app,
            apply_batches(app, base, bs.take(i)),
            bs[i].updates@,
        ).1
}

/// Speculative execution over a full copy of the state.
///
/// The speculative state runs ahead of the confirmed sequence number; each batch applied
/// to it waits in a queue, with its replies, until its confirmation arrives.
pub struct PreemptiveState<S: View, A: Application<S>> {
    current_state_seq_no: SeqNo,
    current_confirmed_seq_no: SeqNo,
    preemptive_state: S,
    pending_permanent_update: VecDeque<PendingPermanentUpdate<A::Request, A::Reply>>,
    awaiting_first: bool,
}

impl<S: View, A: Application<S>> PreemptiveState<S, A> {
    /// The sequence number of the last batch applied to the speculative state.
    pub closed spec fn preemptive_seq(&self) -> u32 {
        self.current_state_seq_no.value
    }

    /// The sequence number of the last confirmed batch.
    pub closed spec fn confirmed_seq(&self) -> u32 {
        self.current_confirmed_seq_no.value
    }

    /// The speculative state.
    pub closed spec fn state(&self) -> S {
        self.preemptive_state
    }

    /// The batches applied speculatively and awaiting confirmation, oldest first.
    pub closed spec fn pending(&self) -> Seq<PendingPermanentUpdate<A::Request, A::Reply>> {
        self.pending_permanent_update@
    }

    /// Whether no batch has touched the state since it was created: the first batch may
    /// then carry the initial sequence number itself, which it takes over as its own.
    pub closed spec fn fresh(&self) -> bool {
        self.awaiting_first
    }

    /// Whether a speculative batch at `seq` is applied: it is the one after the head or, on
    /// a fresh state, the first batch at the head's own sequence number.
    pub open spec fn takes(&self, seq: u32) -> bool {
        seq == next_raw(self.preemptive_seq()) || (self.fresh() && seq == self.preemptive_seq())
    }

    /// The pending batches hold the sequence numbers right after the confirmed one, up
    /// to the speculative head; a fresh state has none.
    pub open spec fn wf(&self) -> bool {
        &&& self.fresh() ==> self.pending().len() == 0 && self.preemptive_seq() == self.confirmed_seq()
        &&& forall|i: int|
            0 <= i < self.pending().len() ==> (#[trigger] self.pending()[i]).batch.seq.value
                == seq_chain(next_raw(self.confirmed_seq()), i as nat)
        &&& self.preemptive_seq() == seq_chain(self.confirmed_seq(), self.pending().len())
    }

    /// The speculative state is some confirmed state with the pending batches applied in
    /// order by `app`, with matching replies.
    pub open spec fn sound(&self, app: A) -> bool {
        exists|base: S::V| consistent_with(app, base, self.state()@, self.pending())
    }

    /// A state at `initial_state.0`, both speculative and confirmed.
    pub fn new(initial_state: (SeqNo, S)) -> (s: Self)
        ensures
            s.wf(),
            forall|app: A| consistent_with(app, initial_state.1@, s.state()@, s.pending()),
            s.preemptive_seq() == initial_state.0.value,
            s.confirmed_seq() == initial_state.0.value,
            s.state() == initial_state.1,
            s.pending().len() == 0,
            s.fresh(),
    {
        let s = PreemptiveState {
            current_state_seq_no: initial_state.0,
            current_confirmed_seq_no: initial_state.0,
            preemptive_state: initial_state.1,
            pending_permanent_update: VecDeque::new(),
            awaiting_first: true,
        };
        assert(permanent_batches(s.pending()) =~= Seq::<UpdateBatch<A::Request>>::empty());
        s
    }

    /// The sequence number of the last batch applied to the speculative state.
    pub fn sequence_number(&self) -> (s: SeqNo)
        ensures
            s.value == self.preemptive_seq(),
    {
        self.current_state_seq_no
    }

    /// The sequence number of the last confirmed batch.
    pub fn confirmed_seq_no(&self) -> (s: SeqNo)
        ensures
            s.value == self.confirmed_seq(),
    {
        self.current_confirmed_seq_no
    }

    /// The speculative state.
    pub fn preemptive_state(&self) -> (s: &S)
        ensures
            *s == self.state(),
    {
        &self.preemptive_state
    }

    /// The number of batches awaiting confirmation.
    pub fn pending_count(&self) -> (n: usize)
        ensures
            n == self.pending().len(),
    {
        self.pending_permanent_update.len()
    }

    /// Installs a confirmed state received by state transfer, dropping all speculation.
    pub fn install_confirmed_state(&mut self, confirmed_seq_no: SeqNo, confirmed_state: S)
        ensures
            final(self).wf(),
            forall|app: A| consistent_with(app, confirmed_state@, final(self).state()@, final(self).pending()),
            final(self).state() == confirmed_state,
            final(self).preemptive_seq() == confirmed_seq_no.value,
            final(self).confirmed_seq() == confirmed_seq_no.value,
            final(self).pending().len() == 0,
            !final(self).fresh(),
    {
        self.preemptive_state = confirmed_state;
        self.current_confirmed_seq_no = confirmed_seq_no;
        self.current_state_seq_no = confirmed_seq_no;
        self.pending_permanent_update.clear();
        self.awaiting_first = false;
        assert(permanent_batches(self.pending()) =~= Seq::<UpdateBatch<A::Request>>::empty());
    }

    /// Applies a batch to the speculative state if it is the next one after the head. The
    /// first batch a fresh state sees may also carry the head's own sequence number: the
    /// state then counts from the one before it, so that numbering from zero or from one
    /// both work.
    ///
    /// Sequence numbers compare by raw value: a batch behind the head asks for a
    /// backtrack; any other batch that is not taken is refused as a future request.
    pub fn handle_preemptive_update(&mut self, application: &A, update_batch: UpdateBatch<A::Request>) -> (r: Result<
        (),
        ExecuteUpdateError<A::Request>,
    >)
        requires
            old(self).wf(),
        ensures
            final(self).wf(),
            !(old(self).fresh() && update_batch.seq.value == old(self).preemptive_seq())
                ==> final(self).confirmed_seq() == old(self).confirmed_seq(),
            old(self).fresh() && update_batch.seq.value == old(self).preemptive_seq()
                ==> final(self).confirmed_seq() == prev_raw(update_batch.seq.value),
            forall|base: S::V|
                consistent_with(*application, base, old(self).state()@, old(self).pending())
                    ==> consistent_with(*application, base, final(self).state()@, final(self).pending()),
            old(self).takes(update_batch.seq.value) ==> {
                &&& r is Ok
                &&& !final(self).fresh()
                &&& final(self).preemptive_seq() == update_batch.seq.value
                &&& permanent_batches(final(self).pending()) == permanent_batches(
                    old(self).pending(),
                ).push(update_batch)
                &&& final(self).state()@ == run_updates(
                    *application,
                    old(self).state()@,
                    update_batch.updates@,
                ).0
            },
            !old(self).takes(update_batch.seq.value) && update_batch.seq.value < old(
                self,
            ).preemptive_seq() ==> {
                &&& r matches Err(ExecuteUpdateError::Backtracking(seq, b))
                &&& seq == update_batch.seq
                &&& b == update_batch
                &&& *final(self) == *old(self)
            },
            !old(self).takes(update_batch.seq.value) && update_batch.seq.value >= old(
                self,
            ).preemptive_seq() ==> {
                &&& r matches Err(ExecuteUpdateError::FutureRequest(seq, head))
                &&& seq == update_batch.seq
                &&& head.value == old(self).preemptive_seq()
                &&& *final(self) == *old(self)
            },
    {
        let seq = update_batch.seq;
        let first = self.awaiting_first && seq.value == self.current_state_seq_no.value;
        if seq.value != self.current_state_seq_no.next().value && !first {
            if seq.value < self.current_state_seq_no.value {
                return Err(ExecuteUpdateError::Backtracking(seq, update_batch));
            } else {
                return Err(ExecuteUpdateError::FutureRequest(seq, self.current_state_seq_no));
            }
        }
        if first {
            let before = seq.prev();
            self.current_state_seq_no = before;
            self.current_confirmed_seq_no = before;
        }
        self.awaiting_first = false;
        let ghost bs = permanent_batches(self.pending());
        let replies = crate::application::update_batch(application, &mut self.preemptive_state, &update_batch);
        self.current_state_seq_no = seq;
        let entry = PendingPermanentUpdate { batch: update_batch, replies };
        let ghost e = entry;
        self.pending_permanent_update.push_back(entry);
        proof {
            let nbs = permanent_batches(self.pending());
            if first {
                assert(old(self).pending().len() == 0);
                lemma_chain_shift(self.confirmed_seq(), 0);
                assert(self.preemptive_seq() == seq_chain(self.confirmed_seq(), 1));
            } else {
                lemma_chain_shift(old(self).confirmed_seq(), old(self).pending().len());
            }
            assert(nbs =~= bs.push(e.batch));
            assert(nbs.drop_last() =~= bs);
            assert forall|i: int| 0 <= i < self.pending().len() implies (#[trigger] self.pending()[i]).batch.seq.value
                == seq_chain(next_raw(self.confirmed_seq()), i as nat) by {
                if i < self.pending().len() - 1 {
                    assert(self.pending()[i] == old(self).pending()[i]);
                } else {
                    lemma_chain_shift(self.confirmed_seq(), old(self).pending().len());
                }
            }
            assert forall|base: S::V|
                consistent_with(*application, base, old(self).state()@, old(self).pending())
                implies consistent_with(*application, base, self.state()@, self.pending()) by {
                assert forall|i: int| 0 <= i < self.pending().len() implies (#[trigger] self.pending()[i]).replies.views()
                    == run_updates(*application, apply_batches(*application, base, nbs.take(i)), nbs[i].updates@).1 by {
                    if i < self.pending().len() - 1 {
                        assert(self.pending()[i] == old(self).pending()[i]);
                        assert(nbs.take(i) =~= bs.take(i));
                        assert(nbs[i] == bs[i]);
                    } else {
                        assert(nbs.take(i) =~= bs);
                    }
                }
            }
        }
        Ok(())
    }
}


/// Confirming the first pending batch moves the base of consistency past it.
pub proof fn lemma_consistent_after_confirm<S: View, A: Application<S>>(
    app: A,
    base: S::V,
    state: S::V,
    pending: Seq<PendingPermanentUpdate<A::Request, A::Reply>>,
)
    requires
        pending.len() > 0,
        consistent_with(app, base, state, pending),
    ensures
        consistent_with(app, run_updates(app, base, pending[0].batch.updates@).0, state, pending.drop_first()),
{
    let bs = permanent_batches(pending);
    let nbs = permanent_batches(pending.drop_first());
    let r0 = run_updates(app, base, pending[0].batch.updates@).0;
    assert(nbs =~= bs.drop_first());
    assert(bs[0] == pending[0].batch);
    lemma_apply_batches_first(app, base, bs);
    assert forall|i: int| 0 <= i < pending.drop_first().len() implies (#[trigger] pending.drop_first()[i]).replies.views()
        == run_updates(app, apply_batches(app, r0, nbs.take(i)), nbs[i].updates@).1 by {
        assert(pending.drop_first()[i] == pending[i + 1]);
        lemma_apply_batches_first(app, base, bs.take(i + 1));
        assert(bs.take(i + 1).drop_first() =~= nbs.take(i));
        assert(bs.take(i + 1)[0] == bs[0]);
        assert(nbs[i] == bs[i + 1]);
    }
}

/// The chain steps through the sequence numbers modulo `2^32`.
proof fn lemma_chain_mod(start: u32, n: nat)
    ensures
        seq_chain(start, n) as int == (start + n) % 0x1_0000_0000,
    decreases n,
{
    if n > 0 {
        lemma_chain_mod(start, (n - 1) as nat);
        vstd::arithmetic::div_mod::lemma_add_mod_noop(start + n - 1, 1, 0x1_0000_0000);
    }
}

/// Fewer than `2^32` steps never lead back to where the chain started.
pub proof fn lemma_chain_never_returns(start: u32, n: nat)
    requires
        0 < n <= u32::MAX,
    ensures
        seq_chain(start, n) != start,
{
    lemma_chain_mod(start, n);
    if start + n < 0x1_0000_0000 {
        vstd::arithmetic::div_mod::lemma_small_mod((start + n) as nat, 0x1_0000_0000);
    } else {
        vstd::arithmetic::div_mod::lemma_small_mod((start + n - 0x1_0000_0000) as nat, 0x1_0000_0000);
        vstd::arithmetic::div_mod::lemma_mod_sub_multiples_vanish(start + n, 0x1_0000_0000);
    }
}

/// Without wrapping past `u32::MAX`, the chain counts up one by one.
pub proof fn lemma_chain_counts_up(start: u32, n: nat)
    requires
        start + n <= u32::MAX,
    ensures
        seq_chain(start, n) == start + n,
    decreases n,
{
    if n > 0 {
        lemma_chain_counts_up(start, (n - 1) as nat);
    }
}

/// Of batches numbered one by one from `first + 1` on, those strictly between `low` (not
/// below `first`) and `high` are numbered one by one from `low + 1` on, up to the last
/// batch or `high - 1`.
pub proof fn lemma_keep_between_consecutive<R>(bs: Seq<UpdateBatch<R>>, first: u32, low: u32, high: u32)
    requires
        forall|i: int| 0 <= i < bs.len() ==> (#[trigger] bs[i]).seq.value == first + 1 + i,
        first <= low < high,
        first + bs.len() <= u32::MAX,
    ensures
        keep_between(bs, low, high).len() == if first + bs.len() <= low {
            0
        } else if first + bs.len() < high {
            first + bs.len() - low
        } else {
            high - 1 - low
        },
        forall|j: int|
            0 <= j < keep_between(bs, low, high).len() ==> (#[trigger] keep_between(bs, low, high)[j]).seq.value
                == low + 1 + j,
    decreases bs.len(),
{
    if bs.len() > 0 {
        let prev = bs.drop_last();
        assert forall|i: int| 0 <= i < prev.len() implies (#[trigger] prev[i]).seq.value == first + 1 + i by {
            assert(prev[i] == bs[i]);
        }
        lemma_keep_between_consecutive(prev, first, low, high);
        assert(bs.last() == bs[bs.len() - 1]);
        let k = keep_between(bs, low, high);
        let kp = keep_between(prev, low, high);
        if low < bs.last().seq.value < high {
            assert forall|j: int| 0 <= j < k.len() implies (#[trigger] k[j]).seq.value == low + 1 + j by {
                if j < kp.len() {
                    assert(k[j] == kp[j]);
                }
            }
        }
    }
}

impl<S: View, A: Application<S>> PreemptiveState<S, A> {
    /// Confirms the oldest pending batch, which must be at `sequence_no`, handing it back
    /// with its replies.
    pub fn handle_update_confirmed(&mut self, sequence_no: SeqNo) -> (r: Result<
        PendingPermanentUpdate<A::Request, A::Reply>,
        HandleUpdateConfirmedError,
    >)
        requires
            old(self).wf(),
        ensures
            final(self).wf(),
            final(self).preemptive_seq() == old(self).preemptive_seq(),
            final(self).state() == old(self).state(),
            old(self).pending().len() == 0 ==> {
                &&& r == Err::<PendingPermanentUpdate<A::Request, A::Reply>, HandleUpdateConfirmedError>(
                    HandleUpdateConfirmedError::EmptyQueue { received: sequence_no },
                )
                &&& *final(self) == *old(self)
            },
            old(self).pending().len() > 0 && old(self).pending()[0].batch.seq != sequence_no ==> {
                &&& r == Err::<PendingPermanentUpdate<A::Request, A::Reply>, HandleUpdateConfirmedError>(
                    HandleUpdateConfirmedError::SeqMismatch {
                        expected: old(self).pending()[0].batch.seq,
                        received: sequence_no,
                    },
                )
                &&& *final(self) == *old(self)
            },
            old(self).pending().len() > 0 && old(self).pending()[0].batch.seq == sequence_no ==> {
                &&& r == Ok::<PendingPermanentUpdate<A::Request, A::Reply>, HandleUpdateConfirmedError>(
                    old(self).pending()[0],
                )
                &&& final(self).pending() == old(self).pending().drop_first()
                &&& final(self).confirmed_seq() == sequence_no.value
                &&& forall|app: A, base: S::V|
                    consistent_with(app, base, old(self).state()@, old(self).pending())
                        ==> consistent_with(
                        app,
                        run_updates(app, base, old(self).pending()[0].batch.updates@).0,
                        final(self).state()@,
                        final(self).pending(),
                    )
            },
    {
        if self.pending_permanent_update.len() == 0 {
            return Err(HandleUpdateConfirmedError::EmptyQueue { received: sequence_no });
        }
        let front_seq = self.pending_permanent_update[0].batch.seq;
        if front_seq.value != sequence_no.value {
            return Err(HandleUpdateConfirmedError::SeqMismatch { expected: front_seq, received: sequence_no });
        }
        let result = self.pending_permanent_update.pop_front().unwrap();
        self.current_confirmed_seq_no = sequence_no;
        proof {
            let p0 = old(self).pending();
            assert(self.pending() =~= p0.drop_first());
            assert forall|i: int| 0 <= i < self.pending().len() implies (#[trigger] self.pending()[i]).batch.seq.value
                == seq_chain(next_raw(self.confirmed_seq()), i as nat) by {
                assert(self.pending()[i] == p0[i + 1]);
                assert(p0[0].batch.seq.value == seq_chain(next_raw(old(self).confirmed_seq()), 0));
                lemma_chain_shift(next_raw(old(self).confirmed_seq()), i as nat);
            }
            assert(p0[0].batch.seq.value == seq_chain(next_raw(old(self).confirmed_seq()), 0));
            lemma_chain_shift(old(self).confirmed_seq(), (p0.len() - 1) as nat);
            lemma_chain_shift(next_raw(old(self).confirmed_seq()), (p0.len() - 1) as nat);
            assert forall|app: A, base: S::V|
                consistent_with(app, base, old(self).state()@, old(self).pending()) implies consistent_with(
                app,
                run_updates(app, base, old(self).pending()[0].batch.updates@).0,
                self.state()@,
                self.pending(),
            ) by {
                lemma_consistent_after_confirm(app, base, old(self).state()@, old(self).pending());
            }
        }
        Ok(result)
    }

    /// Applies a finalized batch that was never speculated; refused while speculative
    /// batches await confirmation.
    pub fn handle_confirmed_update(&mut self, application: &A, update_batch: UpdateBatch<A::Request>) -> (r: Result<
        ReplyBatch<A::Reply>,
        ConfirmedUpdateError,
    >)
        requires
            old(self).wf(),
        ensures
            final(self).wf(),
            (old(self).preemptive_seq() != old(self).confirmed_seq() || old(self).pending().len() != 0) ==> {
                &&& r == Err::<ReplyBatch<A::Reply>, ConfirmedUpdateError>(
                    ConfirmedUpdateError::PendingPreemptiveUpdates {
                        confirmed_update_seq: update_batch.seq,
                        preemptive_seq: (SeqNo { value: old(self).preemptive_seq() }),
                        confirmed_seq: (SeqNo { value: old(self).confirmed_seq() }),
                    },
                )
                &&& *final(self) == *old(self)
            },
            (old(self).preemptive_seq() == old(self).confirmed_seq() && old(self).pending().len() == 0) ==> {
                &&& r matches Ok(replies)
                &&& (final(self).state()@, replies.views()) == run_updates(
                    *application,
                    old(self).state()@,
                    update_batch.updates@,
                )
                &&& final(self).preemptive_seq() == update_batch.seq.value
                &&& final(self).confirmed_seq() == update_batch.seq.value
                &&& final(self).pending().len() == 0
                &&& !final(self).fresh()
                &&& forall|app: A| consistent_with(app, final(self).state()@, final(self).state()@, final(self).pending())
            },
            old(self).pending().len() <= u32::MAX ==> (r is Err <==> old(self).preemptive_seq()
                != old(self).confirmed_seq()),
    {
        proof {
            if 0 < old(self).pending().len() <= u32::MAX {
                lemma_chain_never_returns(old(self).confirmed_seq(), old(self).pending().len());
            }
        }
        self.apply_finalized(application, &update_batch)
    }

    /// Applies the finalized batch `update_batch`, which was never speculated; refused while
    /// speculative batches await confirmation.
    pub(crate) fn apply_finalized(&mut self, application: &A, update_batch: &UpdateBatch<A::Request>) -> (r: Result<
        ReplyBatch<A::Reply>,
        ConfirmedUpdateError,
    >)
        requires
            old(self).wf(),
        ensures
            final(self).wf(),
            (old(self).preemptive_seq() != old(self).confirmed_seq() || old(self).pending().len() != 0) ==> {
                &&& r == Err::<ReplyBatch<A::Reply>, ConfirmedUpdateError>(
                    ConfirmedUpdateError::PendingPreemptiveUpdates {
                        confirmed_update_seq: update_batch.seq,
                        preemptive_seq: (SeqNo { value: old(self).preemptive_seq() }),
                        confirmed_seq: (SeqNo { value: old(self).confirmed_seq() }),
                    },
                )
                &&& *final(self) == *old(self)
            },
            (old(self).preemptive_seq() == old(self).confirmed_seq() && old(self).pending().len() == 0) ==> {
                &&& r matches Ok(replies)
                &&& (final(self).state()@, replies.views()) == run_updates(
                    *application,
                    old(self).state()@,
                    update_batch.updates@,
                )
                &&& final(self).preemptive_seq() == update_batch.seq.value
                &&& final(self).confirmed_seq() == update_batch.seq.value
                &&& final(self).pending().len() == 0
                &&& !final(self).fresh()
                &&& forall|app: A| consistent_with(app, final(self).state()@, final(self).state()@, final(self).pending())
            },
    {
        if self.current_state_seq_no.value != self.current_confirmed_seq_no.value || self.pending_permanent_update.len() != 0 {
            return Err(
                ConfirmedUpdateError::PendingPreemptiveUpdates {
                    confirmed_update_seq: update_batch.seq,
                    preemptive_seq: self.current_state_seq_no,
                    confirmed_seq: self.current_confirmed_seq_no,
                },
            );
        }
        let replies = crate::application::update_batch(application, &mut self.preemptive_state, update_batch);
        self.current_state_seq_no = update_batch.seq;
        self.current_confirmed_seq_no = update_batch.seq;
        self.awaiting_first = false;
        assert(permanent_batches(self.pending()) =~= Seq::<UpdateBatch<A::Request>>::empty());
        Ok(replies)
    }

    /// Applies catch-up batches, in order, to the speculative state and makes the last one
    /// both the speculative head and the confirmed sequence number; pending batches are
    /// dropped and no replies are produced.
    pub fn handle_catch_up(&mut self, application: &A, batches: Vec<UpdateBatch<A::Request>>)
        requires
            old(self).wf(),
        ensures
            final(self).wf(),
            final(self).state()@ == apply_batches(*application, old(self).state()@, batches@),
            final(self).pending().len() == 0,
            batches@.len() == 0 ==> final(self).confirmed_seq() == old(self).confirmed_seq(),
            batches@.len() > 0 ==> final(self).confirmed_seq() == batches@.last().seq.value,
            final(self).preemptive_seq() == final(self).confirmed_seq(),
            !final(self).fresh(),
            forall|app: A| consistent_with(app, final(self).state()@, final(self).state()@, final(self).pending()),
    {
        let mut last_seq = self.current_confirmed_seq_no;
        let mut i: usize = 0;
        proof {
            assert(batches@.take(0) =~= Seq::<UpdateBatch<A::Request>>::empty());
        }
        while i < batches.len()
            invariant
                0 <= i <= batches@.len(),
                self.preemptive_state@ == apply_batches(*application, old(self).preemptive_state@, batches@.take(i as int)),
                i == 0 ==> last_seq == old(self).current_confirmed_seq_no,
                i > 0 ==> last_seq == batches@[i - 1].seq,
            decreases batches@.len() - i,
        {
            let _ = crate::application::update_batch(application, &mut self.preemptive_state, &batches[i]);
            last_seq = batches[i].seq;
            proof {
                assert(batches@.take(i + 1).drop_last() =~= batches@.take(i as int));
            }
            i = i + 1;
        }
        proof {
            assert(batches@.take(batches@.len() as int) =~= batches@);
        }
        self.current_state_seq_no = last_seq;
        self.current_confirmed_seq_no = last_seq;
        self.pending_permanent_update.clear();
        self.awaiting_first = false;
        assert(permanent_batches(self.pending()) =~= Seq::<UpdateBatch<A::Request>>::empty());
    }

    /// Takes every pending batch out, keeping, in order, those above `after_seq` (already
    /// part of the confirmed state) and below `before_seq` (built on a discarded
    /// speculative path).
    fn drain_pending_before(&mut self, after_seq: SeqNo, before_seq: SeqNo) -> (kept: VecDeque<UpdateBatch<A::Request>>)
        ensures
            kept@ == keep_between(permanent_batches(old(self).pending()), after_seq.value, before_seq.value),
            final(self).pending().len() == 0,
            final(self).state() == old(self).state(),
            final(self).preemptive_seq() == old(self).preemptive_seq(),
            final(self).confirmed_seq() == old(self).confirmed_seq(),
    {
        let ghost p0 = self.pending_permanent_update@;
        let ghost n = p0.len();
        let mut batches: VecDeque<UpdateBatch<A::Request>> = VecDeque::new();
        let mut i: usize = 0;
        let len = self.pending_permanent_update.len();
        proof {
            assert(permanent_batches(p0).take(0) =~= Seq::<UpdateBatch<A::Request>>::empty());
            assert(p0.subrange(0, n as int) =~= p0);
        }
        while self.pending_permanent_update.len() > 0
            invariant
                0 <= i <= n,
                n == len,
                n == p0.len(),
                self.pending_permanent_update@ == p0.subrange(i as int, n as int),
                batches@ == keep_between(permanent_batches(p0).take(i as int), after_seq.value, before_seq.value),
                self.preemptive_state == old(self).preemptive_state,
                self.current_state_seq_no == old(self).current_state_seq_no,
                self.current_confirmed_seq_no == old(self).current_confirmed_seq_no,
            decreases self.pending_permanent_update@.len(),
        {
            proof {
                assert(p0.subrange(i as int, n as int)[0] == p0[i as int]);
            }
            let item = self.pending_permanent_update.pop_front().unwrap();
            let (batch, _replies) = item.into_inner();
            proof {
                let b = permanent_batches(p0);
                assert(b.len() == n);
                assert(b.take(i + 1).drop_last() =~= b.take(i as int));
                assert(b[i as int] == p0[i as int].batch);
                assert(b.take(i + 1).last() == batch);
                assert(self.pending_permanent_update@ =~= p0.subrange(i + 1, n as int));
            }
            if after_seq.value < batch.seq.value && batch.seq.value < before_seq.value {
                batches.push_back(batch);
            }
            i = i + 1;
        }
        proof {
            assert(permanent_batches(p0).take(n as int) =~= permanent_batches(p0));
        }
        batches
    }

    /// Backtracks to `backtracked_seq`: the speculative state is reset to the confirmed
    /// state at `confirmed_seq_no`, and the pending batches above the confirmed number and
    /// below the backtrack point are applied to it again in order (the others are dropped). Refused when the backtrack
    /// point is not above `confirmed_seq_no`; fails at the first kept batch that is not
    /// the next in sequence.
    #[verifier::rlimit(40)]
    pub fn backtrack(
        &mut self,
        application: &A,
        confirmed_seq_no: SeqNo,
        confirmed_state: S,
        backtracked_seq: SeqNo,
    ) -> (r: Result<(), BacktrackError>)
        requires
            old(self).wf(),
        ensures
            final(self).wf(),
            backtracked_seq.value <= confirmed_seq_no.value ==> {
                &&& r == Err::<(), BacktrackError>(
                    BacktrackError::BacktrackToConfirmedOrBelow {
                        backtrack_seq: backtracked_seq,
                        confirmed_seq: confirmed_seq_no,
                    },
                )
                &&& *final(self) == *old(self)
            },
            backtracked_seq.value > confirmed_seq_no.value ==> {
                let kept = keep_between(permanent_batches(old(self).pending()), confirmed_seq_no.value, backtracked_seq.value);
                &&& final(self).confirmed_seq() == confirmed_seq_no.value
                &&& !final(self).fresh()
                &&& consistent_with(*application, confirmed_state@, final(self).state()@, final(self).pending())
                &&& (r is Ok <==> forall|j: int|
                    0 <= j < kept.len() ==> (#[trigger] kept[j]).seq.value == seq_chain(
                        next_raw(confirmed_seq_no.value),
                        j as nat,
                    ))
                &&& r is Ok ==> {
                    &&& permanent_batches(final(self).pending()) == kept
                    &&& final(self).state()@ == apply_batches(*application, confirmed_state@, kept)
                }
                &&& r matches Err(BacktrackError::ReExecutionFailed { seq }) ==> exists|k: int|
                    0 <= k < kept.len() && (#[trigger] kept[k]).seq == seq && kept[k].seq.value
                        != seq_chain(next_raw(confirmed_seq_no.value), k as nat) && forall|j: int|
                        0 <= j < k ==> (#[trigger] kept[j]).seq.value == seq_chain(
                            next_raw(confirmed_seq_no.value),
                            j as nat,
                        )
                &&& r is Ok || (r matches Err(BacktrackError::ReExecutionFailed { .. }))
                &&& old(self).confirmed_seq() <= confirmed_seq_no.value && old(self).confirmed_seq()
                    + old(self).pending().len() <= u32::MAX ==> r is Ok
            },
    {
        if backtracked_seq.value <= confirmed_seq_no.value {
            return Err(
                BacktrackError::BacktrackToConfirmedOrBelow {
                    backtrack_seq: backtracked_seq,
                    confirmed_seq: confirmed_seq_no,
                },
            );
        }
        let batches = self.drain_pending_before(confirmed_seq_no, backtracked_seq);
        let ghost kept = batches@;
        let ghost base = confirmed_state@;
        proof {
            let pc = old(self).confirmed_seq();
            let c = confirmed_seq_no.value;
            let bs = permanent_batches(old(self).pending());
            if pc <= c && pc + old(self).pending().len() <= u32::MAX {
                assert forall|i: int| 0 <= i < bs.len() implies (#[trigger] bs[i]).seq.value == pc + 1 + i by {
                    assert(bs[i] == old(self).pending()[i].batch);
                    lemma_chain_counts_up(next_raw(pc), i as nat);
                }
                lemma_keep_between_consecutive(bs, pc, c, backtracked_seq.value);
                assert forall|j: int| 0 <= j < kept.len() implies (#[trigger] kept[j]).seq.value == seq_chain(
                    next_raw(c),
                    j as nat,
                ) by {
                    lemma_chain_counts_up(next_raw(c), j as nat);
                }
            }
        }
        self.preemptive_state = confirmed_state;
        self.current_confirmed_seq_no = confirmed_seq_no;
        self.current_state_seq_no = confirmed_seq_no;
        self.awaiting_first = false;
        proof {
            assert(permanent_batches(self.pending()) =~= Seq::<UpdateBatch<A::Request>>::empty());
            assert(kept.take(0) =~= Seq::<UpdateBatch<A::Request>>::empty());
        }
        let mut batches = batches;
        let mut i: usize = 0;
        let n = batches.len();
        proof {
            assert(kept.subrange(0, n as int) =~= kept);
        }
        while batches.len() > 0
            invariant
                0 <= i <= n,
                n == kept.len(),
                batches@ == kept.subrange(i as int, n as int),
                backtracked_seq.value > confirmed_seq_no.value,
                kept == keep_between(permanent_batches(old(self).pending()), confirmed_seq_no.value, backtracked_seq.value),
                base == confirmed_state@,
                old(self).confirmed_seq() <= confirmed_seq_no.value && old(self).confirmed_seq()
                    + old(self).pending().len() <= u32::MAX ==> forall|j: int|
                    0 <= j < kept.len() ==> (#[trigger] kept[j]).seq.value == seq_chain(
                        next_raw(confirmed_seq_no.value),
                        j as nat,
                    ),
                self.wf(),
                !self.fresh(),
                self.confirmed_seq() == confirmed_seq_no.value,
                consistent_with(*application, base, self.state()@, self.pending()),
                permanent_batches(self.pending()) == kept.take(i as int),
                self.state()@ == apply_batches(*application, base, kept.take(i as int)),
                self.preemptive_seq() == seq_chain(confirmed_seq_no.value, i as nat),
                forall|j: int| 0 <= j < i ==> (#[trigger] kept[j]).seq.value == seq_chain(
                    next_raw(confirmed_seq_no.value),
                    j as nat,
                ),
            decreases batches@.len(),
        {
            proof {
                assert(kept.subrange(i as int, n as int)[0] == kept[i as int]);
            }
            let batch = batches.pop_front().unwrap();
            let seq = batch.seq;
            proof {
                lemma_chain_shift(confirmed_seq_no.value, i as nat);
                assert(batches@ =~= kept.subrange(i + 1, n as int));
            }
            match self.handle_preemptive_update(application, batch) {
                Ok(()) => {},
                Err(_) => {
                    proof {
                        assert(kept[i as int].seq == seq);
                        assert(kept[i as int].seq.value != seq_chain(next_raw(confirmed_seq_no.value), i as nat));
                    }
                    return Err(BacktrackError::ReExecutionFailed { seq });
                },
            }
            proof {
                assert(kept.take(i + 1) =~= kept.take(i as int).push(kept[i as int]));
                assert(kept.take(i + 1).drop_last() =~= kept.take(i as int));
            }
            i = i + 1;
        }
        proof {
            assert(kept.take(kept.len() as int) =~= kept);
        }
        Ok(())
    }
}

} // verus!
