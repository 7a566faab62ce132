use crate::application::{lemma_run_updates_is_run_batch, run_batch, run_updates, update_batch, CRUDApplication};
use crate::batch::{ReplyBatch, UpdateBatch};
use crate::cache::{merge_delta_into, Cache};
use crate::crud::{apply_delta_to_state, CRUDState};
use crate::metric::{staging_samples, MetricSample};
use crate::model::{merge, merge_all, overlay, overlay_all, Contents, Delta};
use crate::preemptive_requests::apply_batches;
use crate::seq_no::{next_raw, prev_raw, SeqNo};
use crate::speculation::{SequentialSpeculation, SpeculationEngine};
use std::collections::{BTreeMap, VecDeque};
use vstd::prelude::*;

verus! {

/// Upper bound on the number of out-of-order batches held in the reorder buffer.
///
/// The ordering protocol runs several consensus instances concurrently, so batches reach
/// the executor out of sequence, but each is sent exactly once and the gaps always close;
/// hitting this bound means a batch was lost, not merely late.
pub const MAX_STAGED_BATCHES: usize = 4096;

/// `n` steps after `start` in sequence-number order.
pub open spec fn seq_chain(start: u32, n: nat) -> u32
    decreases n,
{
    if n == 0 {
        start
    } else {
        next_raw(seq_chain(start, (n - 1) as nat))
    }
}

/// The sequence numbers `start`, its successor, ... (`n` of them).
pub open spec fn chain_set(start: u32, n: nat) -> Set<u32> {
    Set::new(|k: u32| exists|m: nat| m < n && seq_chain(start, m) == k)
}

/// The batches found in `staged` at the `n` sequence numbers from `start` on.
pub open spec fn chain_batches<R>(staged: Map<u32, UpdateBatch<R>>, start: u32, n: nat) -> Seq<
    UpdateBatch<R>,
> {
    Seq::new(n, |m: int| staged[seq_chain(start, m as nat)])
}

/// One more step of the chain adds the next sequence number to its set.
pub proof fn lemma_chain_set_step(start: u32, n: nat)
    ensures
        chain_set(start, n + 1) == chain_set(start, n).insert(seq_chain(start, n)),
{
    assert forall|k: u32| chain_set(start, n + 1).contains(k) implies chain_set(start, n).insert(
        seq_chain(start, n),
    ).contains(k) by {
        let m = choose|m: nat| m < n + 1 && seq_chain(start, m) == k;
        if m < n {
            assert(chain_set(start, n).contains(k));
        }
    }
    assert forall|k: u32| chain_set(start, n).insert(seq_chain(start, n)).contains(k) implies chain_set(
        start,
        n + 1,
    ).contains(k) by {
        if k != seq_chain(start, n) {
            let m = choose|m: nat| m < n && seq_chain(start, m) == k;
            assert(m < n + 1 && seq_chain(start, m) == k);
        }
    }
    assert(chain_set(start, n + 1) =~= chain_set(start, n).insert(seq_chain(start, n)));
}

/// A chain of no steps covers no sequence number.
pub proof fn lemma_chain_set_zero(start: u32)
    ensures
        chain_set(start, 0) == Set::<u32>::empty(),
{
    assert(chain_set(start, 0) =~= Set::<u32>::empty());
}

/// A batch that was executed speculatively and awaits confirmation.
pub struct PendingCachedUpdate<R, P> {
    pub batch: UpdateBatch<R>,
    pub replies: ReplyBatch<P>,
    pub delta: Cache,
}

/// The layers of a sequence of pending updates.
pub open spec fn deltas_of<R, P>(p: Seq<PendingCachedUpdate<R, P>>) -> Seq<Delta> {
    p.map_values(|u: PendingCachedUpdate<R, P>| u.delta@)
}

/// The batches of a sequence of pending updates.
pub open spec fn batches_of<R, P>(p: Seq<PendingCachedUpdate<R, P>>) -> Seq<UpdateBatch<R>> {
    p.map_values(|u: PendingCachedUpdate<R, P>| u.batch)
}

/// What happened to a batch handed to `handle_preemptive_update`.
#[derive(Debug, PartialEq, Eq, Structural)]
pub enum PreemptiveOutcome {
    /// The batch was executed speculatively; `drained` more batches were released from the
    /// reorder buffer behind it because it closed their gap.
    Executed { drained: usize },
    /// The batch arrived ahead of its turn and is held in the reorder buffer until the
    /// executor reaches `awaiting`.
    Staged { awaiting: SeqNo, buffered: usize },
}

/// Why a batch handed to `handle_preemptive_update` was not taken.
#[derive(Debug)]
pub enum PreemptiveError<R> {
    /// The batch is behind the speculation: the caller must backtrack to its sequence number.
    Backtracking(SeqNo, UpdateBatch<R>),
    /// The reorder buffer is full.
    ReorderBufferFull { seq: SeqNo, awaiting: SeqNo, buffered: usize },
}

/// Why a confirmation or a finalized batch was refused.
#[derive(Debug, PartialEq, Eq, Structural)]
pub enum ConfirmError {
    /// The pending queue holds another sequence number at its head.
    SeqMismatch { expected: SeqNo, received: SeqNo },
    /// Neither the pending queue nor the reorder buffer holds the confirmed batch.
    EmptyQueue { received: SeqNo },
    /// The confirmation is not for the next sequence number to confirm.
    OutOfOrderConfirmation { expected: SeqNo, received: SeqNo },
    /// A finalized batch arrived while speculative work is pending.
    PendingPreemptiveUpdates { confirmed_update_seq: SeqNo, next_preemptive: SeqNo, next_confirmed: SeqNo },
}

/// Why a backtrack was refused.
#[derive(Debug, PartialEq, Eq, Structural)]
pub enum BacktrackError {
    /// The backtrack point lies below what is already confirmed.
    BacktrackBelowConfirmed { backtrack_seq: SeqNo, next_confirmed: SeqNo },
}

/// Where the batch for an incoming confirmation lives.
enum ConfirmRoute {
    Pending,
    Staged,
    Mismatch(SeqNo),
    Empty,
}

/// Cache-based preemptive execution, parameterised by how a single batch is speculated.
///
/// The confirmed state is only changed on confirmation. Each speculative batch writes into
/// its own layer (`delta`), kept in the pending queue in sequence order; the accumulated
/// cache is the merge of all pending layers and answers reads before the confirmed state.
/// Batches that arrive ahead of their turn wait in a reorder buffer keyed by sequence
/// number. Sequence tracking is by the next expected number: `next_confirmed` for
/// confirmations, `next_preemptive` for speculation.
pub struct SpeculativeState<S: CRUDState + View, A: CRUDApplication<S>, E: SpeculationEngine<S, A>> {
    engine: E,
    confirmed_state: S,
    next_confirmed: SeqNo,
    next_preemptive: SeqNo,
    accumulated_cache: Cache,
    pending: VecDeque<PendingCachedUpdate<A::Request, A::Reply>>,
    staged: BTreeMap<u32, UpdateBatch<A::Request>>,
    samples: Vec<MetricSample>,
}

/// Cache-based sequential preemptive execution: each batch runs through one caching view.
pub type CachingPreemptiveState<S, A> = SpeculativeState<S, A, SequentialSpeculation>;

impl<S: CRUDState + View, A: CRUDApplication<S>, E: SpeculationEngine<S, A>> SpeculativeState<S, A, E> {
    /// The confirmed state.
    pub closed spec fn confirmed(&self) -> S {
        self.confirmed_state
    }

    /// The sequence number the next confirmation is expected to carry.
    pub closed spec fn next_confirmed_value(&self) -> u32 {
        self.next_confirmed.value
    }

    /// The sequence number the next speculative batch is expected to carry.
    pub closed spec fn next_preemptive_value(&self) -> u32 {
        self.next_preemptive.value
    }

    /// The batches executed speculatively and awaiting confirmation, oldest first.
    pub closed spec fn pending_updates(&self) -> Seq<PendingCachedUpdate<A::Request, A::Reply>> {
        self.pending@
    }

    /// The reorder buffer, by sequence number.
    pub closed spec fn staged_batches(&self) -> Map<u32, UpdateBatch<A::Request>> {
        self.staged@
    }

    /// The merge of all pending layers.
    pub closed spec fn accumulated(&self) -> Delta {
        self.accumulated_cache@
    }

    /// The metric samples recorded and not taken yet, oldest first.
    pub closed spec fn recorded_samples(&self) -> Seq<MetricSample> {
        self.samples@
    }

    /// Appends `samples` to the recorded ones, changing nothing else.
    fn record(&mut self, samples: Vec<MetricSample>)
        ensures
            final(self).samples@ == old(self).samples@ + samples@,
            final(self).engine == old(self).engine,
            final(self).confirmed_state == old(self).confirmed_state,
            final(self).next_confirmed == old(self).next_confirmed,
            final(self).next_preemptive == old(self).next_preemptive,
            final(self).accumulated_cache == old(self).accumulated_cache,
            final(self).pending == old(self).pending,
            final(self).staged == old(self).staged,
    {
        let mut i: usize = 0;
        while i < samples.len()
            invariant
                0 <= i <= samples@.len(),
                self.samples@ == old(self).samples@ + samples@.take(i as int),
                self.engine == old(self).engine,
                self.confirmed_state == old(self).confirmed_state,
                self.next_confirmed == old(self).next_confirmed,
                self.next_preemptive == old(self).next_preemptive,
                self.accumulated_cache == old(self).accumulated_cache,
                self.pending == old(self).pending,
                self.staged == old(self).staged,
            decreases samples@.len() - i,
        {
            self.samples.push(samples[i]);
            assert(samples@.take(i + 1) =~= samples@.take(i as int).push(samples@[i as int]));
            i = i + 1;
        }
        assert(samples@.take(samples@.len() as int) =~= samples@);
    }

    /// Hands out the metric samples recorded so far, oldest first, and forgets them;
    /// nothing else changes.
    pub fn take_metric_samples(&mut self) -> (r: Vec<MetricSample>)
        ensures
            r@ == old(self).recorded_samples(),
            final(self).recorded_samples() == Seq::<MetricSample>::empty(),
            old(self).wf() ==> final(self).wf(),
            old(self).aligned() ==> final(self).aligned(),
            forall|app: A| old(self).sound(app) ==> #[trigger] final(self).sound(app),
            final(self).confirmed() == old(self).confirmed(),
            final(self).next_confirmed_value() == old(self).next_confirmed_value(),
            final(self).next_preemptive_value() == old(self).next_preemptive_value(),
            final(self).pending_updates() == old(self).pending_updates(),
            final(self).staged_batches() == old(self).staged_batches(),
            final(self).accumulated() == old(self).accumulated(),
    {
        let mut out: Vec<MetricSample> = Vec::new();
        std::mem::swap(&mut out, &mut self.samples);
        proof {
            assert(self.pending@ == old(self).pending@);
            assert forall|app: A| old(self).sound(app) implies #[trigger] self.sound(app) by {
                assert(self.pending_deltas() == old(self).pending_deltas());
                assert forall|i: int| 0 <= i < self.pending_updates().len() implies #[trigger] self.base_of(i)
                    == old(self).base_of(i) by {
                }
            }
        }
        out
    }

    /// The pending batches, oldest first.
    pub open spec fn pending_batches(&self) -> Seq<UpdateBatch<A::Request>> {
        batches_of(self.pending_updates())
    }

    /// The pending layers, oldest first.
    pub open spec fn pending_deltas(&self) -> Seq<Delta> {
        deltas_of(self.pending_updates())
    }

    /// What reads observe once every pending batch is applied: the accumulated cache placed
    /// on the confirmed state.
    pub open spec fn speculative_contents(&self) -> Contents {
        overlay(self.confirmed().contents(), self.accumulated())
    }

    /// The contents a pending batch was executed on: the confirmed state with the layers
    /// of the batches before it.
    pub open spec fn base_of(&self, i: int) -> Contents {
        overlay_all(self.confirmed().contents(), self.pending_deltas().take(i))
    }

    /// Structural invariant: the layers are well formed, the accumulated cache is the
    /// merge of the pending layers, pending sequence numbers are consecutive up to just
    /// before `next_preemptive`, and each buffered batch is keyed by its own sequence
    /// number.
    pub closed spec fn wf(&self) -> bool {
        let p = self.pending@;
        &&& self.accumulated_cache.wf()
        &&& forall|i: int| 0 <= i < p.len() ==> #[trigger] p[i].delta.wf()
        &&& self.accumulated_cache@ == merge_all(deltas_of(p))
        &&& p.len() > 0 ==> self.next_preemptive.value == next_raw(p.last().batch.seq.value)
        &&& forall|i: int|
            0 <= i < p.len() - 1 ==> #[trigger] p[i + 1].batch.seq.value == next_raw(
                p[i].batch.seq.value,
            )
        &&& forall|k: u32| #[trigger]
            self.staged@.contains_key(k) ==> self.staged@[k].seq.value == k
    }

    /// In a well-formed state the accumulated cache is the merge of the pending layers,
    /// oldest first, so reads through it see every pending batch applied in order.
    pub proof fn lemma_accumulated_is_merge(&self)
        requires
            self.wf(),
        ensures
            self.accumulated() == merge_all(self.pending_deltas()),
            self.speculative_contents() == overlay_all(
                self.confirmed().contents(),
                self.pending_deltas(),
            ),
    {
        crate::model::lemma_overlay_all_is_merge_all(
            self.confirmed().contents(),
            self.pending_deltas(),
        );
    }

    /// The pending batches start at the next number to confirm, and when none is pending the
    /// next speculative number is the next to confirm. Every operation keeps this, except
    /// an empty catch-up on a state with pending work, which clears the work without moving
    /// the numbers.
    pub open spec fn aligned(&self) -> bool {
        &&& self.pending_updates().len() > 0 ==> self.pending_updates()[0].batch.seq.value
            == self.next_confirmed_value()
        &&& self.pending_updates().len() == 0 ==> self.next_preemptive_value() == self.next_confirmed_value()
    }

    proof fn lemma_pending_chain(&self, i: int)
        requires
            self.wf(),
            self.aligned(),
            0 <= i < self.pending@.len(),
        ensures
            self.pending@[i].batch.seq.value == seq_chain(self.next_confirmed.value, i as nat),
        decreases i,
    {
        if i > 0 {
            let j = i - 1;
            self.lemma_pending_chain(j);
            assert(self.pending@[j + 1].batch.seq.value == next_raw(self.pending@[j].batch.seq.value));
        } else {
            assert(self.pending@[0] == self.pending_updates()[0]);
        }
    }

    /// With fewer than `2^32` batches pending from the next number to confirm, the next
    /// speculative number differs from it exactly when something is pending.
    proof fn lemma_pending_iff_ahead(&self)
        requires
            self.wf(),
            self.aligned(),
            self.pending@.len() <= u32::MAX,
        ensures
            self.pending@.len() > 0 <==> self.next_preemptive.value != self.next_confirmed.value,
    {
        let n = self.pending@.len();
        if n > 0 {
            self.lemma_pending_chain(n - 1);
            assert(self.pending@.last() == self.pending@[n - 1]);
            assert(seq_chain(self.next_confirmed.value, n as nat) == next_raw(
                seq_chain(self.next_confirmed.value, (n - 1) as nat),
            ));
            crate::preemptive_requests::lemma_chain_never_returns(self.next_confirmed.value, n as nat);
        }
    }

    /// Speculation is faithful: each pending batch's layer and replies are an outcome the
    /// engine admits for executing the batch with `app` on its base contents.
    pub open spec fn sound(&self, app: A) -> bool {
        forall|i: int|
            0 <= i < self.pending_updates().len() ==> E::admits(
                app,
                self.base_of(i),
                self.pending_updates()[i].batch.updates@,
                #[trigger] self.pending_updates()[i].delta@,
                self.pending_updates()[i].replies.views(),
            )
    }

    /// A state that speculates with `engine` and expects `initial_state.0` next, both for
    /// speculation and confirmation.
    pub(crate) fn with_engine(initial_state: (SeqNo, S), engine: E) -> (s: Self)
        ensures
            s.wf(),
            s.aligned(),
            forall|app: A| s.sound(app),
            s.confirmed() == initial_state.1,
            s.next_confirmed_value() == initial_state.0.value,
            s.next_preemptive_value() == initial_state.0.value,
            s.pending_updates().len() == 0,
            s.staged_batches() == Map::<u32, UpdateBatch<A::Request>>::empty(),
    {
        let s = SpeculativeState {
            engine,
            confirmed_state: initial_state.1,
            next_confirmed: initial_state.0,
            next_preemptive: initial_state.0,
            accumulated_cache: Cache::new(),
            pending: VecDeque::new(),
            staged: BTreeMap::new(),
            samples: Vec::new(),
        };
        assert(s.pending_deltas() =~= Seq::<Delta>::empty());
        s
    }

    /// The sequence number the next confirmation is expected to carry.
    pub fn next_confirmed_seq(&self) -> (s: SeqNo)
        ensures
            s.value == self.next_confirmed_value(),
    {
        self.next_confirmed
    }

    /// The sequence number the next speculative batch is expected to carry.
    pub fn next_preemptive_seq(&self) -> (s: SeqNo)
        ensures
            s.value == self.next_preemptive_value(),
    {
        self.next_preemptive
    }

    /// The sequence number of the last confirmed batch: the one before the next to confirm.
    pub fn confirmed_seq_no(&self) -> (s: SeqNo)
        ensures
            s.value == prev_raw(self.next_confirmed_value()),
            next_raw(s.value) == self.next_confirmed_value(),
    {
        self.next_confirmed.prev()
    }

    /// The sequence number of the last batch speculated (or confirmed directly): the one
    /// before the next speculative batch expected.
    pub fn preemptive_seq_no(&self) -> (s: SeqNo)
        ensures
            s.value == prev_raw(self.next_preemptive_value()),
            next_raw(s.value) == self.next_preemptive_value(),
    {
        self.next_preemptive.prev()
    }

    /// The number of batches awaiting confirmation.
    pub fn pending_count(&self) -> (n: usize)
        ensures
            n == self.pending_updates().len(),
    {
        self.pending.len()
    }

    /// The number of batches in the reorder buffer.
    pub fn staged_count(&self) -> (n: usize)
        ensures
            n == self.staged_batches().len(),
    {
        self.staged.len()
    }

    /// The sequence number of the oldest batch awaiting confirmation.
    pub fn pending_front_seq(&self) -> (r: Option<SeqNo>)
        ensures
            self.pending_updates().len() == 0 ==> r is None,
            self.pending_updates().len() > 0 ==> r == Some(self.pending_updates()[0].batch.seq),
    {
        if self.pending.len() == 0 {
            None
        } else {
            Some(self.pending[0].batch.seq)
        }
    }

    /// The confirmed state.
    pub fn confirmed_state(&self) -> (s: &S)
        ensures
            *s == self.confirmed(),
    {
        &self.confirmed_state
    }

    proof fn lemma_deltas_push(&self, old_self: &Self, p: PendingCachedUpdate<A::Request, A::Reply>)
        requires
            self.pending_updates() == old_self.pending_updates().push(p),
        ensures
            self.pending_deltas() == old_self.pending_deltas().push(p.delta@),
            self.pending_batches() == old_self.pending_batches().push(p.batch),
    {
        assert(self.pending_deltas() =~= old_self.pending_deltas().push(p.delta@));
        assert(self.pending_batches() =~= old_self.pending_batches().push(p.batch));
    }

    /// Speculatively executes one batch known to be next in sequence.
    fn execute_speculatively(&mut self, application: &A, update_batch: UpdateBatch<A::Request>)
        requires
            old(self).wf(),
            old(self).sound(*application),
            update_batch.seq.value == old(self).next_preemptive_value(),
        ensures
            final(self).wf(),
            final(self).sound(*application),
            final(self).confirmed() == old(self).confirmed(),
            final(self).next_confirmed_value() == old(self).next_confirmed_value(),
            final(self).next_preemptive_value() == next_raw(update_batch.seq.value),
            final(self).staged_batches() == old(self).staged_batches(),
            final(self).pending_batches() == old(self).pending_batches().push(update_batch),
            final(self).pending_updates().len() == old(self).pending_updates().len() + 1,
            final(self).pending_updates().subrange(0, old(self).pending_updates().len() as int)
                == old(self).pending_updates(),
    {
        let ghost n = self.pending@.len();
        let seq = update_batch.seq;
        let (delta, replies, samples) = self.engine.speculate(
            application,
            &self.confirmed_state,
            &self.accumulated_cache,
            &update_batch,
        );
        self.record(samples);
        merge_delta_into(&mut self.accumulated_cache, &delta);
        self.next_preemptive = seq.next();
        let entry = PendingCachedUpdate { batch: update_batch, replies, delta };
        let ghost e = entry;
        self.pending.push_back(entry);
        proof {
            self.lemma_deltas_push(old(self), e);
            assert(self.pending_deltas().drop_last() =~= old(self).pending_deltas());
            assert(self.pending@.subrange(0, n as int) =~= old(self).pending@);
            assert forall|i: int| 0 <= i < self.pending@.len() implies #[trigger] self.pending@[i].delta.wf() by {
                if i < n {
                    assert(self.pending@[i] == old(self).pending@[i]);
                }
            }
            assert forall|i: int| 0 <= i < self.pending@.len() - 1 implies #[trigger] self.pending@[i + 1].batch.seq.value
                == next_raw(self.pending@[i].batch.seq.value) by {
                assert(self.pending@[i] == old(self).pending@[i]);
                if i + 1 < n {
                    assert(self.pending@[i + 1] == old(self).pending@[i + 1]);
                }
            }
            crate::model::lemma_overlay_all_is_merge_all(
                self.confirmed_state.contents(),
                old(self).pending_deltas(),
            );
            assert(self.pending_deltas().take(n as int) =~= old(self).pending_deltas());
            assert forall|i: int| 0 <= i < self.pending@.len() implies E::admits(
                *application,
                self.base_of(i),
                self.pending@[i].batch.updates@,
                #[trigger] self.pending@[i].delta@,
                self.pending@[i].replies.views(),
            ) by {
                if i < n {
                    assert(self.pending_deltas().take(i) =~= old(self).pending_deltas().take(i));
                    assert(self.pending@[i] == old(self).pending@[i]);
                }
            }
        }
    }

    /// Speculatively executes the buffered batches that continue the sequence, in order,
    /// until the next one is missing. Returns how many it executed.
    fn drain_staged(&mut self, application: &A) -> (drained: usize)
        requires
            old(self).wf(),
            old(self).sound(*application),
        ensures
            final(self).wf(),
            final(self).sound(*application),
            final(self).confirmed() == old(self).confirmed(),
            final(self).next_confirmed_value() == old(self).next_confirmed_value(),
            final(self).next_preemptive_value() == seq_chain(
                old(self).next_preemptive_value(),
                drained as nat,
            ),
            forall|m: nat|
                m < drained ==> old(self).staged_batches().contains_key(
                    #[trigger] seq_chain(old(self).next_preemptive_value(), m),
                ),
            final(self).staged_batches() == old(self).staged_batches().remove_keys(
                chain_set(old(self).next_preemptive_value(), drained as nat),
            ),
            !final(self).staged_batches().contains_key(final(self).next_preemptive_value()),
            final(self).pending_batches() == old(self).pending_batches() + chain_batches(
                old(self).staged_batches(),
                old(self).next_preemptive_value(),
                drained as nat,
            ),
            final(self).pending_updates().subrange(0, old(self).pending_updates().len() as int)
                == old(self).pending_updates(),
            final(self).pending_updates().len() >= old(self).pending_updates().len(),
    {
        let ghost start = self.next_preemptive.value;
        let ghost staged0 = self.staged@;
        let staged_len = self.staged.len();
        let mut drained: usize = 0;
        proof {
            lemma_chain_set_zero(start);
            assert(staged0.remove_keys(Set::<u32>::empty()) =~= staged0);
            assert(chain_batches(staged0, start, 0) =~= Seq::<UpdateBatch<A::Request>>::empty());
            assert(old(self).pending_batches() + Seq::<UpdateBatch<A::Request>>::empty()
                =~= old(self).pending_batches());
            assert(self.pending@.subrange(0, self.pending@.len() as int) =~= self.pending@);
        }
        loop
            invariant_except_break
                self.wf(),
                self.sound(*application),
                self.confirmed() == old(self).confirmed(),
                self.next_confirmed_value() == old(self).next_confirmed_value(),
                self.next_preemptive_value() == seq_chain(start, drained as nat),
                forall|m: nat|
                    m < drained ==> staged0.contains_key(#[trigger] seq_chain(start, m)),
                self.staged@ == staged0.remove_keys(chain_set(start, drained as nat)),
                self.pending_batches() == old(self).pending_batches() + chain_batches(
                    staged0,
                    start,
                    drained as nat,
                ),
                self.pending@.subrange(0, old(self).pending@.len() as int) == old(self).pending@,
                self.pending@.len() >= old(self).pending@.len(),
                drained + self.staged@.len() == staged0.len(),
                staged0.len() == staged_len,
                self.staged@.dom().finite(),
                start == old(self).next_preemptive_value(),
                staged0 == old(self).staged_batches(),
            ensures
                self.wf(),
                self.sound(*application),
                self.confirmed() == old(self).confirmed(),
                self.next_confirmed_value() == old(self).next_confirmed_value(),
                self.next_preemptive_value() == seq_chain(start, drained as nat),
                forall|m: nat|
                    m < drained ==> staged0.contains_key(#[trigger] seq_chain(start, m)),
                self.staged@ == staged0.remove_keys(chain_set(start, drained as nat)),
                !self.staged@.contains_key(self.next_preemptive_value()),
                self.pending_batches() == old(self).pending_batches() + chain_batches(
                    staged0,
                    start,
                    drained as nat,
                ),
                self.pending@.subrange(0, old(self).pending@.len() as int) == old(self).pending@,
                self.pending@.len() >= old(self).pending@.len(),
            decreases self.staged@.len(),
        {
            let key = self.next_preemptive.value;
            let ghost pre_staged = self.staged@;
            proof {
                if pre_staged.contains_key(key) {
                    assert(self.staged_batches().contains_key(key));
                    assert(pre_staged[key].seq.value == key);
                }
            }
            match self.staged.remove(&key) {
                Some(buffered) => {
                    let ghost before = self.pending@;
                    assert(before.len() >= old(self).pending@.len());
                    let ghost before_batches = self.pending_batches();
                    proof {
                        assert(pre_staged.contains_key(key));
                        assert(staged0.contains_key(key));
                        assert(staged0[key] == buffered);
                        assert(buffered.seq.value == key);
                    }
                    self.execute_speculatively(application, buffered);
                    proof {
                        lemma_chain_set_step(start, drained as nat);
                        assert(self.staged@ =~= staged0.remove_keys(chain_set(start, (drained + 1) as nat)));
                        assert(chain_batches(staged0, start, (drained + 1) as nat)
                            =~= chain_batches(staged0, start, drained as nat).push(buffered));
                        assert(self.pending_batches() =~= old(self).pending_batches() + chain_batches(
                            staged0,
                            start,
                            (drained + 1) as nat,
                        ));
                        assert(self.pending@.subrange(0, old(self).pending@.len() as int)
                            =~= self.pending@.subrange(0, before.len() as int).subrange(0, old(self).pending@.len() as int));
                        assert forall|m: nat| m < drained + 1 implies staged0.contains_key(
                            #[trigger] seq_chain(start, m),
                        ) by {
                            if m == drained {
                                assert(seq_chain(start, m) == key);
                            }
                        }
                    }
                    drained = drained + 1;
                },
                None => {
                    proof {
                        assert(self.staged@ =~= pre_staged);
                    }
                    break ;
                },
            }
        }
        drained
    }
}


impl<S: CRUDState + View, A: CRUDApplication<S>, E: SpeculationEngine<S, A>> SpeculativeState<S, A, E> {
    /// Speculatively executes `update_batch` through a caching view: its writes go into a
    /// layer of its own and the confirmed state is not touched. A batch behind the
    /// speculation is handed back for backtracking; a batch ahead of its turn is buffered
    /// and replayed once the batches in front of it arrive; a batch that closes the gap
    /// also releases the buffered batches that follow it.
    pub fn handle_preemptive_update(
        &mut self,
        application: &A,
        update_batch: UpdateBatch<A::Request>,
    ) -> (r: Result<PreemptiveOutcome, PreemptiveError<A::Request>>)
        requires
            old(self).wf(),
            old(self).sound(*application),
        ensures
            final(self).wf(),
            old(self).aligned() ==> final(self).aligned(),
            final(self).accumulated() == merge_all(final(self).pending_deltas()),
            final(self).sound(*application),
            final(self).confirmed() == old(self).confirmed(),
            final(self).next_confirmed_value() == old(self).next_confirmed_value(),
            update_batch.seq.value < old(self).next_preemptive_value() ==> {
                &&& r matches Err(PreemptiveError::Backtracking(seq, b)) && seq == update_batch.seq
                    && b == update_batch
                &&& *final(self) == *old(self)
            },
            update_batch.seq.value > old(self).next_preemptive_value()
                && old(self).staged_batches().len() >= MAX_STAGED_BATCHES ==> {
                &&& r == Err::<PreemptiveOutcome, PreemptiveError<A::Request>>(
                    PreemptiveError::ReorderBufferFull {
                        seq: update_batch.seq,
                        awaiting: (SeqNo { value: old(self).next_preemptive_value() }),
                        buffered: old(self).staged_batches().len() as usize,
                    },
                )
                &&& *final(self) == *old(self)
            },
            update_batch.seq.value > old(self).next_preemptive_value()
                && old(self).staged_batches().len() < MAX_STAGED_BATCHES ==> {
                &&& r == Ok::<PreemptiveOutcome, PreemptiveError<A::Request>>(
                    PreemptiveOutcome::Staged {
                        awaiting: (SeqNo { value: old(self).next_preemptive_value() }),
                        buffered: final(self).staged_batches().len() as usize,
                    },
                )
                &&& final(self).staged_batches() == old(self).staged_batches().insert(
                    update_batch.seq.value,
                    update_batch,
                )
                &&& final(self).pending_updates() == old(self).pending_updates()
                &&& final(self).next_preemptive_value() == old(self).next_preemptive_value()
                &&& final(self).accumulated() == old(self).accumulated()
            },
            update_batch.seq.value == old(self).next_preemptive_value() ==> {
                &&& r matches Ok(PreemptiveOutcome::Executed { drained })
                &&& {
                    let start = next_raw(update_batch.seq.value);
                    let d = drained as nat;
                    &&& final(self).next_preemptive_value() == seq_chain(start, d)
                    &&& forall|m: nat|
                        m < d ==> old(self).staged_batches().contains_key(
                            #[trigger] seq_chain(start, m),
                        )
                    &&& final(self).staged_batches() == old(self).staged_batches().remove_keys(
                        chain_set(start, d),
                    )
                    &&& !final(self).staged_batches().contains_key(
                        final(self).next_preemptive_value(),
                    )
                    &&& final(self).pending_batches() == old(self).pending_batches().push(
                        update_batch,
                    ) + chain_batches(old(self).staged_batches(), start, d)
                    &&& final(self).pending_updates().subrange(
                        0,
                        old(self).pending_updates().len() as int,
                    ) == old(self).pending_updates()
                }
            },
    {
        let seq = update_batch.seq;
        if seq.value < self.next_preemptive.value {
            return Err(PreemptiveError::Backtracking(seq, update_batch));
        }
        if seq.value > self.next_preemptive.value {
            if self.staged.len() >= MAX_STAGED_BATCHES {
                return Err(
                    PreemptiveError::ReorderBufferFull {
                        seq,
                        awaiting: self.next_preemptive,
                        buffered: self.staged.len(),
                    },
                );
            }
            self.staged.insert(seq.value, update_batch);
            let buffered = self.staged.len();
            self.record(staging_samples(buffered));
            return Ok(
                PreemptiveOutcome::Staged {
                    awaiting: self.next_preemptive,
                    buffered: self.staged.len(),
                },
            );
        }
        self.execute_speculatively(application, update_batch);
        let ghost mid = *self;
        let drained = self.drain_staged(application);
        proof {
            assert(mid.pending_batches() == old(self).pending_batches().push(update_batch));
            assert(self.pending@.subrange(0, old(self).pending@.len() as int)
                =~= self.pending@.subrange(0, mid.pending@.len() as int).subrange(0, old(self).pending@.len() as int));
        }
        Ok(PreemptiveOutcome::Executed { drained })
    }
}


/// Applies a finalized batch to a real state through the application's ordered updates,
/// returning the replies; this is also what executing the batch through CRUD operations does.
fn apply_ordered<S: CRUDState + View, A: CRUDApplication<S>>(
    application: &A,
    state: &mut S,
    batch: &UpdateBatch<A::Request>,
) -> (replies: ReplyBatch<A::Reply>)
    ensures
        (final(state)@, replies.views()) == run_updates(*application, old(state)@, batch.updates@),
        (final(state).contents(), replies.views()) == run_batch(
            *application,
            old(state).contents(),
            batch.updates@,
        ),
{
    let replies = update_batch(application, state, batch);
    proof {
        lemma_run_updates_is_run_batch(*application, old(state)@, batch.updates@);
        application.lemma_view_contents(*old(state));
        application.lemma_view_contents(*state);
    }
    replies
}

/// The contents after executing `batches` in order on `contents`.
pub open spec fn run_batches<S: CRUDState + View, A: CRUDApplication<S>>(
    app: A,
    contents: Contents,
    batches: Seq<UpdateBatch<A::Request>>,
) -> Contents
    decreases batches.len(),
{
    if batches.len() == 0 {
        contents
    } else {
        run_batch(app, run_batches(app, contents, batches.drop_last()), batches.last().updates@).0
    }
}

/// `staged` with each batch of `bs` added under its own sequence number, later ones winning.
pub open spec fn staged_with<R>(staged: Map<u32, UpdateBatch<R>>, bs: Seq<UpdateBatch<R>>) -> Map<
    u32,
    UpdateBatch<R>,
>
    decreases bs.len(),
{
    if bs.len() == 0 {
        staged
    } else {
        staged_with(staged, bs.drop_last()).insert(bs.last().seq.value, bs.last())
    }
}

/// The merge of the layers of `pending`, rebuilt from scratch.
fn rebuild_accumulated_cache<R, P>(pending: &VecDeque<PendingCachedUpdate<R, P>>) -> (c: Cache)
    requires
        forall|i: int| 0 <= i < pending@.len() ==> #[trigger] pending@[i].delta.wf(),
    ensures
        c.wf(),
        c@ == merge_all(deltas_of(pending@)),
{
    let mut acc = Cache::new();
    let mut i: usize = 0;
    proof {
        assert(deltas_of(pending@).take(0) =~= Seq::<Delta>::empty());
    }
    while i < pending.len()
        invariant
            forall|i: int| 0 <= i < pending@.len() ==> #[trigger] pending@[i].delta.wf(),
            0 <= i <= pending@.len(),
            acc.wf(),
            acc@ == merge_all(deltas_of(pending@).take(i as int)),
        decreases pending@.len() - i,
    {
        merge_delta_into(&mut acc, &pending[i].delta);
        proof {
            let d = deltas_of(pending@);
            assert(d.take(i + 1).drop_last() =~= d.take(i as int));
            assert(d.take(i + 1).last() == pending@[i as int].delta@);
        }
        i = i + 1;
    }
    proof {
        assert(deltas_of(pending@).take(pending@.len() as int) =~= deltas_of(pending@));
    }
    acc
}

impl<S: CRUDState + View, A: CRUDApplication<S>, E: SpeculationEngine<S, A>> SpeculativeState<S, A, E> {
    proof fn lemma_sound_after_pop(&self, old_self: &Self, app: A)
        requires
            old_self.sound(app),
            old_self.pending@.len() > 0,
            self.pending@ == old_self.pending@.subrange(1, old_self.pending@.len() as int),
            self.confirmed_state.contents() == overlay(
                old_self.confirmed_state.contents(),
                old_self.pending@[0].delta@,
            ),
        ensures
            self.sound(app),
            self.pending_deltas() == old_self.pending_deltas().drop_first(),
    {
        let d0 = old_self.pending_deltas();
        assert(self.pending_deltas() =~= d0.drop_first());
        assert forall|i: int| 0 <= i < self.pending@.len() implies E::admits(
            app,
            self.base_of(i),
            self.pending@[i].batch.updates@,
            #[trigger] self.pending@[i].delta@,
            self.pending@[i].replies.views(),
        ) by {
            assert(self.pending@[i] == old_self.pending@[i + 1]);
            crate::model::lemma_overlay_all_first(
                old_self.confirmed_state.contents(),
                d0.take(i + 1),
            );
            assert(d0.take(i + 1).drop_first() =~= self.pending_deltas().take(i));
            assert(d0.take(i + 1)[0] == d0[0]);
            assert(old_self.base_of(i + 1) == self.base_of(i));
            assert(old_self.pending@[i + 1] == old_self.pending_updates()[i + 1]);
        }
    }

    /// Throws away all speculative work, returning the batches to the reorder buffer so no
    /// decision is lost (only the layers and replies computed for them).
    fn discard_speculation(&mut self)
        requires
            old(self).wf(),
        ensures
            final(self).wf(),
            final(self).pending_updates().len() == 0,
            final(self).accumulated() == Map::<(Seq<u8>, Seq<u8>), Option<Seq<u8>>>::empty(),
            final(self).staged_batches() == staged_with(
                old(self).staged_batches(),
                old(self).pending_batches(),
            ),
            final(self).confirmed() == old(self).confirmed(),
            final(self).next_confirmed_value() == old(self).next_confirmed_value(),
            final(self).next_preemptive_value() == old(self).next_confirmed_value(),
    {
        let ghost p0 = self.pending@;
        let ghost staged0 = self.staged@;
        let ghost n = p0.len();
        let len = self.pending.len();
        let mut i: usize = 0;
        proof {
            assert(batches_of(p0).take(0) =~= Seq::<UpdateBatch<A::Request>>::empty());
            assert(p0.subrange(0, n as int) =~= p0);
        }
        while self.pending.len() > 0
            invariant
                0 <= i <= n,
                self.pending@ == p0.subrange(i as int, n as int),
                self.staged@ == staged_with(staged0, batches_of(p0).take(i as int)),
                forall|k: u32| #[trigger]
                    self.staged@.contains_key(k) ==> self.staged@[k].seq.value == k,
                n == p0.len(),
                n == len,
                self.confirmed_state == old(self).confirmed_state,
                self.next_confirmed == old(self).next_confirmed,
            decreases self.pending@.len(),
        {
            let update = self.pending.pop_front().unwrap();
            let key = update.batch.seq.value;
            proof {
                let b = batches_of(p0);
                assert(b.take(i + 1).drop_last() =~= b.take(i as int));
                assert(b.take(i + 1).last() == update.batch);
                assert(p0.subrange(i as int, n as int)[0] == p0[i as int]);
                assert(self.pending@ =~= p0.subrange(i + 1, n as int));
            }
            self.staged.insert(key, update.batch);
            i = i + 1;
        }
        proof {
            assert(i == n);
            assert(batches_of(p0).take(n as int) =~= batches_of(p0));
            assert(deltas_of(self.pending@) =~= Seq::<Delta>::empty());
        }
        self.accumulated_cache = Cache::new();
        self.next_preemptive = self.next_confirmed;
    }

    /// Executes a batch straight against the confirmed state, bypassing speculation, then
    /// resumes speculating from whatever is buffered behind it.
    fn execute_directly(&mut self, application: &A, update_batch: UpdateBatch<A::Request>) -> (replies: ReplyBatch<A::Reply>)
        requires
            old(self).wf(),
            old(self).pending_updates().len() == 0,
        ensures
            final(self).wf(),
            final(self).sound(*application),
            (final(self).confirmed()@, replies.views()) == run_updates(
                *application,
                old(self).confirmed()@,
                update_batch.updates@,
            ),
            (final(self).confirmed().contents(), replies.views()) == run_batch(
                *application,
                old(self).confirmed().contents(),
                update_batch.updates@,
            ),
            final(self).next_confirmed_value() == next_raw(update_batch.seq.value),
            exists|d: nat|
                {
                    &&& final(self).next_preemptive_value() == seq_chain(
                        next_raw(update_batch.seq.value),
                        d,
                    )
                    &&& forall|m: nat|
                        m < d ==> old(self).staged_batches().contains_key(
                            #[trigger] seq_chain(next_raw(update_batch.seq.value), m),
                        )
                    &&& final(self).staged_batches() == old(self).staged_batches().remove_keys(
                        chain_set(next_raw(update_batch.seq.value), d),
                    )
                    &&& !final(self).staged_batches().contains_key(
                        final(self).next_preemptive_value(),
                    )
                    &&& final(self).pending_batches() == #[trigger] chain_batches(
                        old(self).staged_batches(),
                        next_raw(update_batch.seq.value),
                        d,
                    )
                },
    {
        let replies = apply_ordered(application, &mut self.confirmed_state, &update_batch);
        let seq = update_batch.seq;
        self.next_confirmed = seq.next();
        self.next_preemptive = seq.next();
        proof {
            assert(deltas_of(self.pending@) =~= Seq::<Delta>::empty());
        }
        let drained = self.drain_staged(application);
        proof {
            assert(Seq::<UpdateBatch<A::Request>>::empty() + chain_batches(
                old(self).staged_batches(),
                next_raw(seq.value),
                drained as nat,
            ) =~= chain_batches(old(self).staged_batches(), next_raw(seq.value), drained as nat));
            assert(batches_of(old(self).pending@) =~= Seq::<UpdateBatch<A::Request>>::empty());
        }
        replies
    }

    /// Confirms the batch at `sequence_no`, which must be the next one to confirm.
    ///
    /// If it was speculated, its layer is applied to the confirmed state, the accumulated
    /// cache is rebuilt from the remaining layers and the replies computed during
    /// speculation are returned. If it is still in the reorder buffer, speculative work
    /// is discarded and the batch is executed directly against the confirmed state.
    pub fn handle_update_confirmed(&mut self, application: &A, sequence_no: SeqNo) -> (r: Result<
        ReplyBatch<A::Reply>,
        ConfirmError,
    >)
        requires
            old(self).wf(),
            old(self).sound(*application),
        ensures
            final(self).wf(),
            old(self).aligned() ==> final(self).aligned(),
            final(self).accumulated() == merge_all(final(self).pending_deltas()),
            final(self).sound(*application),
            sequence_no.value != old(self).next_confirmed_value() ==> {
                &&& r == Err::<ReplyBatch<A::Reply>, ConfirmError>(
                    ConfirmError::OutOfOrderConfirmation {
                        expected: (SeqNo { value: old(self).next_confirmed_value() }),
                        received: sequence_no,
                    },
                )
                &&& *final(self) == *old(self)
            },
            sequence_no.value == old(self).next_confirmed_value() && old(
                self,
            ).pending_updates().len() > 0 && old(self).pending_updates()[0].batch.seq
                == sequence_no ==> {
                &&& r matches Ok(replies)
                &&& replies == old(self).pending_updates()[0].replies
                &&& E::admits(
                    *application,
                    old(self).confirmed().contents(),
                    old(self).pending_batches()[0].updates@,
                    old(self).pending_deltas()[0],
                    replies.views(),
                )
                &&& final(self).confirmed().contents() == overlay(
                    old(self).confirmed().contents(),
                    old(self).pending_deltas()[0],
                )
                &&& final(self).speculative_contents() == old(self).speculative_contents()
                &&& final(self).pending_updates() == old(self).pending_updates().drop_first()
                &&& final(self).next_confirmed_value() == next_raw(sequence_no.value)
                &&& final(self).next_preemptive_value() == old(self).next_preemptive_value()
                &&& final(self).staged_batches() == old(self).staged_batches()
            },
            sequence_no.value == old(self).next_confirmed_value() && !(old(
                self,
            ).pending_updates().len() > 0 && old(self).pending_updates()[0].batch.seq
                == sequence_no) && old(self).staged_batches().contains_key(sequence_no.value) ==> {
                let batch = old(self).staged_batches()[sequence_no.value];
                let staged1 = staged_with(
                    old(self).staged_batches().remove(sequence_no.value),
                    old(self).pending_batches(),
                );
                &&& r matches Ok(replies)
                &&& (final(self).confirmed()@, replies.views())
                    == run_updates(*application, old(self).confirmed()@, batch.updates@)
                &&& (final(self).confirmed().contents(), replies.views())
                    == run_batch(*application, old(self).confirmed().contents(), batch.updates@)
                &&& final(self).next_confirmed_value() == next_raw(sequence_no.value)
                &&& exists|d: nat|
                    {
                        &&& final(self).next_preemptive_value() == seq_chain(
                            next_raw(sequence_no.value),
                            d,
                        )
                        &&& forall|m: nat|
                            m < d ==> staged1.contains_key(
                                #[trigger] seq_chain(next_raw(sequence_no.value), m),
                            )
                        &&& final(self).staged_batches() == staged1.remove_keys(
                            chain_set(next_raw(sequence_no.value), d),
                        )
                        &&& !final(self).staged_batches().contains_key(
                            final(self).next_preemptive_value(),
                        )
                        &&& final(self).pending_batches() == #[trigger] chain_batches(
                            staged1,
                            next_raw(sequence_no.value),
                            d,
                        )
                    }
            },
            sequence_no.value == old(self).next_confirmed_value() && old(
                self,
            ).pending_updates().len() > 0 && old(self).pending_updates()[0].batch.seq
                != sequence_no && !old(self).staged_batches().contains_key(sequence_no.value) ==> {
                &&& r == Err::<ReplyBatch<A::Reply>, ConfirmError>(
                    ConfirmError::SeqMismatch {
                        expected: old(self).pending_updates()[0].batch.seq,
                        received: sequence_no,
                    },
                )
                &&& *final(self) == *old(self)
            },
            sequence_no.value == old(self).next_confirmed_value() && old(
                self,
            ).pending_updates().len() == 0 && !old(self).staged_batches().contains_key(
                sequence_no.value,
            ) ==> {
                &&& r == Err::<ReplyBatch<A::Reply>, ConfirmError>(
                    ConfirmError::EmptyQueue { received: sequence_no },
                )
                &&& *final(self) == *old(self)
            },
    {
        if sequence_no.value != self.next_confirmed.value {
            return Err(
                ConfirmError::OutOfOrderConfirmation {
                    expected: self.next_confirmed,
                    received: sequence_no,
                },
            );
        }
        let route = if self.pending.len() > 0 && self.pending[0].batch.seq.value == sequence_no.value {
            ConfirmRoute::Pending
        } else if self.staged.contains_key(&sequence_no.value) {
            ConfirmRoute::Staged
        } else if self.pending.len() > 0 {
            ConfirmRoute::Mismatch(self.pending[0].batch.seq)
        } else {
            ConfirmRoute::Empty
        };
        match route {
            ConfirmRoute::Pending => {},
            ConfirmRoute::Staged => {
                let batch = self.staged.remove(&sequence_no.value).unwrap();
                let ghost staged1 = staged_with(
                    old(self).staged_batches().remove(sequence_no.value),
                    old(self).pending_batches(),
                );
                proof {
                    assert(batch == old(self).staged_batches()[sequence_no.value]);
                    assert(self.staged_batches() == old(self).staged_batches().remove(sequence_no.value));
                }
                self.discard_speculation();
                proof {
                    assert(self.staged_batches() == staged1);
                    assert(self.confirmed() == old(self).confirmed());
                    assert(forall|k: u32| #[trigger] staged1.contains_key(k) ==> staged1[k].seq.value == k);
                }
                let replies = self.execute_directly(application, batch);
                proof {
                    let start = next_raw(sequence_no.value);
                    let d = choose|d: nat|
                        {
                            &&& self.next_preemptive_value() == seq_chain(start, d)
                            &&& forall|m: nat| m < d ==> staged1.contains_key(#[trigger] seq_chain(start, m))
                            &&& self.pending_batches() == #[trigger] chain_batches(staged1, start, d)
                        };
                    if self.pending_updates().len() > 0 {
                        assert(self.pending_batches()[0] == self.pending_updates()[0].batch);
                        assert(self.pending_batches().len() == d);
                        assert(0 < d);
                        assert(staged1.contains_key(seq_chain(start, 0nat)));
                        assert(chain_batches(staged1, start, d)[0] == staged1[seq_chain(start, 0)]);
                    }
                    assert(exists|d: nat|
                    {
                        &&& self.next_preemptive_value() == seq_chain(
                            next_raw(sequence_no.value),
                            d,
                        )
                        &&& forall|m: nat|
                            m < d ==> staged1.contains_key(
                                #[trigger] seq_chain(next_raw(sequence_no.value), m),
                            )
                        &&& self.staged_batches() == staged1.remove_keys(
                            chain_set(next_raw(sequence_no.value), d),
                        )
                        &&& !self.staged_batches().contains_key(
                            self.next_preemptive_value(),
                        )
                        &&& self.pending_batches() == #[trigger] chain_batches(
                            staged1,
                            next_raw(sequence_no.value),
                            d,
                        )
                    });
                }
                return Ok(replies);
            },
            ConfirmRoute::Mismatch(expected) => {
                return Err(ConfirmError::SeqMismatch { expected, received: sequence_no });
            },
            ConfirmRoute::Empty => {
                return Err(ConfirmError::EmptyQueue { received: sequence_no });
            },
        }
        let update = self.pending.pop_front().unwrap();
        apply_delta_to_state(&mut self.confirmed_state, &update.delta);
        self.accumulated_cache = rebuild_accumulated_cache(&self.pending);
        self.next_confirmed = sequence_no.next();
        proof {
            self.lemma_sound_after_pop(old(self), *application);
            let d = old(self).pending_deltas();
            crate::model::lemma_merge_all_first(d);
            crate::model::lemma_overlay_merge(
                old(self).confirmed_state.contents(),
                d[0],
                merge_all(d.drop_first()),
            );
            assert(old(self).base_of(0) == old(self).confirmed_state.contents()) by {
                assert(d.take(0) =~= Seq::<Delta>::empty());
            }
            assert(old(self).pending@[0] == old(self).pending_updates()[0]);
            assert forall|i: int| 0 <= i < self.pending@.len() - 1 implies #[trigger] self.pending@[i + 1].batch.seq.value
                == next_raw(self.pending@[i].batch.seq.value) by {
                assert(self.pending@[i + 1] == old(self).pending@[i + 2]);
                assert(self.pending@[i] == old(self).pending@[i + 1]);
            }
            assert forall|i: int| 0 <= i < self.pending@.len() implies #[trigger] self.pending@[i].delta.wf() by {
                assert(self.pending@[i] == old(self).pending@[i + 1]);
            }
        }
        Ok(update.replies)
    }
}


impl<S: CRUDState + View, A: CRUDApplication<S>, E: SpeculationEngine<S, A>> SpeculativeState<S, A, E> {
    /// Executes a finalized batch that was never speculated, directly on the confirmed
    /// state. Refused while speculative work is pending (`next_preemptive` differs from
    /// `next_confirmed`, or the pending queue is not empty).
    pub fn handle_confirmed_update(&mut self, application: &A, update_batch: UpdateBatch<A::Request>) -> (r:
        Result<ReplyBatch<A::Reply>, ConfirmError>)
        requires
            old(self).wf(),
            old(self).sound(*application),
        ensures
            final(self).wf(),
            old(self).aligned() ==> final(self).aligned(),
            final(self).sound(*application),
            old(self).aligned() && old(self).pending_updates().len() <= u32::MAX ==> (r is Err <==> old(
                self,
            ).next_preemptive_value() != old(self).next_confirmed_value()),
            (old(self).next_preemptive_value() != old(self).next_confirmed_value() || old(
                self,
            ).pending_updates().len() != 0) ==> {
                &&& r == Err::<ReplyBatch<A::Reply>, ConfirmError>(
                    ConfirmError::PendingPreemptiveUpdates {
                        confirmed_update_seq: update_batch.seq,
                        next_preemptive: (SeqNo { value: old(self).next_preemptive_value() }),
                        next_confirmed: (SeqNo { value: old(self).next_confirmed_value() }),
                    },
                )
                &&& *final(self) == *old(self)
            },
            (old(self).next_preemptive_value() == old(self).next_confirmed_value() && old(
                self,
            ).pending_updates().len() == 0) ==> {
                &&& r matches Ok(replies)
                &&& (final(self).confirmed()@, replies.views()) == run_updates(
                    *application,
                    old(self).confirmed()@,
                    update_batch.updates@,
                )
                &&& (final(self).confirmed().contents(), replies.views()) == run_batch(
                    *application,
                    old(self).confirmed().contents(),
                    update_batch.updates@,
                )
                &&& final(self).next_confirmed_value() == next_raw(update_batch.seq.value)
                &&& final(self).next_preemptive_value() == next_raw(update_batch.seq.value)
                &&& final(self).pending_updates().len() == 0
                &&& final(self).staged_batches() == old(self).staged_batches()
            },
    {
        proof {
            if self.aligned() && self.pending@.len() <= u32::MAX {
                self.lemma_pending_iff_ahead();
            }
        }
        if self.next_preemptive.value != self.next_confirmed.value || self.pending.len() != 0 {
            return Err(
                ConfirmError::PendingPreemptiveUpdates {
                    confirmed_update_seq: update_batch.seq,
                    next_preemptive: self.next_preemptive,
                    next_confirmed: self.next_confirmed,
                },
            );
        }
        let replies = apply_ordered(application, &mut self.confirmed_state, &update_batch);
        let seq = update_batch.seq;
        self.next_confirmed = seq.next();
        self.next_preemptive = seq.next();
        Ok(replies)
    }

    /// Applies catch-up batches directly to the confirmed state, in order, returning each
    /// batch's sequence number and replies. All speculative work, the reorder buffer and
    /// the accumulated cache are cleared first.
    pub fn handle_catch_up(&mut self, application: &A, batches: Vec<UpdateBatch<A::Request>>) -> (results: Vec<
        (SeqNo, ReplyBatch<A::Reply>),
    >)
        requires
            old(self).wf(),
        ensures
            final(self).wf(),
            batches@.len() > 0 || old(self).next_preemptive_value() == old(self).next_confirmed_value() ==> final(self).aligned(),
            final(self).sound(*application),
            final(self).pending_updates().len() == 0,
            final(self).staged_batches() == Map::<u32, UpdateBatch<A::Request>>::empty(),
            final(self).accumulated() == Map::<(Seq<u8>, Seq<u8>), Option<Seq<u8>>>::empty(),
            final(self).confirmed()@ == apply_batches(*application, old(self).confirmed()@, batches@),
            final(self).confirmed().contents() == run_batches(
                *application,
                old(self).confirmed().contents(),
                batches@,
            ),
            batches@.len() == 0 ==> final(self).next_confirmed_value()
                == old(self).next_confirmed_value() && final(self).next_preemptive_value()
                == old(self).next_preemptive_value(),
            batches@.len() > 0 ==> final(self).next_confirmed_value() == next_raw(
                batches@.last().seq.value,
            ) && final(self).next_preemptive_value() == next_raw(batches@.last().seq.value),
            results@.len() == batches@.len(),
            forall|i: int|
                0 <= i < batches@.len() ==> (#[trigger] results@[i]).0 == batches@[i].seq
                    && results@[i].1.views() == run_batch(
                    *application,
                    run_batches(*application, old(self).confirmed().contents(), batches@.take(i)),
                    batches@[i].updates@,
                ).1,
    {
        self.pending.clear();
        self.staged.clear();
        self.accumulated_cache = Cache::new();
        proof {
            assert(deltas_of(self.pending@) =~= Seq::<Delta>::empty());
            assert(batches@.take(0) =~= Seq::<UpdateBatch<A::Request>>::empty());
        }
        let mut results: Vec<(SeqNo, ReplyBatch<A::Reply>)> = Vec::new();
        let mut i: usize = 0;
        while i < batches.len()
            invariant
                0 <= i <= batches@.len(),
                self.wf(),
                self.pending@.len() == 0,
                self.staged@ == Map::<u32, UpdateBatch<A::Request>>::empty(),
                self.accumulated_cache@ == Map::<(Seq<u8>, Seq<u8>), Option<Seq<u8>>>::empty(),
                self.confirmed_state@ == apply_batches(
                    *application,
                    old(self).confirmed_state@,
                    batches@.take(i as int),
                ),
                self.confirmed_state.contents() == run_batches(
                    *application,
                    old(self).confirmed_state.contents(),
                    batches@.take(i as int),
                ),
                i == 0 ==> self.next_confirmed == old(self).next_confirmed && self.next_preemptive
                    == old(self).next_preemptive,
                i > 0 ==> self.next_confirmed.value == next_raw(batches@[i - 1].seq.value)
                    && self.next_preemptive.value == next_raw(batches@[i - 1].seq.value),
                results@.len() == i,
                forall|j: int|
                    0 <= j < i ==> (#[trigger] results@[j]).0 == batches@[j].seq
                        && results@[j].1.views() == run_batch(
                        *application,
                        run_batches(
                            *application,
                            old(self).confirmed_state.contents(),
                            batches@.take(j),
                        ),
                        batches@[j].updates@,
                    ).1,
            decreases batches@.len() - i,
        {
            let batch = &batches[i];
            let seq = batch.seq;
            let replies = apply_ordered(application, &mut self.confirmed_state, batch);
            self.next_confirmed = seq.next();
            self.next_preemptive = seq.next();
            results.push((seq, replies));
            proof {
                assert(batches@.take(i + 1).drop_last() =~= batches@.take(i as int));
                assert(batches@.take(i + 1).last() == batches@[i as int]);
            }
            i = i + 1;
        }
        proof {
            assert(batches@.take(batches@.len() as int) =~= batches@);
        }
        results
    }

    /// Installs a confirmed state snapshot received by state transfer at `seq`. Discards
    /// all speculative work and buffered batches, which the snapshot subsumes.
    pub fn install_confirmed_state(&mut self, seq: SeqNo, state: S)
        requires
            old(self).wf(),
        ensures
            final(self).wf(),
            final(self).aligned(),
            forall|app: A| final(self).sound(app),
            final(self).confirmed() == state,
            final(self).next_confirmed_value() == next_raw(seq.value),
            final(self).next_preemptive_value() == next_raw(seq.value),
            final(self).pending_updates().len() == 0,
            final(self).staged_batches() == Map::<u32, UpdateBatch<A::Request>>::empty(),
            final(self).accumulated() == Map::<(Seq<u8>, Seq<u8>), Option<Seq<u8>>>::empty(),
    {
        self.confirmed_state = state;
        self.next_confirmed = seq.next();
        self.next_preemptive = seq.next();
        self.accumulated_cache = Cache::new();
        self.pending.clear();
        self.staged.clear();
        proof {
            assert(deltas_of(self.pending@) =~= Seq::<Delta>::empty());
        }
    }

    /// Discards the pending batches at or after `backtrack_seq` (with everything speculated
    /// after them) and the buffered batches at or after it, then rebuilds the accumulated
    /// cache from the layers that remain. The confirmed state is unchanged and kept batches
    /// are not re-executed. Refused below the next sequence number to confirm.
    pub fn backtrack(&mut self, backtrack_seq: SeqNo) -> (r: Result<(), BacktrackError>)
        requires
            old(self).wf(),
        ensures
            final(self).wf(),
            old(self).aligned() ==> final(self).aligned(),
            final(self).accumulated() == merge_all(final(self).pending_deltas()),
            forall|app: A| old(self).sound(app) ==> final(self).sound(app),
            final(self).confirmed() == old(self).confirmed(),
            final(self).next_confirmed_value() == old(self).next_confirmed_value(),
            backtrack_seq.value < old(self).next_confirmed_value() ==> {
                &&& r == Err::<(), BacktrackError>(
                    BacktrackError::BacktrackBelowConfirmed {
                        backtrack_seq,
                        next_confirmed: (SeqNo { value: old(self).next_confirmed_value() }),
                    },
                )
                &&& *final(self) == *old(self)
            },
            backtrack_seq.value >= old(self).next_confirmed_value() ==> {
                &&& r is Ok
                &&& exists|k: int|
                    {
                        &&& 0 <= k <= old(self).pending_updates().len()
                        &&& final(self).pending_updates() == #[trigger] old(
                            self,
                        ).pending_updates().take(k)
                        &&& forall|j: int|
                            0 <= j < k ==> (#[trigger] old(self).pending_updates()[j]).batch.seq.value
                                < backtrack_seq.value
                        &&& k < old(self).pending_updates().len() ==> old(
                            self,
                        ).pending_updates()[k].batch.seq.value >= backtrack_seq.value
                    }
                &&& final(self).staged_batches() == old(self).staged_batches().restrict(
                    Set::new(|key: u32| key < backtrack_seq.value),
                )
                &&& final(self).pending_updates().len() == 0 ==> final(self).next_preemptive_value()
                    == old(self).next_confirmed_value()
                &&& final(self).pending_updates().len() > 0 ==> final(self).next_preemptive_value()
                    == next_raw(final(self).pending_updates().last().batch.seq.value)
            },
    {
        if backtrack_seq.value < self.next_confirmed.value {
            return Err(
                BacktrackError::BacktrackBelowConfirmed {
                    backtrack_seq,
                    next_confirmed: self.next_confirmed,
                },
            );
        }
        // Keep the pending batches before the first one at or after the backtrack point.
        let mut k: usize = 0;
        while k < self.pending.len() && self.pending[k].batch.seq.value < backtrack_seq.value
            invariant
                0 <= k <= self.pending@.len(),
                forall|j: int| 0 <= j < k ==> (#[trigger] self.pending@[j]).batch.seq.value < backtrack_seq.value,
            decreases self.pending@.len() - k,
        {
            k = k + 1;
        }
        let ghost p0 = self.pending@;
        self.pending.truncate(k);
        proof {
            assert(self.pending@ == p0.take(k as int));
            assert forall|i: int| 0 <= i < self.pending@.len() implies #[trigger] self.pending@[i].delta.wf() by {
                assert(self.pending@[i] == p0[i]);
            }
            assert forall|i: int| 0 <= i < self.pending@.len() - 1 implies #[trigger] self.pending@[i + 1].batch.seq.value
                == next_raw(self.pending@[i].batch.seq.value) by {
                assert(self.pending@[i] == p0[i]);
                assert(self.pending@[i + 1] == p0[i + 1]);
            }
        }

        // Buffered batches at or after the backtrack point are being re-decided.
        let ghost p1 = self.pending@;
        let ghost keyed = forall|k: u32| #[trigger]
            self.staged@.contains_key(k) ==> self.staged@[k].seq.value == k;
        assert(keyed);
        let mut doomed: Vec<u32> = Vec::new();
        for key in it: self.staged.keys()
            invariant
                forall|j: int| 0 <= j < doomed@.len() ==> doomed@[j] >= backtrack_seq.value,
                forall|j: int|
                    0 <= j < it.index() && *it.seq()[j] >= backtrack_seq.value ==> doomed@.contains(
                        *it.seq()[j],
                    ),
        {
            let ghost old_doomed = doomed@;
            if *key >= backtrack_seq.value {
                doomed.push(*key);
            }
            proof {
                assert forall|x: u32| old_doomed.contains(x) implies doomed@.contains(x) by {
                    let m = choose|m: int| 0 <= m < old_doomed.len() && old_doomed[m] == x;
                    assert(doomed@[m] == x);
                }
                if *key >= backtrack_seq.value {
                    assert(doomed@[doomed@.len() - 1] == *key);
                }
            }
        }
        let ghost staged0 = self.staged@;
        let mut i: usize = 0;
        while i < doomed.len()
            invariant
                0 <= i <= doomed@.len(),
                self.staged@ == staged0.remove_keys(doomed@.take(i as int).to_set()),
                self.pending@ == p1,
                self.confirmed_state == old(self).confirmed_state,
                self.next_confirmed == old(self).next_confirmed,
                forall|k: u32| #[trigger]
                    staged0.contains_key(k) ==> staged0[k].seq.value == k,
            decreases doomed@.len() - i,
        {
            self.staged.remove(&doomed[i]);
            proof {
                let t1 = doomed@.take(i + 1);
                let t0 = doomed@.take(i as int);
                assert forall|x: u32| t1.contains(x) implies t0.to_set().insert(doomed@[i as int]).contains(x) by {
                    let m = choose|m: int| 0 <= m < t1.len() && t1[m] == x;
                    if m < i {
                        assert(t0[m] == x);
                    }
                }
                assert forall|x: u32| t0.to_set().insert(doomed@[i as int]).contains(x) implies t1.contains(x) by {
                    if x == doomed@[i as int] {
                        assert(t1[i as int] == x);
                    } else {
                        let m = choose|m: int| 0 <= m < t0.len() && t0[m] == x;
                        assert(t1[m] == x);
                    }
                }
                assert(t1.to_set() =~= t0.to_set().insert(doomed@[i as int]));
                assert(self.staged@ =~= staged0.remove_keys(doomed@.take(i + 1).to_set()));
            }
            i = i + 1;
        }
        proof {
            assert(doomed@.take(doomed@.len() as int) =~= doomed@);
            assert(self.staged@ =~= staged0.restrict(Set::new(|key: u32| key < backtrack_seq.value)));
            assert(self.pending@ == p1);
            assert forall|i: int| 0 <= i < self.pending@.len() implies #[trigger] self.pending@[i].delta.wf() by {
                assert(self.pending@[i] == p0[i]);
            }
        }

        self.next_preemptive = if self.pending.len() > 0 {
            let last = self.pending.len() - 1;
            self.pending[last].batch.seq.next()
        } else {
            self.next_confirmed
        };
        self.accumulated_cache = rebuild_accumulated_cache(&self.pending);
        proof {
            assert(self.pending_updates() == old(self).pending_updates().take(k as int));
            assert forall|app: A| old(self).sound(app) implies self.sound(app) by {
                assert forall|i: int| 0 <= i < self.pending@.len() implies E::admits(
                    app,
                    self.base_of(i),
                    self.pending@[i].batch.updates@,
                    #[trigger] self.pending@[i].delta@,
                    self.pending@[i].replies.views(),
                ) by {
                    assert(self.pending@[i] == old(self).pending@[i]);
                    assert(self.pending_deltas().take(i) =~= old(self).pending_deltas().take(i));
                    assert(old(self).pending@[i] == old(self).pending_updates()[i]);
                }
            }
        }
        Ok(())
    }
}


impl<S: CRUDState + View, A: CRUDApplication<S>> SpeculativeState<S, A, SequentialSpeculation> {
    /// A sequential state that expects `initial_state.0` next, both for speculation and
    /// confirmation.
    pub fn new(initial_state: (SeqNo, S)) -> (s: Self)
        ensures
            s.wf(),
            s.aligned(),
            forall|app: A| s.sound(app),
            s.confirmed() == initial_state.1,
            s.next_confirmed_value() == initial_state.0.value,
            s.next_preemptive_value() == initial_state.0.value,
            s.pending_updates().len() == 0,
            s.staged_batches() == Map::<u32, UpdateBatch<A::Request>>::empty(),
    {
        Self::with_engine(initial_state, SequentialSpeculation)
    }

    proof fn lemma_base_is_prefix_run(&self, app: A, i: int)
        requires
            self.sound(app),
            0 <= i <= self.pending_updates().len(),
        ensures
            self.base_of(i) == run_batches(
                app,
                self.confirmed().contents(),
                self.pending_batches().take(i),
            ),
        decreases i,
    {
        let c = self.confirmed().contents();
        let d = self.pending_deltas();
        let b = self.pending_batches();
        if i == 0 {
            assert(d.take(0) =~= Seq::<Delta>::empty());
            assert(b.take(0) =~= Seq::<UpdateBatch<A::Request>>::empty());
        } else {
            self.lemma_base_is_prefix_run(app, i - 1);
            assert(d.take(i).drop_last() =~= d.take(i - 1));
            assert(d.take(i).last() == self.pending_updates()[i - 1].delta@);
            assert(b.take(i).drop_last() =~= b.take(i - 1));
            assert(b.take(i).last() == self.pending_updates()[i - 1].batch);
        }
    }

    /// Speculation is sequential execution: what reads observe through the accumulated
    /// cache is exactly the confirmed state after executing every pending batch in order,
    /// and each pending batch's replies are those that executing it at its turn produces.
    pub proof fn lemma_speculation_is_sequential_execution(&self, app: A)
        requires
            self.wf(),
            self.sound(app),
        ensures
            self.speculative_contents() == run_batches(
                app,
                self.confirmed().contents(),
                self.pending_batches(),
            ),
            forall|i: int|
                0 <= i < self.pending_updates().len() ==> (
                #[trigger] self.pending_updates()[i]).replies.views() == run_batch(
                    app,
                    run_batches(
                        app,
                        self.confirmed().contents(),
                        self.pending_batches().take(i),
                    ),
                    self.pending_batches()[i].updates@,
                ).1,
    {
        assert(self.accumulated() == merge_all(self.pending_deltas()));
        self.lemma_speculative_contents(app);
        self.lemma_pending_replies(app);
    }

    proof fn lemma_speculative_contents(&self, app: A)
        requires
            self.accumulated() == merge_all(self.pending_deltas()),
            self.sound(app),
        ensures
            self.speculative_contents() == run_batches(
                app,
                self.confirmed().contents(),
                self.pending_batches(),
            ),
    {
        let n = self.pending_updates().len() as int;
        self.lemma_base_is_prefix_run(app, n);
        assert(self.pending_deltas().take(n) =~= self.pending_deltas());
        assert(self.pending_batches().take(n) =~= self.pending_batches());
        crate::model::lemma_overlay_all_is_merge_all(
            self.confirmed().contents(),
            self.pending_deltas(),
        );
    }

    proof fn lemma_pending_replies(&self, app: A)
        requires
            self.sound(app),
        ensures
            forall|i: int|
                0 <= i < self.pending_updates().len() ==> (
                #[trigger] self.pending_updates()[i]).replies.views() == run_batch(
                    app,
                    run_batches(
                        app,
                        self.confirmed().contents(),
                        self.pending_batches().take(i),
                    ),
                    self.pending_batches()[i].updates@,
                ).1,
    {
        assert forall|i: int| 0 <= i < self.pending_updates().len() implies (
        #[trigger] self.pending_updates()[i]).replies.views() == run_batch(
            app,
            run_batches(app, self.confirmed().contents(), self.pending_batches().take(i)),
            self.pending_batches()[i].updates@,
        ).1 by {
            self.lemma_base_is_prefix_run(app, i);
            let _d = self.pending_updates()[i].delta@;
            assert(self.pending_batches()[i] == self.pending_updates()[i].batch);
        }
    }
}

} // verus!
