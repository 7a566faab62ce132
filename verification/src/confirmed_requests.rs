use crate::application::{run_updates, Application};
use crate::batch::{ReplyBatch, Update, UpdateBatch, UpdateInfo, UpdateReply};
use crate::exec_handle::UnorderedBatch;
use crate::seq_no::SeqNo;
use rayon::iter::{IntoParallelRefIterator, ParallelIterator};
use rayon::ThreadPool;
use vstd::prelude::*;

verus! {

/// The replies to unordered requests, each computed on `state` alone.
pub open spec fn unordered_replies<S: View, A: Application<S>>(app: A, state: S::V, updates: Seq<Update<A::Request>>) -> Seq<
    (UpdateInfo, <A::Reply as DeepView>::V),
> {
    updates.map_values(|u: Update<A::Request>| (u.info, app.unordered_spec(state, u.operation)))
}

/// Each unordered request is answered from its own operation: there is one reply per
/// request, and the reply at position `i` carries the info of request `i` and what executing
/// request `i`'s operation without ordering on the state gives.
pub proof fn lemma_unordered_reply_is_own<S: View, A: Application<S>>(
    app: A,
    state: S::V,
    updates: Seq<Update<A::Request>>,
)
    ensures
        unordered_replies(app, state, updates).len() == updates.len(),
        forall|i: int|
            0 <= i < updates.len() ==> #[trigger] unordered_replies(app, state, updates)[i] == (
                updates[i].info,
                app.unordered_spec(state, updates[i].operation),
            ),
{
}

/// The reply to one unordered operation, executed on `state`.
pub fn execute_unordered_one<S: View, A: Application<S>>(
    application: &A,
    state: &S,
    update: &Update<A::Request>,
) -> (r: UpdateReply<A::Reply>)
    ensures
        r.info == update.info,
        r.reply.deep_view() == application.unordered_spec(state@, update.operation),
{
    UpdateReply { info: update.info, reply: application.unordered_execution(state, &update.operation) }
}

/// Executes every unordered operation on `state` on the threads of `pool`, through rayon's
/// `ThreadPool::install` and an indexed parallel iterator collected into a `Vec`.
///
/// Trusted: rayon calls the closure once per operation and `collect` keeps the replies in
/// the order of the operations.
#[verifier::external_body]
pub(crate) fn run_unordered_in_parallel<S: View + Sync, A: Application<S> + Sync>(
    pool: &ThreadPool,
    application: &A,
    state: &S,
    updates: &Vec<Update<A::Request>>,
) -> (replies: Vec<UpdateReply<A::Reply>>) where A::Request: Sync, A::Reply: Send
    ensures
        replies@.len() == updates@.len(),
        forall|i: int|
            0 <= i < updates@.len() ==> (#[trigger] replies@[i]).info == updates@[i].info
                && replies@[i].reply.deep_view() == application.unordered_spec(
                state@,
                updates@[i].operation,
            ),
{
    pool.install(|| updates.par_iter().map(|u| execute_unordered_one(application, state, u)).collect())
}

/// The authoritative copy of the state: only confirmed batches are applied to it.
pub struct ConfirmedRequestPipeline<S> {
    current_confirmed_seq_no: SeqNo,
    confirmed_state: S,
}

impl<S: View> ConfirmedRequestPipeline<S> {
    /// The sequence number of the last batch applied.
    pub closed spec fn seq(&self) -> u32 {
        self.current_confirmed_seq_no.value
    }

    /// The confirmed state.
    pub closed spec fn state(&self) -> S {
        self.confirmed_state
    }

    /// A pipeline whose state `initial_state` is at `seq`.
    pub fn new(seq: SeqNo, initial_state: S) -> (p: Self)
        ensures
            p.seq() == seq.value,
            p.state() == initial_state,
    {
        ConfirmedRequestPipeline { current_confirmed_seq_no: seq, confirmed_state: initial_state }
    }

    /// The sequence number of the last batch applied.
    pub fn sequence_number(&self) -> (s: SeqNo)
        ensures
            s.value == self.seq(),
    {
        self.current_confirmed_seq_no
    }

    /// The confirmed state.
    pub fn confirmed_state(&self) -> (s: &S)
        ensures
            *s == self.state(),
    {
        &self.confirmed_state
    }

    /// Applies a confirmed batch and moves to its sequence number.
    pub fn execute_update<A: Application<S>>(&mut self, application: &A, update_batch: UpdateBatch<A::Request>) -> (replies:
        ReplyBatch<A::Reply>)
        ensures
            (final(self).state()@, replies.views()) == run_updates(
                *application,
                old(self).state()@,
                update_batch.updates@,
            ),
            final(self).seq() == update_batch.seq.value,
    {
        let replies = crate::application::update_batch(application, &mut self.confirmed_state, &update_batch);
        self.current_confirmed_seq_no = update_batch.seq;
        replies
    }

    /// Answers unordered requests on the confirmed state, without changing it, on the
    /// threads of `thread_pool`.
    pub fn execute_read<A: Application<S> + Sync>(
        &self,
        application: &A,
        update_batch: UnorderedBatch<A::Request>,
        thread_pool: &ThreadPool,
    ) -> (replies: ReplyBatch<A::Reply>) where S: Sync, A::Request: Sync, A::Reply: Send
        ensures
            replies.views() == unordered_replies(*application, self.state()@, update_batch.updates@),
            replies.views().len() == update_batch.updates@.len(),
            forall|i: int|
                0 <= i < update_batch.updates@.len() ==> #[trigger] replies.views()[i] == (
                    update_batch.updates@[i].info,
                    application.unordered_spec(self.state()@, update_batch.updates@[i].operation),
                ),
    {
        let replies = run_unordered_in_parallel(
            thread_pool,
            application,
            &self.confirmed_state,
            &update_batch.updates,
        );
        let r = ReplyBatch { replies };
        assert(r.views() =~= unordered_replies(*application, self.state()@, update_batch.updates@));
        proof {
            lemma_unordered_reply_is_own(*application, self.state()@, update_batch.updates@);
        }
        r
    }

    /// Replaces the state with one received by state transfer at `seq_no`.
    pub fn install_state_message(&mut self, seq_no: SeqNo, state: S)
        ensures
            final(self).seq() == seq_no.value,
            final(self).state() == state,
    {
        self.current_confirmed_seq_no = seq_no;
        self.confirmed_state = state;
    }
}

impl<S: View + Clone> ConfirmedRequestPipeline<S> {
    /// The sequence number and a copy of the state.
    pub fn take_state_snapshot(&self) -> (r: (SeqNo, S))
        ensures
            r.0.value == self.seq(),
            cloned::<S>(self.state(), r.1),
    {
        (self.current_confirmed_seq_no, self.confirmed_state.clone())
    }
}

} // verus!
