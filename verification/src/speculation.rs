use crate::application::{run_batch, speculate_batch, CRUDApplication};
use crate::batch::{ReplyBatch, Update, UpdateBatch, UpdateInfo};
use crate::cache::Cache;
use crate::crud::CRUDState;
use crate::metric::{sequential_batch_samples, MetricSample, CACHE_OPS_PER_BATCH_ID};
use crate::model::{overlay, Contents, Delta};
use vstd::prelude::*;

verus! {

/// How a preemptive executor runs one batch speculatively: on the confirmed state with the
/// accumulated cache on top, producing a layer of writes and the batch's replies without
/// touching either input.
///
/// `admits` says which layers and replies the engine may produce for a batch executed on
/// given base contents.
pub trait SpeculationEngine<S: CRUDState + View, A: CRUDApplication<S>> {
    /// Whether `delta` and `replies` are an outcome of executing `updates` on `base`.
    spec fn admits(
        app: A,
        base: Contents,
        updates: Seq<Update<A::Request>>,
        delta: Delta,
        replies: Seq<(UpdateInfo, <A::Reply as DeepView>::V)>,
    ) -> bool;

    /// Executes `batch` over `confirmed_state` with `accumulated_cache` on top, returning
    /// the layer of writes, the replies and the metric samples of the batch.
    fn speculate(
        &self,
        application: &A,
        confirmed_state: &S,
        accumulated_cache: &Cache,
        batch: &UpdateBatch<A::Request>,
    ) -> (r: (Cache, ReplyBatch<A::Reply>, Vec<MetricSample>))
        requires
            accumulated_cache.wf(),
        ensures
            r.0.wf(),
            Self::admits(
                *application,
                overlay(confirmed_state.contents(), accumulated_cache@),
                batch.updates@,
                r.0@,
                r.1.views(),
            ),
    ;
}

/// Executes the operations of a batch one after the other through a single caching view.
pub struct SequentialSpeculation;

impl<S: CRUDState + View, A: CRUDApplication<S>> SpeculationEngine<S, A> for SequentialSpeculation {
    /// The layer placed on the base gives exactly the contents of sequential execution, and
    /// the replies are those of sequential execution.
    open spec fn admits(
        app: A,
        base: Contents,
        updates: Seq<Update<A::Request>>,
        delta: Delta,
        replies: Seq<(UpdateInfo, <A::Reply as DeepView>::V)>,
    ) -> bool {
        (overlay(base, delta), replies) == run_batch(app, base, updates)
    }

    fn speculate(
        &self,
        application: &A,
        confirmed_state: &S,
        accumulated_cache: &Cache,
        batch: &UpdateBatch<A::Request>,
    ) -> (r: (Cache, ReplyBatch<A::Reply>, Vec<MetricSample>))
        ensures
            r.2@ == sequential_batch_samples(batch.updates@.len() as usize),
    {
        let (delta, replies) = speculate_batch(application, confirmed_state, accumulated_cache, batch);
        let mut samples: Vec<MetricSample> = Vec::new();
        samples.push(MetricSample::Count { id: CACHE_OPS_PER_BATCH_ID, value: batch.updates.len() });
        assert(samples@ =~= sequential_batch_samples(batch.updates@.len() as usize));
        (delta, replies, samples)
    }
}

} // verus!
