use vstd::prelude::*;

verus! {

/// How a metric is collected.
#[derive(Clone, Copy, Debug, PartialEq, Eq, Structural)]
pub enum MetricKind {
    /// Durations of timed spans.
    Duration,
    /// A running total.
    Counter,
    /// Sampled values, averaged.
    Count,
}

/// The level from which a metric is kept.
#[derive(Clone, Copy, Debug, PartialEq, Eq, Structural)]
pub enum MetricLevel {
    Debug,
    Info,
}

/// A metric to register: its identifier, name, kind and level.
#[derive(Debug)]
pub struct MetricDescriptor {
    pub id: usize,
    pub name: String,
    pub kind: MetricKind,
    pub level: MetricLevel,
}

/// Time from confirmed-update enqueue at the confirmed worker to actual execution.
pub const CONFIRMED_WORKER_LATENCY: &'static str = "CONFIRMED_WORKER_LATENCY";
/// The identifier of `CONFIRMED_WORKER_LATENCY`.
pub const CONFIRMED_WORKER_LATENCY_ID: usize = 800;

/// Time for the confirmed worker to re-execute a batch on the authoritative state.
pub const CONFIRM_EXECUTION_TIME: &'static str = "CONFIRM_EXECUTION_TIME";
/// The identifier of `CONFIRM_EXECUTION_TIME`.
pub const CONFIRM_EXECUTION_TIME_ID: usize = 801;

/// Time to speculatively execute a batch through a caching view.
pub const CACHE_PREEMPTIVE_EXECUTION_TIME: &'static str = "CACHE_PREEMPTIVE_EXECUTION_TIME";
/// The identifier of `CACHE_PREEMPTIVE_EXECUTION_TIME`.
pub const CACHE_PREEMPTIVE_EXECUTION_TIME_ID: usize = 802;

/// Time to apply a pre-computed layer to the confirmed state on confirmation.
pub const CACHE_CONFIRM_APPLICATION_TIME: &'static str = "CACHE_CONFIRM_APPLICATION_TIME";
/// The identifier of `CACHE_CONFIRM_APPLICATION_TIME`.
pub const CACHE_CONFIRM_APPLICATION_TIME_ID: usize = 803;

/// Time for the speculating worker of the dual-state executor to execute a batch.
pub const DS_PREEMPTIVE_EXECUTION_TIME: &'static str = "DS_PREEMPTIVE_EXECUTION_TIME";
/// The identifier of `DS_PREEMPTIVE_EXECUTION_TIME`.
pub const DS_PREEMPTIVE_EXECUTION_TIME_ID: usize = 804;

/// Time from a batch's speculative execution to its confirmation (dual-state).
pub const DS_SPECULATION_TO_CONFIRM_LATENCY: &'static str = "DS_SPECULATION_TO_CONFIRM_LATENCY";
/// The identifier of `DS_SPECULATION_TO_CONFIRM_LATENCY`.
pub const DS_SPECULATION_TO_CONFIRM_LATENCY_ID: usize = 805;

/// Number of backtracks in the dual-state executor.
pub const DS_BACKTRACK_COUNT: &'static str = "DS_BACKTRACK_COUNT";
/// The identifier of `DS_BACKTRACK_COUNT`.
pub const DS_BACKTRACK_COUNT_ID: usize = 806;

/// Number of operations per speculatively executed batch (dual-state).
pub const DS_OPS_PER_BATCH: &'static str = "DS_OPS_PER_BATCH";
/// The identifier of `DS_OPS_PER_BATCH`.
pub const DS_OPS_PER_BATCH_ID: usize = 807;

/// Time from a batch's speculative execution to its confirmation (cache-based).
pub const CACHE_SPECULATION_TO_CONFIRM_LATENCY: &'static str = "CACHE_SPECULATION_TO_CONFIRM_LATENCY";
/// The identifier of `CACHE_SPECULATION_TO_CONFIRM_LATENCY`.
pub const CACHE_SPECULATION_TO_CONFIRM_LATENCY_ID: usize = 809;

/// Number of pending updates when a confirmation arrives.
pub const CACHE_PENDING_QUEUE_SIZE: &'static str = "CACHE_PENDING_QUEUE_SIZE";
/// The identifier of `CACHE_PENDING_QUEUE_SIZE`.
pub const CACHE_PENDING_QUEUE_SIZE_ID: usize = 810;

/// Number of backtracks in the cache-based executor.
pub const CACHE_BACKTRACK_COUNT: &'static str = "CACHE_BACKTRACK_COUNT";
/// The identifier of `CACHE_BACKTRACK_COUNT`.
pub const CACHE_BACKTRACK_COUNT_ID: usize = 811;

/// Number of entries in the layer applied per confirmed batch.
pub const CACHE_DELTA_SIZE: &'static str = "CACHE_DELTA_SIZE";
/// The identifier of `CACHE_DELTA_SIZE`.
pub const CACHE_DELTA_SIZE_ID: usize = 812;

/// Number of operations per speculatively executed batch (cache-based).
pub const CACHE_OPS_PER_BATCH: &'static str = "CACHE_OPS_PER_BATCH";
/// The identifier of `CACHE_OPS_PER_BATCH`.
pub const CACHE_OPS_PER_BATCH_ID: usize = 813;

/// Time for unordered (read-only) execution on the thread pool.
pub const CACHE_UNORDERED_EXECUTION_TIME: &'static str = "CACHE_UNORDERED_EXECUTION_TIME";
/// The identifier of `CACHE_UNORDERED_EXECUTION_TIME`.
pub const CACHE_UNORDERED_EXECUTION_TIME_ID: usize = 814;

/// Time to rebuild the accumulated cache after a confirmation or backtrack.
pub const CACHE_REBUILD_TIME: &'static str = "CACHE_REBUILD_TIME";
/// The identifier of `CACHE_REBUILD_TIME`.
pub const CACHE_REBUILD_TIME_ID: usize = 815;

/// Time from a speculative batch's enqueueing to the start of its execution.
pub const CACHE_ENQUEUE_TO_EXECUTE_LATENCY: &'static str = "CACHE_ENQUEUE_TO_EXECUTE_LATENCY";
/// The identifier of `CACHE_ENQUEUE_TO_EXECUTE_LATENCY`.
pub const CACHE_ENQUEUE_TO_EXECUTE_LATENCY_ID: usize = 816;

/// Time for one parallel, collision-detection and re-execution cycle.
pub const SCALABLE_PREEMPTIVE_EXECUTION_TIME: &'static str = "SCALABLE_PREEMPTIVE_EXECUTION_TIME";
/// The identifier of `SCALABLE_PREEMPTIVE_EXECUTION_TIME`.
pub const SCALABLE_PREEMPTIVE_EXECUTION_TIME_ID: usize = 817;

/// Number of colliding operations per batch (parallel speculation).
pub const SCALABLE_COLLISION_COUNT: &'static str = "SCALABLE_COLLISION_COUNT";
/// The identifier of `SCALABLE_COLLISION_COUNT`.
pub const SCALABLE_COLLISION_COUNT_ID: usize = 818;

/// Per-batch collision rate, in permille (parallel speculation).
pub const SCALABLE_COLLISION_RATE: &'static str = "SCALABLE_COLLISION_RATE";
/// The identifier of `SCALABLE_COLLISION_RATE`.
pub const SCALABLE_COLLISION_RATE_ID: usize = 819;

/// Number of operations per speculatively executed batch (parallel speculation).
pub const SCALABLE_OPS_PER_BATCH: &'static str = "SCALABLE_OPS_PER_BATCH";
/// The identifier of `SCALABLE_OPS_PER_BATCH`.
pub const SCALABLE_OPS_PER_BATCH_ID: usize = 820;

/// Number of batches held in the reorder buffer.
pub const REORDER_BUFFER_SIZE: &'static str = "REORDER_BUFFER_SIZE";
/// The identifier of `REORDER_BUFFER_SIZE`.
pub const REORDER_BUFFER_SIZE_ID: usize = 821;

/// Number of batches that arrived out of order and were buffered.
pub const REORDER_STAGED_COUNT: &'static str = "REORDER_STAGED_COUNT";
/// The identifier of `REORDER_STAGED_COUNT`.
pub const REORDER_STAGED_COUNT_ID: usize = 822;

/// Number of batches executed directly because speculation was abandoned.
pub const SPECULATION_FALLBACK_COUNT: &'static str = "SPECULATION_FALLBACK_COUNT";
/// The identifier of `SPECULATION_FALLBACK_COUNT`.
pub const SPECULATION_FALLBACK_COUNT_ID: usize = 823;

/// Time from a batch's speculative execution to its confirmation (parallel speculation).
pub const SCALABLE_SPECULATION_TO_CONFIRM_LATENCY: &'static str = "SCALABLE_SPECULATION_TO_CONFIRM_LATENCY";
/// The identifier of `SCALABLE_SPECULATION_TO_CONFIRM_LATENCY`.
pub const SCALABLE_SPECULATION_TO_CONFIRM_LATENCY_ID: usize = 826;

/// Time to apply a pre-computed layer on confirmation (parallel speculation).
pub const SCALABLE_CONFIRM_APPLICATION_TIME: &'static str = "SCALABLE_CONFIRM_APPLICATION_TIME";
/// The identifier of `SCALABLE_CONFIRM_APPLICATION_TIME`.
pub const SCALABLE_CONFIRM_APPLICATION_TIME_ID: usize = 827;

/// Time from a commit's enqueueing at the executor to its dequeueing.
pub const CONFIRM_ENQUEUE_TO_APPLY_LATENCY: &'static str = "CONFIRM_ENQUEUE_TO_APPLY_LATENCY";
/// The identifier of `CONFIRM_ENQUEUE_TO_APPLY_LATENCY`.
pub const CONFIRM_ENQUEUE_TO_APPLY_LATENCY_ID: usize = 828;

/// Time from a commit's enqueueing to its replies being ready.
pub const CONFIRM_TO_REPLY_TIME: &'static str = "CONFIRM_TO_REPLY_TIME";
/// The identifier of `CONFIRM_TO_REPLY_TIME`.
pub const CONFIRM_TO_REPLY_TIME_ID: usize = 829;

/// `CONFIRM_TO_REPLY_TIME` for confirmations whose replies were not speculated.
pub const CONFIRM_BLOCKED_ON_EXEC_TIME: &'static str = "CONFIRM_BLOCKED_ON_EXEC_TIME";
/// The identifier of `CONFIRM_BLOCKED_ON_EXEC_TIME`.
pub const CONFIRM_BLOCKED_ON_EXEC_TIME_ID: usize = 830;

/// Share of confirmations served from speculated replies, in permille.
pub const SPECULATION_HIT_RATE: &'static str = "SPECULATION_HIT_RATE";
/// The identifier of `SPECULATION_HIT_RATE`.
pub const SPECULATION_HIT_RATE_ID: usize = 831;

/// Ordered operations whose execution was confirmed, per one-second window.
pub const OPERATIONS_EXECUTED_PER_SECOND: &'static str = "OPERATIONS_EXECUTED_PER_SECOND";
/// The identifier of `OPERATIONS_EXECUTED_PER_SECOND`.
pub const OPERATIONS_EXECUTED_PER_SECOND_ID: usize = 824;

/// Unordered operations executed, per one-second window.
pub const UNORDERED_OPS_PER_SECOND: &'static str = "UNORDERED_OPERATIONS_EXECUTED_PER_SECOND";
/// The identifier of `UNORDERED_OPS_PER_SECOND`.
pub const UNORDERED_OPS_PER_SECOND_ID: usize = 825;

/// The identifier, kind and level of each metric, in registration order.
pub open spec fn metric_table() -> Seq<(usize, MetricKind, MetricLevel)> {
    seq![
        (CONFIRMED_WORKER_LATENCY_ID, MetricKind::Duration, MetricLevel::Info),
        (CONFIRM_EXECUTION_TIME_ID, MetricKind::Duration, MetricLevel::Info),
        (CACHE_PREEMPTIVE_EXECUTION_TIME_ID, MetricKind::Duration, MetricLevel::Info),
        (CACHE_CONFIRM_APPLICATION_TIME_ID, MetricKind::Duration, MetricLevel::Info),
        (DS_PREEMPTIVE_EXECUTION_TIME_ID, MetricKind::Duration, MetricLevel::Info),
        (DS_SPECULATION_TO_CONFIRM_LATENCY_ID, MetricKind::Duration, MetricLevel::Info),
        (DS_BACKTRACK_COUNT_ID, MetricKind::Counter, MetricLevel::Info),
        (DS_OPS_PER_BATCH_ID, MetricKind::Count, MetricLevel::Debug),
        (CACHE_SPECULATION_TO_CONFIRM_LATENCY_ID, MetricKind::Duration, MetricLevel::Info),
        (CACHE_PENDING_QUEUE_SIZE_ID, MetricKind::Count, MetricLevel::Debug),
        (CACHE_BACKTRACK_COUNT_ID, MetricKind::Counter, MetricLevel::Info),
        (CACHE_DELTA_SIZE_ID, MetricKind::Count, MetricLevel::Debug),
        (CACHE_OPS_PER_BATCH_ID, MetricKind::Count, MetricLevel::Debug),
        (CACHE_UNORDERED_EXECUTION_TIME_ID, MetricKind::Duration, MetricLevel::Info),
        (CACHE_REBUILD_TIME_ID, MetricKind::Duration, MetricLevel::Debug),
        (CACHE_ENQUEUE_TO_EXECUTE_LATENCY_ID, MetricKind::Duration, MetricLevel::Info),
        (SCALABLE_PREEMPTIVE_EXECUTION_TIME_ID, MetricKind::Duration, MetricLevel::Info),
        (SCALABLE_COLLISION_COUNT_ID, MetricKind::Count, MetricLevel::Debug),
        (SCALABLE_COLLISION_RATE_ID, MetricKind::Count, MetricLevel::Debug),
        (SCALABLE_OPS_PER_BATCH_ID, MetricKind::Count, MetricLevel::Debug),
        (REORDER_BUFFER_SIZE_ID, MetricKind::Count, MetricLevel::Debug),
        (REORDER_STAGED_COUNT_ID, MetricKind::Counter, MetricLevel::Info),
        (SPECULATION_FALLBACK_COUNT_ID, MetricKind::Counter, MetricLevel::Info),
        (SCALABLE_SPECULATION_TO_CONFIRM_LATENCY_ID, MetricKind::Duration, MetricLevel::Info),
        (SCALABLE_CONFIRM_APPLICATION_TIME_ID, MetricKind::Duration, MetricLevel::Info),
        (CONFIRM_ENQUEUE_TO_APPLY_LATENCY_ID, MetricKind::Duration, MetricLevel::Info),
        (CONFIRM_TO_REPLY_TIME_ID, MetricKind::Duration, MetricLevel::Info),
        (CONFIRM_BLOCKED_ON_EXEC_TIME_ID, MetricKind::Duration, MetricLevel::Info),
        (SPECULATION_HIT_RATE_ID, MetricKind::Count, MetricLevel::Info),
        (OPERATIONS_EXECUTED_PER_SECOND_ID, MetricKind::Counter, MetricLevel::Info),
        (UNORDERED_OPS_PER_SECOND_ID, MetricKind::Counter, MetricLevel::Info),
    ]
}

/// The name of each metric, in registration order.
pub open spec fn metric_names() -> Seq<Seq<char>> {
    seq![
        CONFIRMED_WORKER_LATENCY@,
        CONFIRM_EXECUTION_TIME@,
        CACHE_PREEMPTIVE_EXECUTION_TIME@,
        CACHE_CONFIRM_APPLICATION_TIME@,
        DS_PREEMPTIVE_EXECUTION_TIME@,
        DS_SPECULATION_TO_CONFIRM_LATENCY@,
        DS_BACKTRACK_COUNT@,
        DS_OPS_PER_BATCH@,
        CACHE_SPECULATION_TO_CONFIRM_LATENCY@,
        CACHE_PENDING_QUEUE_SIZE@,
        CACHE_BACKTRACK_COUNT@,
        CACHE_DELTA_SIZE@,
        CACHE_OPS_PER_BATCH@,
        CACHE_UNORDERED_EXECUTION_TIME@,
        CACHE_REBUILD_TIME@,
        CACHE_ENQUEUE_TO_EXECUTE_LATENCY@,
        SCALABLE_PREEMPTIVE_EXECUTION_TIME@,
        SCALABLE_COLLISION_COUNT@,
        SCALABLE_COLLISION_RATE@,
        SCALABLE_OPS_PER_BATCH@,
        REORDER_BUFFER_SIZE@,
        REORDER_STAGED_COUNT@,
        SPECULATION_FALLBACK_COUNT@,
        SCALABLE_SPECULATION_TO_CONFIRM_LATENCY@,
        SCALABLE_CONFIRM_APPLICATION_TIME@,
        CONFIRM_ENQUEUE_TO_APPLY_LATENCY@,
        CONFIRM_TO_REPLY_TIME@,
        CONFIRM_BLOCKED_ON_EXEC_TIME@,
        SPECULATION_HIT_RATE@,
        OPERATIONS_EXECUTED_PER_SECOND@,
        UNORDERED_OPS_PER_SECOND@,
    ]
}

fn descriptor(id: usize, name: &str, kind: MetricKind, level: MetricLevel) -> (d: MetricDescriptor)
    ensures
        d.id == id,
        d.name@ == name@,
        d.kind == kind,
        d.level == level,
{
    MetricDescriptor { id, name: name.to_owned(), kind, level }
}

/// Whether `name` is the name of the metric whose identifier is `id`, for every metric of
/// the executors.
pub open spec fn named_after_its_id(id: usize, name: Seq<char>) -> bool {
    &&& id == CONFIRMED_WORKER_LATENCY_ID ==> name == CONFIRMED_WORKER_LATENCY@
    &&& id == CONFIRM_EXECUTION_TIME_ID ==> name == CONFIRM_EXECUTION_TIME@
    &&& id == CACHE_PREEMPTIVE_EXECUTION_TIME_ID ==> name == CACHE_PREEMPTIVE_EXECUTION_TIME@
    &&& id == CACHE_CONFIRM_APPLICATION_TIME_ID ==> name == CACHE_CONFIRM_APPLICATION_TIME@
    &&& id == DS_PREEMPTIVE_EXECUTION_TIME_ID ==> name == DS_PREEMPTIVE_EXECUTION_TIME@
    &&& id == DS_SPECULATION_TO_CONFIRM_LATENCY_ID ==> name == DS_SPECULATION_TO_CONFIRM_LATENCY@
    &&& id == DS_BACKTRACK_COUNT_ID ==> name == DS_BACKTRACK_COUNT@
    &&& id == DS_OPS_PER_BATCH_ID ==> name == DS_OPS_PER_BATCH@
    &&& id == CACHE_SPECULATION_TO_CONFIRM_LATENCY_ID ==> name == CACHE_SPECULATION_TO_CONFIRM_LATENCY@
    &&& id == CACHE_PENDING_QUEUE_SIZE_ID ==> name == CACHE_PENDING_QUEUE_SIZE@
    &&& id == CACHE_BACKTRACK_COUNT_ID ==> name == CACHE_BACKTRACK_COUNT@
    &&& id == CACHE_DELTA_SIZE_ID ==> name == CACHE_DELTA_SIZE@
    &&& id == CACHE_OPS_PER_BATCH_ID ==> name == CACHE_OPS_PER_BATCH@
    &&& id == CACHE_UNORDERED_EXECUTION_TIME_ID ==> name == CACHE_UNORDERED_EXECUTION_TIME@
    &&& id == CACHE_REBUILD_TIME_ID ==> name == CACHE_REBUILD_TIME@
    &&& id == CACHE_ENQUEUE_TO_EXECUTE_LATENCY_ID ==> name == CACHE_ENQUEUE_TO_EXECUTE_LATENCY@
    &&& id == SCALABLE_PREEMPTIVE_EXECUTION_TIME_ID ==> name == SCALABLE_PREEMPTIVE_EXECUTION_TIME@
    &&& id == SCALABLE_COLLISION_COUNT_ID ==> name == SCALABLE_COLLISION_COUNT@
    &&& id == SCALABLE_COLLISION_RATE_ID ==> name == SCALABLE_COLLISION_RATE@
    &&& id == SCALABLE_OPS_PER_BATCH_ID ==> name == SCALABLE_OPS_PER_BATCH@
    &&& id == REORDER_BUFFER_SIZE_ID ==> name == REORDER_BUFFER_SIZE@
    &&& id == REORDER_STAGED_COUNT_ID ==> name == REORDER_STAGED_COUNT@
    &&& id == SPECULATION_FALLBACK_COUNT_ID ==> name == SPECULATION_FALLBACK_COUNT@
    &&& id == SCALABLE_SPECULATION_TO_CONFIRM_LATENCY_ID ==> name == SCALABLE_SPECULATION_TO_CONFIRM_LATENCY@
    &&& id == SCALABLE_CONFIRM_APPLICATION_TIME_ID ==> name == SCALABLE_CONFIRM_APPLICATION_TIME@
    &&& id == CONFIRM_ENQUEUE_TO_APPLY_LATENCY_ID ==> name == CONFIRM_ENQUEUE_TO_APPLY_LATENCY@
    &&& id == CONFIRM_TO_REPLY_TIME_ID ==> name == CONFIRM_TO_REPLY_TIME@
    &&& id == CONFIRM_BLOCKED_ON_EXEC_TIME_ID ==> name == CONFIRM_BLOCKED_ON_EXEC_TIME@
    &&& id == SPECULATION_HIT_RATE_ID ==> name == SPECULATION_HIT_RATE@
    &&& id == OPERATIONS_EXECUTED_PER_SECOND_ID ==> name == OPERATIONS_EXECUTED_PER_SECOND@
    &&& id == UNORDERED_OPS_PER_SECOND_ID ==> name == UNORDERED_OPS_PER_SECOND@
}

/// The registration table gives each metric identifier the name of that same metric.
pub proof fn lemma_metric_names_match_ids()
    ensures
        metric_names().len() == metric_table().len(),
        forall|i: int|
            0 <= i < metric_table().len() ==> #[trigger] named_after_its_id(metric_table()[i].0, metric_names()[i]),
{
}

/// The metrics of the preemptive executors, to register with the metrics subsystem: the
/// descriptors of `metric_table` with the names of `metric_names`, in that order.
pub fn metrics() -> (r: Vec<MetricDescriptor>)
    ensures
        r@.len() == metric_table().len(),
        forall|i: int|
            0 <= i < r@.len() ==> ((#[trigger] r@[i]).id, r@[i].kind, r@[i].level) == metric_table()[i]
                && r@[i].name@ == metric_names()[i],
        forall|i: int| 0 <= i < r@.len() ==> #[trigger] named_after_its_id(r@[i].id, r@[i].name@),
{
    let mut r: Vec<MetricDescriptor> = Vec::new();
    r.push(descriptor(CONFIRMED_WORKER_LATENCY_ID, CONFIRMED_WORKER_LATENCY, MetricKind::Duration, MetricLevel::Info));
    r.push(descriptor(CONFIRM_EXECUTION_TIME_ID, CONFIRM_EXECUTION_TIME, MetricKind::Duration, MetricLevel::Info));
    r.push(descriptor(CACHE_PREEMPTIVE_EXECUTION_TIME_ID, CACHE_PREEMPTIVE_EXECUTION_TIME, MetricKind::Duration, MetricLevel::Info));
    r.push(descriptor(CACHE_CONFIRM_APPLICATION_TIME_ID, CACHE_CONFIRM_APPLICATION_TIME, MetricKind::Duration, MetricLevel::Info));
    r.push(descriptor(DS_PREEMPTIVE_EXECUTION_TIME_ID, DS_PREEMPTIVE_EXECUTION_TIME, MetricKind::Duration, MetricLevel::Info));
    r.push(descriptor(DS_SPECULATION_TO_CONFIRM_LATENCY_ID, DS_SPECULATION_TO_CONFIRM_LATENCY, MetricKind::Duration, MetricLevel::Info));
    r.push(descriptor(DS_BACKTRACK_COUNT_ID, DS_BACKTRACK_COUNT, MetricKind::Counter, MetricLevel::Info));
    r.push(descriptor(DS_OPS_PER_BATCH_ID, DS_OPS_PER_BATCH, MetricKind::Count, MetricLevel::Debug));
    r.push(descriptor(CACHE_SPECULATION_TO_CONFIRM_LATENCY_ID, CACHE_SPECULATION_TO_CONFIRM_LATENCY, MetricKind::Duration, MetricLevel::Info));
    r.push(descriptor(CACHE_PENDING_QUEUE_SIZE_ID, CACHE_PENDING_QUEUE_SIZE, MetricKind::Count, MetricLevel::Debug));
    r.push(descriptor(CACHE_BACKTRACK_COUNT_ID, CACHE_BACKTRACK_COUNT, MetricKind::Counter, MetricLevel::Info));
    r.push(descriptor(CACHE_DELTA_SIZE_ID, CACHE_DELTA_SIZE, MetricKind::Count, MetricLevel::Debug));
    r.push(descriptor(CACHE_OPS_PER_BATCH_ID, CACHE_OPS_PER_BATCH, MetricKind::Count, MetricLevel::Debug));
    r.push(descriptor(CACHE_UNORDERED_EXECUTION_TIME_ID, CACHE_UNORDERED_EXECUTION_TIME, MetricKind::Duration, MetricLevel::Info));
    r.push(descriptor(CACHE_REBUILD_TIME_ID, CACHE_REBUILD_TIME, MetricKind::Duration, MetricLevel::Debug));
    r.push(descriptor(CACHE_ENQUEUE_TO_EXECUTE_LATENCY_ID, CACHE_ENQUEUE_TO_EXECUTE_LATENCY, MetricKind::Duration, MetricLevel::Info));
    r.push(descriptor(SCALABLE_PREEMPTIVE_EXECUTION_TIME_ID, SCALABLE_PREEMPTIVE_EXECUTION_TIME, MetricKind::Duration, MetricLevel::Info));
    r.push(descriptor(SCALABLE_COLLISION_COUNT_ID, SCALABLE_COLLISION_COUNT, MetricKind::Count, MetricLevel::Debug));
    r.push(descriptor(SCALABLE_COLLISION_RATE_ID, SCALABLE_COLLISION_RATE, MetricKind::Count, MetricLevel::Debug));
    r.push(descriptor(SCALABLE_OPS_PER_BATCH_ID, SCALABLE_OPS_PER_BATCH, MetricKind::Count, MetricLevel::Debug));
    r.push(descriptor(REORDER_BUFFER_SIZE_ID, REORDER_BUFFER_SIZE, MetricKind::Count, MetricLevel::Debug));
    r.push(descriptor(REORDER_STAGED_COUNT_ID, REORDER_STAGED_COUNT, MetricKind::Counter, MetricLevel::Info));
    r.push(descriptor(SPECULATION_FALLBACK_COUNT_ID, SPECULATION_FALLBACK_COUNT, MetricKind::Counter, MetricLevel::Info));
    r.push(descriptor(SCALABLE_SPECULATION_TO_CONFIRM_LATENCY_ID, SCALABLE_SPECULATION_TO_CONFIRM_LATENCY, MetricKind::Duration, MetricLevel::Info));
    r.push(descriptor(SCALABLE_CONFIRM_APPLICATION_TIME_ID, SCALABLE_CONFIRM_APPLICATION_TIME, MetricKind::Duration, MetricLevel::Info));
    r.push(descriptor(CONFIRM_ENQUEUE_TO_APPLY_LATENCY_ID, CONFIRM_ENQUEUE_TO_APPLY_LATENCY, MetricKind::Duration, MetricLevel::Info));
    r.push(descriptor(CONFIRM_TO_REPLY_TIME_ID, CONFIRM_TO_REPLY_TIME, MetricKind::Duration, MetricLevel::Info));
    r.push(descriptor(CONFIRM_BLOCKED_ON_EXEC_TIME_ID, CONFIRM_BLOCKED_ON_EXEC_TIME, MetricKind::Duration, MetricLevel::Info));
    r.push(descriptor(SPECULATION_HIT_RATE_ID, SPECULATION_HIT_RATE, MetricKind::Count, MetricLevel::Info));
    r.push(descriptor(OPERATIONS_EXECUTED_PER_SECOND_ID, OPERATIONS_EXECUTED_PER_SECOND, MetricKind::Counter, MetricLevel::Info));
    r.push(descriptor(UNORDERED_OPS_PER_SECOND_ID, UNORDERED_OPS_PER_SECOND, MetricKind::Counter, MetricLevel::Info));
    proof {
        assert forall|i: int| 0 <= i < r@.len() implies ((#[trigger] r@[i]).id, r@[i].kind, r@[i].level)
            == metric_table()[i] && r@[i].name@ == metric_names()[i] by {
        }
    }
    r
}

/// One update of a metric, as the executors make them.
#[derive(Clone, Copy, Debug, PartialEq, Eq, Structural)]
pub enum MetricSample {
    /// A timed span of `nanos` nanoseconds.
    Duration { id: usize, nanos: u64 },
    /// A value sampled for an averaged count.
    Count { id: usize, value: usize },
    /// A running total increased by `by`.
    Increment { id: usize, by: u64 },
}

/// The speculation hit-rate sample of one confirmation, in permille: 1000 when its replies
/// were already speculated, 0 otherwise.
pub fn speculation_hit_sample(speculated: bool) -> (v: usize)
    ensures
        v == if speculated { 1000usize } else { 0usize },
{
    if speculated {
        1000
    } else {
        0
    }
}

/// The samples one confirmed batch of `operations` operations records, `elapsed_nanos`
/// after its commit was queued: the time to its replies, the hit-rate sample, the time
/// blocked on execution when its replies were not speculated, a fallback when it had to be
/// executed on the confirmation path, and the operations it commits.
pub fn confirmation_samples(speculated: bool, operations: usize, elapsed_nanos: u64) -> (r: Vec<MetricSample>)
    ensures
        r@ == seq![
            MetricSample::Duration { id: CONFIRM_TO_REPLY_TIME_ID, nanos: elapsed_nanos },
            MetricSample::Count {
                id: SPECULATION_HIT_RATE_ID,
                value: if speculated { 1000usize } else { 0usize },
            },
        ] + (if speculated {
            Seq::<MetricSample>::empty()
        } else {
            seq![
                MetricSample::Duration { id: CONFIRM_BLOCKED_ON_EXEC_TIME_ID, nanos: elapsed_nanos },
                MetricSample::Increment { id: SPECULATION_FALLBACK_COUNT_ID, by: 1u64 },
            ]
        }) + seq![MetricSample::Increment { id: OPERATIONS_EXECUTED_PER_SECOND_ID, by: operations as u64 }],
{
    let mut r: Vec<MetricSample> = Vec::new();
    r.push(MetricSample::Duration { id: CONFIRM_TO_REPLY_TIME_ID, nanos: elapsed_nanos });
    r.push(MetricSample::Count { id: SPECULATION_HIT_RATE_ID, value: speculation_hit_sample(speculated) });
    if !speculated {
        r.push(MetricSample::Duration { id: CONFIRM_BLOCKED_ON_EXEC_TIME_ID, nanos: elapsed_nanos });
        r.push(MetricSample::Increment { id: SPECULATION_FALLBACK_COUNT_ID, by: 1 });
    }
    r.push(MetricSample::Increment { id: OPERATIONS_EXECUTED_PER_SECOND_ID, by: operations as u64 });
    proof {
        if speculated {
            assert(r@ =~= seq![
                MetricSample::Duration { id: CONFIRM_TO_REPLY_TIME_ID, nanos: elapsed_nanos },
                MetricSample::Count { id: SPECULATION_HIT_RATE_ID, value: 1000usize },
                MetricSample::Increment { id: OPERATIONS_EXECUTED_PER_SECOND_ID, by: operations as u64 },
            ]);
        } else {
            assert(r@ =~= seq![
                MetricSample::Duration { id: CONFIRM_TO_REPLY_TIME_ID, nanos: elapsed_nanos },
                MetricSample::Count { id: SPECULATION_HIT_RATE_ID, value: 0usize },
                MetricSample::Duration { id: CONFIRM_BLOCKED_ON_EXEC_TIME_ID, nanos: elapsed_nanos },
                MetricSample::Increment { id: SPECULATION_FALLBACK_COUNT_ID, by: 1u64 },
                MetricSample::Increment { id: OPERATIONS_EXECUTED_PER_SECOND_ID, by: operations as u64 },
            ]);
        }
    }
    r
}

/// The samples a batch held back in the reorder buffer records: one more batch staged,
/// and the buffer's size once it is in.
pub fn staging_samples(buffered: usize) -> (r: Vec<MetricSample>)
    ensures
        r@ == seq![
            MetricSample::Increment { id: REORDER_STAGED_COUNT_ID, by: 1u64 },
            MetricSample::Count { id: REORDER_BUFFER_SIZE_ID, value: buffered },
        ],
{
    let mut r: Vec<MetricSample> = Vec::new();
    r.push(MetricSample::Increment { id: REORDER_STAGED_COUNT_ID, by: 1 });
    r.push(MetricSample::Count { id: REORDER_BUFFER_SIZE_ID, value: buffered });
    assert(r@ =~= seq![
        MetricSample::Increment { id: REORDER_STAGED_COUNT_ID, by: 1u64 },
        MetricSample::Count { id: REORDER_BUFFER_SIZE_ID, value: buffered },
    ]);
    r
}

/// The per-batch collision rate, in permille: `collided * 1000 / total`, or nothing for an
/// empty batch (or when `collided * 1000` does not fit in a `usize`).
pub fn collision_rate_permille(collided: usize, total: usize) -> (r: Option<usize>)
    ensures
        total == 0 || collided * 1000 > usize::MAX ==> r is None,
        total > 0 && collided * 1000 <= usize::MAX ==> r == Some(((collided * 1000) / (total as int)) as usize),
{
    match collided.checked_mul(1000) {
        Some(p) => {
            if total == 0 {
                None
            } else {
                Some(p / total)
            }
        },
        None => None,
    }
}

/// The samples of a batch of `operations` requests speculated in parallel, `collided` of
/// which were executed again: the collision count, the batch size and, when it has a value,
/// the collision rate.
pub open spec fn parallel_batch_samples(collided: usize, operations: usize) -> Seq<MetricSample> {
    seq![
        MetricSample::Count { id: SCALABLE_COLLISION_COUNT_ID, value: collided },
        MetricSample::Count { id: SCALABLE_OPS_PER_BATCH_ID, value: operations },
    ] + if operations > 0 && collided * 1000 <= usize::MAX {
        seq![
            MetricSample::Count {
                id: SCALABLE_COLLISION_RATE_ID,
                value: ((collided * 1000) / (operations as int)) as usize,
            },
        ]
    } else {
        Seq::<MetricSample>::empty()
    }
}

/// Builds the samples of a batch speculated in parallel (see `parallel_batch_samples`).
pub fn parallel_batch_metrics(collided: usize, operations: usize) -> (r: Vec<MetricSample>)
    ensures
        r@ == parallel_batch_samples(collided, operations),
{
    let mut r: Vec<MetricSample> = Vec::new();
    r.push(MetricSample::Count { id: SCALABLE_COLLISION_COUNT_ID, value: collided });
    r.push(MetricSample::Count { id: SCALABLE_OPS_PER_BATCH_ID, value: operations });
    match collision_rate_permille(collided, operations) {
        Some(rate) => {
            r.push(MetricSample::Count { id: SCALABLE_COLLISION_RATE_ID, value: rate });
        },
        None => {},
    }
    assert(r@ =~= parallel_batch_samples(collided, operations));
    r
}

/// The sample of a batch of `operations` requests speculated through one caching view.
pub open spec fn sequential_batch_samples(operations: usize) -> Seq<MetricSample> {
    seq![MetricSample::Count { id: CACHE_OPS_PER_BATCH_ID, value: operations }]
}

} // verus!
