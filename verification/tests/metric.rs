use atlas_preemptive::metric::{
    collision_rate_permille, confirmation_samples, metrics, speculation_hit_sample, staging_samples, MetricKind,
    MetricLevel, MetricSample, CONFIRM_BLOCKED_ON_EXEC_TIME_ID, CONFIRM_TO_REPLY_TIME_ID,
    OPERATIONS_EXECUTED_PER_SECOND_ID, REORDER_BUFFER_SIZE_ID, REORDER_STAGED_COUNT_ID, SPECULATION_FALLBACK_COUNT_ID,
    SPECULATION_HIT_RATE, SPECULATION_HIT_RATE_ID, UNORDERED_OPS_PER_SECOND,
};

#[test]
fn metrics_are_registered_once_each_with_their_kind_and_level() {
    let all = metrics();
    assert_eq!(all.len(), 31);
    let mut ids: Vec<usize> = all.iter().map(|m| m.id).collect();
    ids.sort();
    ids.dedup();
    assert_eq!(ids.len(), 31);
    assert_eq!(all[0].id, 800);
    assert_eq!(all[0].name, "CONFIRMED_WORKER_LATENCY");
    let hit = all.iter().find(|m| m.name == SPECULATION_HIT_RATE).unwrap();
    assert_eq!(hit.id, 831);
    assert_eq!(hit.kind, MetricKind::Count);
    assert_eq!(hit.level, MetricLevel::Info);
    let unordered = all.iter().find(|m| m.name == UNORDERED_OPS_PER_SECOND).unwrap();
    assert_eq!(unordered.name, "UNORDERED_OPERATIONS_EXECUTED_PER_SECOND");
    assert_eq!(unordered.kind, MetricKind::Counter);
    assert!(all.iter().any(|m| m.id == CONFIRM_TO_REPLY_TIME_ID && m.kind == MetricKind::Duration));
}

#[test]
fn confirmation_and_collision_samples() {
    assert_eq!(speculation_hit_sample(true), 1000);
    assert_eq!(speculation_hit_sample(false), 0);
    assert_eq!(collision_rate_permille(1, 2), Some(500));
    assert_eq!(collision_rate_permille(2, 3), Some(666));
    assert_eq!(collision_rate_permille(0, 0), None);
}

#[test]
fn a_speculated_confirmation_records_a_hit_and_its_operations() {
    let samples = confirmation_samples(true, 7, 1500);
    assert_eq!(
        samples,
        vec![
            MetricSample::Duration { id: CONFIRM_TO_REPLY_TIME_ID, nanos: 1500 },
            MetricSample::Count { id: SPECULATION_HIT_RATE_ID, value: 1000 },
            MetricSample::Increment { id: OPERATIONS_EXECUTED_PER_SECOND_ID, by: 7 },
        ]
    );
}

#[test]
fn a_fallback_confirmation_records_a_miss_the_blocked_time_and_the_fallback() {
    let samples = confirmation_samples(false, 3, 90);
    assert_eq!(
        samples,
        vec![
            MetricSample::Duration { id: CONFIRM_TO_REPLY_TIME_ID, nanos: 90 },
            MetricSample::Count { id: SPECULATION_HIT_RATE_ID, value: 0 },
            MetricSample::Duration { id: CONFIRM_BLOCKED_ON_EXEC_TIME_ID, nanos: 90 },
            MetricSample::Increment { id: SPECULATION_FALLBACK_COUNT_ID, by: 1 },
            MetricSample::Increment { id: OPERATIONS_EXECUTED_PER_SECOND_ID, by: 3 },
        ]
    );
}

#[test]
fn staging_a_batch_records_it_and_the_buffer_size() {
    assert_eq!(
        staging_samples(4),
        vec![
            MetricSample::Increment { id: REORDER_STAGED_COUNT_ID, by: 1 },
            MetricSample::Count { id: REORDER_BUFFER_SIZE_ID, value: 4 },
        ]
    );
}
