use atlas_preemptive::batch::{NodeId, UpdateBatch, UpdateInfo};
use atlas_preemptive::crud::{CRUDState, KvState};
use atlas_preemptive::kv_app::{KvApp, KvOp};
use atlas_preemptive::pending_state::{BacktrackError, CachingPreemptiveState, PreemptiveOutcome};
use atlas_preemptive::seq_no::SeqNo;

fn op(key: &[u8], value: Option<&[u8]>) -> KvOp {
    KvOp { key: key.to_vec(), value: value.map(|v| v.to_vec()) }
}

fn make_batch(seq: u32, ops: &[KvOp]) -> UpdateBatch<KvOp> {
    let mut batch = UpdateBatch::new(SeqNo::from(seq));
    for o in ops {
        batch.add(
            UpdateInfo::new_session_based(NodeId::from(0), SeqNo::zero(), SeqNo::zero()),
            o.clone(),
        );
    }
    batch
}

fn new_state() -> CachingPreemptiveState<KvState, KvApp> {
    CachingPreemptiveState::new((SeqNo::zero(), KvState::new()))
}

fn new_state_expecting(seq: SeqNo) -> CachingPreemptiveState<KvState, KvApp> {
    CachingPreemptiveState::new((seq, KvState::new()))
}

fn read_confirmed(state: &CachingPreemptiveState<KvState, KvApp>, key: &[u8]) -> Option<Vec<u8>> {
    state.confirmed_state().peek("default", key)
}

#[test]
fn unit_tests_test_initial_state() {
    let s = new_state();
    assert_eq!(s.next_confirmed_seq(), SeqNo::zero());
    assert_eq!(s.next_preemptive_seq(), SeqNo::zero());
}

#[test]
fn unit_tests_test_preemptive_update_advances_preemptive_seq() {
    let app = KvApp;
    let mut s = new_state_expecting(SeqNo::one());
    s.handle_preemptive_update(&app, make_batch(1, &[op(b"k1", Some(b"v1"))])).unwrap();
    assert_eq!(s.next_preemptive_seq(), SeqNo::from(2u32));
    assert_eq!(s.next_confirmed_seq(), SeqNo::one());
    assert!(read_confirmed(&s, b"k1").is_none());
}

#[test]
fn unit_tests_test_accumulated_cache_visible_to_next_preemptive() {
    let app = KvApp;
    let mut s = new_state_expecting(SeqNo::one());
    s.handle_preemptive_update(&app, make_batch(1, &[op(b"k1", Some(b"v1"))])).unwrap();
    s.handle_preemptive_update(&app, make_batch(2, &[op(b"k2", Some(b"v2"))])).unwrap();
    assert!(read_confirmed(&s, b"k1").is_none());
    assert!(read_confirmed(&s, b"k2").is_none());
    assert_eq!(s.next_preemptive_seq(), SeqNo::from(3u32));
}

#[test]
fn unit_tests_test_confirmation_applies_delta_to_real_state() {
    let app = KvApp;
    let mut s = new_state_expecting(SeqNo::one());
    s.handle_preemptive_update(&app, make_batch(1, &[op(b"k1", Some(b"v1"))])).unwrap();
    let replies = s.handle_update_confirmed(&app, SeqNo::from(1u32)).unwrap();
    assert_eq!(replies.len(), 1);
    assert_eq!(read_confirmed(&s, b"k1"), Some(b"v1".to_vec()));
    assert_eq!(s.next_confirmed_seq(), SeqNo::from(2u32));
}

#[test]
fn unit_tests_test_accumulated_cache_rebuilt_after_confirmation() {
    let app = KvApp;
    let mut s = new_state_expecting(SeqNo::one());
    s.handle_preemptive_update(&app, make_batch(1, &[op(b"k1", Some(b"v1"))])).unwrap();
    s.handle_preemptive_update(&app, make_batch(2, &[op(b"k2", Some(b"v2"))])).unwrap();
    s.handle_update_confirmed(&app, SeqNo::from(1u32)).unwrap();
    assert_eq!(read_confirmed(&s, b"k1"), Some(b"v1".to_vec()));
    assert!(read_confirmed(&s, b"k2").is_none());
    s.handle_update_confirmed(&app, SeqNo::from(2u32)).unwrap();
    assert_eq!(read_confirmed(&s, b"k2"), Some(b"v2".to_vec()));
}

#[test]
fn unit_tests_test_delete_tombstone_shadows_confirmed_state() {
    let app = KvApp;
    let mut s = new_state_expecting(SeqNo::one());
    s.handle_confirmed_update(&app, make_batch(1, &[op(b"k1", Some(b"v1"))])).unwrap();
    assert_eq!(read_confirmed(&s, b"k1"), Some(b"v1".to_vec()));
    s.handle_preemptive_update(&app, make_batch(2, &[op(b"k1", None)])).unwrap();
    assert_eq!(read_confirmed(&s, b"k1"), Some(b"v1".to_vec()));
    s.handle_update_confirmed(&app, SeqNo::from(2u32)).unwrap();
    assert!(read_confirmed(&s, b"k1").is_none());
}

#[test]
fn unit_tests_test_backtrack_discards_correct_entries() {
    let app = KvApp;
    let mut s = new_state_expecting(SeqNo::one());
    for (seq, key) in [(1, b"k1" as &[u8]), (2, b"k2"), (3, b"k3")] {
        s.handle_preemptive_update(&app, make_batch(seq, &[op(key, Some(b"v"))])).unwrap();
    }
    s.backtrack(SeqNo::from(2u32)).unwrap();
    assert_eq!(s.next_preemptive_seq(), SeqNo::from(2u32));
    assert_eq!(s.pending_count(), 1);
    assert_eq!(s.pending_front_seq(), Some(SeqNo::from(1u32)));
    assert!(read_confirmed(&s, b"k1").is_none());
}

#[test]
fn unit_tests_test_backtrack_to_confirmed_returns_error() {
    let app = KvApp;
    let mut s = new_state_expecting(SeqNo::one());
    s.handle_preemptive_update(&app, make_batch(1, &[op(b"k1", Some(b"v1"))])).unwrap();
    s.handle_update_confirmed(&app, SeqNo::from(1u32)).unwrap();
    let err = s.backtrack(SeqNo::from(1u32)).unwrap_err();
    assert!(matches!(err, BacktrackError::BacktrackBelowConfirmed { .. }));
}

#[test]
fn unit_tests_test_backtrack_then_re_execute() {
    let app = KvApp;
    let mut s = new_state_expecting(SeqNo::one());
    s.handle_preemptive_update(&app, make_batch(1, &[op(b"k1", Some(b"original"))])).unwrap();
    s.handle_preemptive_update(&app, make_batch(2, &[op(b"k2", Some(b"v2"))])).unwrap();
    s.backtrack(SeqNo::from(2u32)).unwrap();
    s.handle_preemptive_update(&app, make_batch(2, &[op(b"k2", Some(b"corrected"))])).unwrap();
    s.handle_update_confirmed(&app, SeqNo::from(1u32)).unwrap();
    s.handle_update_confirmed(&app, SeqNo::from(2u32)).unwrap();
    assert_eq!(read_confirmed(&s, b"k1"), Some(b"original".to_vec()));
    assert_eq!(read_confirmed(&s, b"k2"), Some(b"corrected".to_vec()));
}

#[test]
fn unit_tests_test_catch_up_clears_pending_and_updates_real_state() {
    let app = KvApp;
    let mut s = new_state_expecting(SeqNo::one());
    s.handle_preemptive_update(&app, make_batch(1, &[op(b"speculative", Some(b"gone"))])).unwrap();
    let results = s.handle_catch_up(
        &app,
        vec![
            make_batch(1, &[op(b"k1", Some(b"v1"))]),
            make_batch(2, &[op(b"k2", Some(b"v2"))]),
        ],
    );
    assert_eq!(results.len(), 2);
    assert_eq!(s.next_confirmed_seq(), SeqNo::from(3u32));
    assert_eq!(s.next_preemptive_seq(), SeqNo::from(3u32));
    assert_eq!(s.pending_count(), 0);
    assert_eq!(read_confirmed(&s, b"k1"), Some(b"v1".to_vec()));
    assert_eq!(read_confirmed(&s, b"k2"), Some(b"v2".to_vec()));
    assert!(read_confirmed(&s, b"speculative").is_none());
}

#[test]
fn unit_tests_test_install_confirmed_state_resets_everything() {
    let app = KvApp;
    let mut s = new_state_expecting(SeqNo::one());
    s.handle_preemptive_update(&app, make_batch(1, &[op(b"k1", Some(b"v1"))])).unwrap();
    let mut new_inner = KvState::new();
    new_inner.update("default", b"external", b"value");
    s.install_confirmed_state(SeqNo::from(10u32), new_inner);
    assert_eq!(s.next_confirmed_seq(), SeqNo::from(11u32));
    assert_eq!(s.next_preemptive_seq(), SeqNo::from(11u32));
    assert_eq!(s.pending_count(), 0);
    assert_eq!(read_confirmed(&s, b"external"), Some(b"value".to_vec()));
    assert!(read_confirmed(&s, b"k1").is_none());
}

#[test]
fn test_first_batch_at_seq_zero_executes() {
    let app = KvApp;
    let mut s = new_state();
    s.handle_preemptive_update(&app, make_batch(0, &[op(b"k0", Some(b"v0"))])).unwrap();
    assert_eq!(s.next_preemptive_seq(), SeqNo::one());
    assert_eq!(s.pending_front_seq(), Some(SeqNo::zero()));
    let replies = s.handle_update_confirmed(&app, SeqNo::zero()).unwrap();
    assert_eq!(replies.len(), 1);
    assert_eq!(read_confirmed(&s, b"k0"), Some(b"v0".to_vec()));
    assert_eq!(s.next_confirmed_seq(), SeqNo::one());
}

#[test]
fn test_early_batch_is_buffered_then_drained() {
    let app = KvApp;
    let mut s = new_state();
    let outcome = s.handle_preemptive_update(&app, make_batch(1, &[op(b"k1", Some(b"v1"))])).unwrap();
    assert_eq!(outcome, PreemptiveOutcome::Staged { awaiting: SeqNo::zero(), buffered: 1 });
    assert_eq!(s.pending_count(), 0);
    assert_eq!(s.staged_count(), 1);
    let outcome = s.handle_preemptive_update(&app, make_batch(0, &[op(b"k0", Some(b"v0"))])).unwrap();
    assert_eq!(outcome, PreemptiveOutcome::Executed { drained: 1 });
    assert_eq!(s.staged_count(), 0);
    assert_eq!(s.pending_count(), 2);
    assert_eq!(s.next_preemptive_seq(), SeqNo::from(2u32));
}

#[test]
fn test_replica_zero_arrival_order_from_production_log() {
    let app = KvApp;
    let mut s = new_state();
    let arrival = [1, 2, 3, 4, 5, 6, 0, 8, 7, 9, 10];
    for seq in arrival {
        let key = format!("k{seq}").into_bytes();
        s.handle_preemptive_update(&app, make_batch(seq, &[op(&key, Some(b"v"))]))
            .expect("no batch may be rejected: consensus delivers each exactly once");
    }
    assert_eq!(s.staged_count(), 0);
    assert_eq!(s.pending_count(), arrival.len());
    assert_eq!(s.next_preemptive_seq(), SeqNo::from(11u32));
    for seq in 0..arrival.len() as u32 {
        let replies = s
            .handle_update_confirmed(&app, SeqNo::from(seq))
            .unwrap_or_else(|e| panic!("confirmation for seq {seq} failed: {e:?}"));
        assert_eq!(replies.len(), 1);
    }
    assert_eq!(s.pending_count(), 0);
    for seq in arrival {
        let key = format!("k{seq}").into_bytes();
        assert_eq!(read_confirmed(&s, &key), Some(b"v".to_vec()));
    }
}

#[test]
fn test_buffered_batches_survive_a_gap_that_closes_late() {
    let app = KvApp;
    let mut s = new_state();
    for seq in 1..=20u32 {
        s.handle_preemptive_update(
            &app,
            make_batch(seq, &[op(&format!("k{seq}").into_bytes(), Some(b"v"))]),
        )
        .unwrap();
    }
    assert_eq!(s.staged_count(), 20);
    assert_eq!(s.pending_count(), 0);
    let outcome = s.handle_preemptive_update(&app, make_batch(0, &[op(b"k0", Some(b"v"))])).unwrap();
    assert_eq!(outcome, PreemptiveOutcome::Executed { drained: 20 });
    assert_eq!(s.staged_count(), 0);
    assert_eq!(s.pending_count(), 21);
}

#[test]
fn test_duplicate_early_batch_does_not_double_execute() {
    let app = KvApp;
    let mut s = new_state();
    s.handle_preemptive_update(&app, make_batch(2, &[op(b"k2", Some(b"v2"))])).unwrap();
    s.handle_preemptive_update(&app, make_batch(2, &[op(b"k2", Some(b"v2"))])).unwrap();
    assert_eq!(s.staged_count(), 1);
    s.handle_preemptive_update(&app, make_batch(0, &[op(b"k0", Some(b"v0"))])).unwrap();
    s.handle_preemptive_update(&app, make_batch(1, &[op(b"k1", Some(b"v1"))])).unwrap();
    assert_eq!(s.pending_count(), 3);
    assert_eq!(s.next_preemptive_seq(), SeqNo::from(3u32));
}

#[test]
fn test_backtrack_drops_stale_buffered_batches() {
    let app = KvApp;
    let mut s = new_state();
    s.handle_preemptive_update(&app, make_batch(0, &[op(b"k0", Some(b"v0"))])).unwrap();
    for seq in [3u32, 4] {
        s.handle_preemptive_update(
            &app,
            make_batch(seq, &[op(&format!("k{seq}").into_bytes(), Some(b"v"))]),
        )
        .unwrap();
    }
    assert_eq!(s.staged_count(), 2);
    s.backtrack(SeqNo::one()).unwrap();
    assert_eq!(s.staged_count(), 0);
    assert_eq!(s.pending_count(), 1);
    assert_eq!(s.next_preemptive_seq(), SeqNo::one());
}

#[test]
fn test_install_state_clears_the_reorder_buffer() {
    let app = KvApp;
    let mut s = new_state();
    for seq in [5u32, 6] {
        s.handle_preemptive_update(
            &app,
            make_batch(seq, &[op(&format!("k{seq}").into_bytes(), Some(b"v"))]),
        )
        .unwrap();
    }
    assert_eq!(s.staged_count(), 2);
    s.install_confirmed_state(SeqNo::from(10u32), KvState::new());
    assert_eq!(s.staged_count(), 0);
    assert_eq!(s.next_preemptive_seq(), SeqNo::from(11u32));
}
