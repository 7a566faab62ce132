use atlas_preemptive::batch::{NodeId, UpdateBatch, UpdateInfo};
use atlas_preemptive::confirmed_requests::ConfirmedRequestPipeline;
use atlas_preemptive::kv_app::CounterApp;
use atlas_preemptive::preemptive_requests::{
    BacktrackError, ConfirmedUpdateError, ExecuteUpdateError, PreemptiveState,
};
use atlas_preemptive::seq_no::SeqNo;

fn make_batch(seq: u32, ops: &[u32]) -> UpdateBatch<u32> {
    let mut batch = UpdateBatch::new(SeqNo::from(seq));
    for &op in ops {
        batch.add(
            UpdateInfo::new_session_based(NodeId::from(0), SeqNo::zero(), SeqNo::from(op)),
            op,
        );
    }
    batch
}

fn new_state() -> PreemptiveState<u32, CounterApp> {
    PreemptiveState::new((SeqNo::zero(), 0u32))
}

#[test]
fn test_initial_seq_is_zero() {
    let state = new_state();
    assert_eq!(state.sequence_number(), SeqNo::zero());
    assert_eq!(state.confirmed_seq_no(), SeqNo::zero());
}

#[test]
fn preemptive_requests_test_preemptive_update_advances_preemptive_seq() {
    let app = CounterApp;
    let mut state = new_state();
    state.handle_preemptive_update(&app, make_batch(1, &[10])).unwrap();
    assert_eq!(state.sequence_number(), SeqNo::from(1u32));
    assert_eq!(state.confirmed_seq_no(), SeqNo::zero());
}

#[test]
fn test_preemptive_state_value_updates_correctly() {
    let app = CounterApp;
    let mut state = new_state();
    state.handle_preemptive_update(&app, make_batch(1, &[10])).unwrap();
    state.handle_preemptive_update(&app, make_batch(2, &[20])).unwrap();
    state.handle_preemptive_update(&app, make_batch(3, &[5])).unwrap();
    assert_eq!(*state.preemptive_state(), 35);
    assert_eq!(state.sequence_number(), SeqNo::from(3u32));
}

#[test]
fn test_pure_preemptive_then_confirmed_in_order() {
    let app = CounterApp;
    let mut state = new_state();
    state.handle_preemptive_update(&app, make_batch(1, &[10])).unwrap();
    state.handle_preemptive_update(&app, make_batch(2, &[20])).unwrap();
    state.handle_preemptive_update(&app, make_batch(3, &[30])).unwrap();
    let p1 = state.handle_update_confirmed(SeqNo::from(1u32)).unwrap();
    assert_eq!(p1.sequence_number(), SeqNo::from(1u32));
    assert_eq!(state.confirmed_seq_no(), SeqNo::from(1u32));
    let p2 = state.handle_update_confirmed(SeqNo::from(2u32)).unwrap();
    assert_eq!(p2.sequence_number(), SeqNo::from(2u32));
    assert_eq!(state.confirmed_seq_no(), SeqNo::from(2u32));
    let p3 = state.handle_update_confirmed(SeqNo::from(3u32)).unwrap();
    assert_eq!(p3.sequence_number(), SeqNo::from(3u32));
    assert_eq!(state.confirmed_seq_no(), SeqNo::from(3u32));
}

#[test]
fn test_mix_preemptive_and_confirmed_interleaved() {
    let app = CounterApp;
    let mut state = new_state();
    state.handle_preemptive_update(&app, make_batch(1, &[1])).unwrap();
    let _ = state.handle_update_confirmed(SeqNo::from(1u32)).unwrap();
    assert_eq!(state.confirmed_seq_no(), SeqNo::from(1u32));
    state.handle_preemptive_update(&app, make_batch(2, &[2])).unwrap();
    let _ = state.handle_update_confirmed(SeqNo::from(2u32)).unwrap();
    assert_eq!(state.confirmed_seq_no(), SeqNo::from(2u32));
    state.handle_preemptive_update(&app, make_batch(3, &[3])).unwrap();
    let _ = state.handle_update_confirmed(SeqNo::from(3u32)).unwrap();
    assert_eq!(state.confirmed_seq_no(), SeqNo::from(3u32));
    assert_eq!(state.sequence_number(), SeqNo::from(3u32));
    assert_eq!(*state.preemptive_state(), 6);
}

#[test]
fn test_install_confirmed_state_resets_both_seq_nos() {
    let app = CounterApp;
    let mut state = new_state();
    state.handle_preemptive_update(&app, make_batch(1, &[5])).unwrap();
    state.handle_preemptive_update(&app, make_batch(2, &[5])).unwrap();
    state.install_confirmed_state(SeqNo::from(10u32), 99u32);
    assert_eq!(state.sequence_number(), SeqNo::from(10u32));
    assert_eq!(state.confirmed_seq_no(), SeqNo::from(10u32));
    assert_eq!(*state.preemptive_state(), 99);
}

#[test]
fn test_install_confirmed_state_then_resume_preemptive() {
    let app = CounterApp;
    let mut state = new_state();
    state.install_confirmed_state(SeqNo::from(5u32), 50u32);
    state.handle_preemptive_update(&app, make_batch(6, &[10])).unwrap();
    assert_eq!(state.sequence_number(), SeqNo::from(6u32));
    assert_eq!(*state.preemptive_state(), 60);
}

#[test]
fn test_install_confirmed_state_then_confirm() {
    let app = CounterApp;
    let mut state = new_state();
    state.install_confirmed_state(SeqNo::from(5u32), 50u32);
    state.handle_preemptive_update(&app, make_batch(6, &[10])).unwrap();
    let confirmed = state.handle_update_confirmed(SeqNo::from(6u32)).unwrap();
    assert_eq!(confirmed.sequence_number(), SeqNo::from(6u32));
    assert_eq!(state.confirmed_seq_no(), SeqNo::from(6u32));
}

#[test]
fn test_catch_up_advances_both_seq_nos() {
    let app = CounterApp;
    let mut state = new_state();
    let batches = vec![make_batch(1, &[1]), make_batch(2, &[2]), make_batch(3, &[3])];
    state.handle_catch_up(&app, batches);
    assert_eq!(state.sequence_number(), SeqNo::from(3u32));
    assert_eq!(state.confirmed_seq_no(), SeqNo::from(3u32));
    assert_eq!(*state.preemptive_state(), 6);
}

#[test]
fn test_catch_up_then_preemptive_continues() {
    let app = CounterApp;
    let mut state = new_state();
    state.handle_catch_up(&app, vec![make_batch(1, &[10]), make_batch(2, &[10])]);
    state.handle_preemptive_update(&app, make_batch(3, &[5])).unwrap();
    assert_eq!(state.sequence_number(), SeqNo::from(3u32));
    assert_eq!(*state.preemptive_state(), 25);
}

#[test]
fn test_catch_up_then_confirm() {
    let app = CounterApp;
    let mut state = new_state();
    state.handle_catch_up(&app, vec![make_batch(1, &[10])]);
    state.handle_preemptive_update(&app, make_batch(2, &[5])).unwrap();
    let confirmed = state.handle_update_confirmed(SeqNo::from(2u32)).unwrap();
    assert_eq!(confirmed.sequence_number(), SeqNo::from(2u32));
    assert_eq!(state.confirmed_seq_no(), SeqNo::from(2u32));
}

#[test]
fn test_backtrack_discards_all_pending_when_no_reexecution_needed() {
    let app = CounterApp;
    let mut state = new_state();
    state.handle_preemptive_update(&app, make_batch(1, &[10])).unwrap();
    state.handle_preemptive_update(&app, make_batch(2, &[20])).unwrap();
    state.handle_preemptive_update(&app, make_batch(3, &[30])).unwrap();
    state.backtrack(&app, SeqNo::zero(), 0u32, SeqNo::from(1u32)).unwrap();
    assert_eq!(state.sequence_number(), SeqNo::zero());
    assert_eq!(state.confirmed_seq_no(), SeqNo::zero());
    assert_eq!(*state.preemptive_state(), 0);
    state.handle_preemptive_update(&app, make_batch(1, &[7])).unwrap();
    assert_eq!(*state.preemptive_state(), 7);
}

#[test]
fn test_backtrack_reexecutes_items_before_backtrack_seq() {
    let app = CounterApp;
    let mut state = new_state();
    for i in 1u32..=4 {
        state.handle_preemptive_update(&app, make_batch(i, &[i * 10])).unwrap();
    }
    state.backtrack(&app, SeqNo::zero(), 0u32, SeqNo::from(3u32)).unwrap();
    assert_eq!(state.sequence_number(), SeqNo::from(2u32));
    assert_eq!(state.confirmed_seq_no(), SeqNo::zero());
    assert_eq!(*state.preemptive_state(), 30);
    state.handle_preemptive_update(&app, make_batch(3, &[99])).unwrap();
    assert_eq!(*state.preemptive_state(), 30 + 99);
}

#[test]
fn test_backtrack_with_confirmed_offset() {
    let app = CounterApp;
    let mut state = new_state();
    state.handle_preemptive_update(&app, make_batch(1, &[5])).unwrap();
    let _ = state.handle_update_confirmed(SeqNo::from(1u32)).unwrap();
    state.handle_preemptive_update(&app, make_batch(2, &[5])).unwrap();
    state.handle_preemptive_update(&app, make_batch(3, &[5])).unwrap();
    state.handle_preemptive_update(&app, make_batch(4, &[5])).unwrap();
    state.backtrack(&app, SeqNo::from(1u32), 5u32, SeqNo::from(3u32)).unwrap();
    assert_eq!(state.sequence_number(), SeqNo::from(2u32));
    assert_eq!(*state.preemptive_state(), 5 + 5);
    state.handle_preemptive_update(&app, make_batch(3, &[100])).unwrap();
    assert_eq!(*state.preemptive_state(), 5 + 5 + 100);
}

#[test]
fn test_future_request_returns_error() {
    let app = CounterApp;
    let mut state = new_state();
    let result = state.handle_preemptive_update(&app, make_batch(3, &[10]));
    assert!(
        matches!(result, Err(ExecuteUpdateError::FutureRequest(s, _)) if s == SeqNo::from(3u32)),
        "expected FutureRequest, got {:?}",
        result
    );
    assert_eq!(state.sequence_number(), SeqNo::zero());
}

#[test]
fn test_backtracking_error_when_seq_behind_head() {
    let app = CounterApp;
    let mut state = new_state();
    state.handle_preemptive_update(&app, make_batch(1, &[1])).unwrap();
    state.handle_preemptive_update(&app, make_batch(2, &[1])).unwrap();
    let result = state.handle_preemptive_update(&app, make_batch(1, &[1]));
    assert!(
        matches!(result, Err(ExecuteUpdateError::Backtracking(s, _)) if s == SeqNo::from(1u32)),
        "expected Backtracking, got {:?}",
        result
    );
}

#[test]
fn test_backtrack_to_confirmed_or_below_returns_error() {
    let app = CounterApp;
    let mut state = new_state();
    state.handle_preemptive_update(&app, make_batch(1, &[1])).unwrap();
    let _ = state.handle_update_confirmed(SeqNo::from(1u32)).unwrap();
    let err = state.backtrack(&app, SeqNo::from(1u32), 1u32, SeqNo::from(1u32)).unwrap_err();
    assert!(
        matches!(err, BacktrackError::BacktrackToConfirmedOrBelow {
            backtrack_seq,
            confirmed_seq,
        } if backtrack_seq == SeqNo::from(1u32) && confirmed_seq == SeqNo::from(1u32)),
        "expected BacktrackToConfirmedOrBelow, got {:?}",
        err
    );
}

#[test]
fn test_confirmed_update_errors_with_one_pending_preemptive() {
    let app = CounterApp;
    let mut state = new_state();
    state.handle_preemptive_update(&app, make_batch(1, &[10])).unwrap();
    let err = state.handle_confirmed_update(&app, make_batch(2, &[5])).err().unwrap();
    assert!(
        matches!(err, ConfirmedUpdateError::PendingPreemptiveUpdates {
            confirmed_update_seq,
            preemptive_seq,
            confirmed_seq,
        } if confirmed_update_seq == SeqNo::from(2u32)
          && preemptive_seq == SeqNo::from(1u32)
          && confirmed_seq == SeqNo::zero()),
        "unexpected error: {:?}",
        err
    );
}

#[test]
fn test_confirmed_update_errors_with_multiple_pending_preemptive() {
    let app = CounterApp;
    let mut state = new_state();
    state.handle_preemptive_update(&app, make_batch(1, &[1])).unwrap();
    state.handle_preemptive_update(&app, make_batch(2, &[2])).unwrap();
    state.handle_preemptive_update(&app, make_batch(3, &[3])).unwrap();
    let err = state.handle_confirmed_update(&app, make_batch(4, &[4])).err().unwrap();
    assert!(
        matches!(err, ConfirmedUpdateError::PendingPreemptiveUpdates {
            confirmed_update_seq,
            preemptive_seq,
            confirmed_seq,
        } if confirmed_update_seq == SeqNo::from(4u32)
          && preemptive_seq == SeqNo::from(3u32)
          && confirmed_seq == SeqNo::zero()),
        "unexpected error: {:?}",
        err
    );
}

#[test]
fn test_confirmed_update_errors_with_partially_confirmed_preemptive() {
    let app = CounterApp;
    let mut state = new_state();
    state.handle_preemptive_update(&app, make_batch(1, &[1])).unwrap();
    state.handle_preemptive_update(&app, make_batch(2, &[2])).unwrap();
    let _ = state.handle_update_confirmed(SeqNo::from(1u32)).unwrap();
    let err = state.handle_confirmed_update(&app, make_batch(3, &[3])).err().unwrap();
    assert!(
        matches!(err, ConfirmedUpdateError::PendingPreemptiveUpdates {
            confirmed_update_seq,
            preemptive_seq,
            confirmed_seq,
        } if confirmed_update_seq == SeqNo::from(3u32)
          && preemptive_seq == SeqNo::from(2u32)
          && confirmed_seq == SeqNo::from(1u32)),
        "unexpected error: {:?}",
        err
    );
}

#[test]
fn test_confirmed_update_accepted_with_empty_queue() {
    let app = CounterApp;
    let mut state = new_state();
    let replies = state.handle_confirmed_update(&app, make_batch(1, &[7])).unwrap();
    assert_eq!(replies.len(), 1);
    assert_eq!(state.sequence_number(), SeqNo::from(1u32));
    assert_eq!(state.confirmed_seq_no(), SeqNo::from(1u32));
    assert_eq!(*state.preemptive_state(), 7);
}

#[test]
fn test_confirmed_update_accepted_after_queue_fully_drained() {
    let app = CounterApp;
    let mut state = new_state();
    state.handle_preemptive_update(&app, make_batch(1, &[10])).unwrap();
    state.handle_preemptive_update(&app, make_batch(2, &[20])).unwrap();
    let _ = state.handle_update_confirmed(SeqNo::from(1u32)).unwrap();
    let _ = state.handle_update_confirmed(SeqNo::from(2u32)).unwrap();
    let replies = state.handle_confirmed_update(&app, make_batch(3, &[5])).unwrap();
    assert_eq!(replies.len(), 1);
    assert_eq!(state.sequence_number(), SeqNo::from(3u32));
    assert_eq!(state.confirmed_seq_no(), SeqNo::from(3u32));
    assert_eq!(*state.preemptive_state(), 35);
}

#[test]
fn test_multiple_confirmed_updates_accepted_without_preemptive() {
    let app = CounterApp;
    let mut state = new_state();
    let _ = state.handle_confirmed_update(&app, make_batch(1, &[3])).unwrap();
    let _ = state.handle_confirmed_update(&app, make_batch(2, &[7])).unwrap();
    let replies = state.handle_confirmed_update(&app, make_batch(3, &[10])).unwrap();
    assert_eq!(replies.len(), 1);
    assert_eq!(state.sequence_number(), SeqNo::from(3u32));
    assert_eq!(*state.preemptive_state(), 20);
}

#[test]
fn test_initial_seq_is_as_provided() {
    let pipeline = ConfirmedRequestPipeline::<u32>::new(SeqNo::zero(), 0u32);
    assert_eq!(pipeline.sequence_number(), SeqNo::zero());
}

#[test]
fn test_execute_update_advances_seq() {
    let app = CounterApp;
    let mut pipeline = ConfirmedRequestPipeline::new(SeqNo::zero(), 0u32);
    pipeline.execute_update(&app, make_batch(1, &[10]));
    assert_eq!(pipeline.sequence_number(), SeqNo::from(1u32));
}

#[test]
fn test_execute_update_changes_state() {
    let app = CounterApp;
    let mut pipeline = ConfirmedRequestPipeline::new(SeqNo::zero(), 0u32);
    pipeline.execute_update(&app, make_batch(1, &[10]));
    pipeline.execute_update(&app, make_batch(2, &[20]));
    pipeline.execute_update(&app, make_batch(3, &[30]));
    let (seq, state) = pipeline.take_state_snapshot();
    assert_eq!(seq, SeqNo::from(3u32));
    assert_eq!(state, 60u32);
}

#[test]
fn test_execute_update_returns_reply_batch() {
    let app = CounterApp;
    let mut pipeline = ConfirmedRequestPipeline::new(SeqNo::zero(), 0u32);
    let replies = pipeline.execute_update(&app, make_batch(1, &[5, 3]));
    assert_eq!(replies.len(), 2);
    let inner = replies.into_inner();
    assert_eq!(*inner[0].reply(), 5u32);
    assert_eq!(*inner[1].reply(), 8u32);
}

#[test]
fn test_take_state_snapshot_does_not_mutate() {
    let app = CounterApp;
    let mut pipeline = ConfirmedRequestPipeline::new(SeqNo::zero(), 0u32);
    pipeline.execute_update(&app, make_batch(1, &[42]));
    let (seq1, state1) = pipeline.take_state_snapshot();
    let (seq2, state2) = pipeline.take_state_snapshot();
    assert_eq!(seq1, seq2);
    assert_eq!(state1, state2);
    assert_eq!(pipeline.sequence_number(), SeqNo::from(1u32));
}

#[test]
fn test_install_state_message_replaces_state_and_seq() {
    let app = CounterApp;
    let mut pipeline = ConfirmedRequestPipeline::new(SeqNo::zero(), 0u32);
    pipeline.execute_update(&app, make_batch(1, &[10]));
    pipeline.install_state_message(SeqNo::from(50u32), 999u32);
    let (seq, state) = pipeline.take_state_snapshot();
    assert_eq!(seq, SeqNo::from(50u32));
    assert_eq!(state, 999u32);
}

#[test]
fn test_execute_after_install_uses_new_state() {
    let app = CounterApp;
    let mut pipeline = ConfirmedRequestPipeline::new(SeqNo::zero(), 0u32);
    pipeline.install_state_message(SeqNo::from(10u32), 100u32);
    pipeline.execute_update(&app, make_batch(11, &[5]));
    let (seq, state) = pipeline.take_state_snapshot();
    assert_eq!(seq, SeqNo::from(11u32));
    assert_eq!(state, 105u32);
}

#[test]
fn backtrack_skips_pending_batches_already_confirmed_elsewhere() {
    let app = CounterApp;
    let mut state = new_state();
    state.handle_preemptive_update(&app, make_batch(1, &[4])).unwrap();
    state.handle_preemptive_update(&app, make_batch(2, &[5])).unwrap();
    state.handle_preemptive_update(&app, make_batch(3, &[6])).unwrap();
    // The confirmed copy already holds batch 1: only batch 2 is replayed on it.
    state.backtrack(&app, SeqNo::from(1u32), 4u32, SeqNo::from(3u32)).unwrap();
    assert_eq!(state.confirmed_seq_no(), SeqNo::from(1u32));
    assert_eq!(state.sequence_number(), SeqNo::from(2u32));
    assert_eq!(state.pending_count(), 1);
    assert_eq!(*state.preemptive_state(), 9);
    // Nothing between the confirmed number and the backtrack point: nothing replayed.
    let mut state = new_state();
    state.handle_preemptive_update(&app, make_batch(1, &[4])).unwrap();
    state.backtrack(&app, SeqNo::from(1u32), 4u32, SeqNo::from(2u32)).unwrap();
    assert_eq!(state.pending_count(), 0);
    assert_eq!(state.sequence_number(), SeqNo::from(1u32));
    assert_eq!(*state.preemptive_state(), 4);
}
