use atlas_preemptive::batch::{NodeId, UpdateBatch, UpdateInfo};
use atlas_preemptive::confirmed_worker::{
    ConfirmedUpdateExecutor, ConfirmedWorkerAction, PreemptiveToConfirmedMsg, QueuedUpdate,
};
use atlas_preemptive::dual_state::{
    dispatch_execution_request, ConfirmedUpdateMessage, Dispatch, DualPreemptiveWorker,
    PreemptiveWorkMessage, PreemptiveWorkerAction,
};
use atlas_preemptive::exec_handle::{PreemptiveExecutionRequest, UnorderedBatch};
use atlas_preemptive::kv_app::CounterApp;
use atlas_preemptive::preemptive_requests::{
    BacktrackError, ConfirmedUpdateError, ExecuteUpdateError, HandleUpdateConfirmedError, PreemptiveState,
};
use atlas_preemptive::exec_handle::RunMode;
use atlas_preemptive::seq_no::SeqNo;

fn make_batch(seq: u32, ops: &[u32]) -> UpdateBatch<u32> {
    let mut batch = UpdateBatch::new(SeqNo::from(seq));
    for &op in ops {
        batch.add(
            UpdateInfo::new_session_based(NodeId::from(0), SeqNo::zero(), SeqNo::from(op)),
            op,
        );
    }
    batch
}

fn pool() -> rayon::ThreadPool {
    rayon::ThreadPoolBuilder::new().num_threads(2).build().unwrap()
}

fn preemptive_worker() -> DualPreemptiveWorker<u32, CounterApp> {
    DualPreemptiveWorker::new(PreemptiveState::new((SeqNo::zero(), 0u32)))
}

fn confirmed_worker() -> ConfirmedUpdateExecutor<u32, CounterApp> {
    ConfirmedUpdateExecutor::new(SeqNo::zero(), 0u32, pool())
}

// ---------------------------------------------------------------------------
// Routing of execution requests
// ---------------------------------------------------------------------------

#[test]
fn dispatch_routes_each_request_to_its_worker() {
    assert!(matches!(
        dispatch_execution_request::<u32>(PreemptiveExecutionRequest::PollStateChannel),
        Dispatch::EnterStateTransfer
    ));
    match dispatch_execution_request(PreemptiveExecutionRequest::CatchUp(vec![make_batch(1, &[1])])) {
        Dispatch::CatchUpBoth(bs) => assert_eq!(bs.len(), 1),
        _ => panic!("catch-up goes to both workers"),
    }
    assert!(matches!(
        dispatch_execution_request(PreemptiveExecutionRequest::UpdateBatch(make_batch(1, &[1]))),
        Dispatch::ToConfirmed(ConfirmedUpdateMessage::UpdateBatch(_))
    ));
    assert!(matches!(
        dispatch_execution_request(PreemptiveExecutionRequest::UpdateBatchAndGetAppstate(make_batch(1, &[1]))),
        Dispatch::ToConfirmed(ConfirmedUpdateMessage::UpdateFinalizedAndGetAppstateBatch(_))
    ));
    assert!(matches!(
        dispatch_execution_request(PreemptiveExecutionRequest::PreemptiveUpdate(make_batch(1, &[1]))),
        Dispatch::ToPreemptive(PreemptiveWorkMessage::PreemptiveUpdate(_))
    ));
    match dispatch_execution_request::<u32>(PreemptiveExecutionRequest::PreemptiveUpdateFinalized(SeqNo::from(4u32))) {
        Dispatch::ToPreemptive(PreemptiveWorkMessage::PreemptiveUpdateConfirmed(s)) => assert_eq!(s, SeqNo::from(4u32)),
        _ => panic!("confirmations go to the speculating worker"),
    }
    assert!(matches!(
        dispatch_execution_request::<u32>(PreemptiveExecutionRequest::PreemptiveUpdateFinalizedAndGetAppstate(SeqNo::from(4u32))),
        Dispatch::ToPreemptive(PreemptiveWorkMessage::PreemptiveUpdateConfirmedAndGetAppState(_))
    ));
    assert!(matches!(
        dispatch_execution_request::<u32>(PreemptiveExecutionRequest::ExecuteUnordered(UnorderedBatch { updates: Vec::new() })),
        Dispatch::ToConfirmed(ConfirmedUpdateMessage::ExecuteUnordered(_))
    ));
}

// ---------------------------------------------------------------------------
// Speculating worker
// ---------------------------------------------------------------------------

#[test]
fn preemptive_worker_confirms_and_forwards() {
    let app = CounterApp;
    let mut w = preemptive_worker();
    let actions = w.handle_work_message(&app, PreemptiveWorkMessage::PreemptiveUpdate(make_batch(1, &[5, 3])));
    assert!(actions.is_empty());
    assert_eq!(*w.state().preemptive_state(), 8);
    let actions = w.handle_work_message(&app, PreemptiveWorkMessage::PreemptiveUpdateConfirmedAndGetAppState(SeqNo::from(1u32)));
    assert_eq!(actions.len(), 2);
    match &actions[0] {
        PreemptiveWorkerAction::Deliver(seq, replies) => {
            assert_eq!(*seq, SeqNo::from(1u32));
            let replies: Vec<u32> = replies.replies.iter().map(|r| r.reply).collect();
            assert_eq!(replies, vec![5, 8]);
        },
        _ => panic!("replies are delivered first"),
    }
    match &actions[1] {
        PreemptiveWorkerAction::ForwardConfirmed(batch, emit) => {
            assert_eq!(batch.seq, SeqNo::from(1u32));
            assert!(*emit);
        },
        _ => panic!("then the batch is forwarded"),
    }
    assert_eq!(w.state().confirmed_seq_no(), SeqNo::from(1u32));
}

#[test]
fn preemptive_worker_refuses_bad_confirmations() {
    let app = CounterApp;
    let mut w = preemptive_worker();
    let actions = w.handle_work_message(&app, PreemptiveWorkMessage::PreemptiveUpdateConfirmed(SeqNo::from(1u32)));
    assert!(matches!(
        actions[0],
        PreemptiveWorkerAction::ConfirmFailed(HandleUpdateConfirmedError::EmptyQueue { .. })
    ));
    w.handle_work_message(&app, PreemptiveWorkMessage::PreemptiveUpdate(make_batch(1, &[1])));
    let actions = w.handle_work_message(&app, PreemptiveWorkMessage::PreemptiveUpdateConfirmed(SeqNo::from(2u32)));
    assert!(matches!(
        actions[0],
        PreemptiveWorkerAction::ConfirmFailed(HandleUpdateConfirmedError::SeqMismatch { .. })
    ));
}

#[test]
fn preemptive_worker_asks_for_the_confirmed_state_to_backtrack() {
    let app = CounterApp;
    let mut w = preemptive_worker();
    w.handle_work_message(&app, PreemptiveWorkMessage::PreemptiveUpdate(make_batch(1, &[10])));
    w.handle_work_message(&app, PreemptiveWorkMessage::PreemptiveUpdate(make_batch(2, &[20])));
    let actions = w.handle_work_message(&app, PreemptiveWorkMessage::PreemptiveUpdate(make_batch(1, &[7])));
    let batch = match actions.into_iter().next() {
        Some(PreemptiveWorkerAction::FetchConfirmedState(batch)) => batch,
        _ => panic!("a batch behind the head asks for the confirmed state"),
    };
    assert_eq!(*w.state().preemptive_state(), 30);
    let actions = w.backtrack_with_state(&app, SeqNo::zero(), 0u32, batch);
    assert!(actions.is_empty());
    assert_eq!(*w.state().preemptive_state(), 7);
    assert_eq!(w.state().sequence_number(), SeqNo::from(1u32));
}

#[test]
fn preemptive_worker_reports_refused_backtrack_and_future_batches() {
    let app = CounterApp;
    let mut w = preemptive_worker();
    let actions = w.backtrack_with_state(&app, SeqNo::from(3u32), 0u32, make_batch(2, &[1]));
    assert!(matches!(
        actions[0],
        PreemptiveWorkerAction::BacktrackFailed(BacktrackError::BacktrackToConfirmedOrBelow { .. })
    ));
    let actions = w.handle_work_message(&app, PreemptiveWorkMessage::PreemptiveUpdate(make_batch(5, &[1])));
    assert!(matches!(
        actions[0],
        PreemptiveWorkerAction::ExecuteFailed(ExecuteUpdateError::FutureRequest(_, _))
    ));
}

#[test]
fn preemptive_worker_catch_up_and_state_transfer() {
    let app = CounterApp;
    let mut w = preemptive_worker();
    w.handle_work_message(&app, PreemptiveWorkMessage::PreemptiveUpdate(make_batch(1, &[100])));
    let actions = w.handle_work_message(
        &app,
        PreemptiveWorkMessage::CatchUp(vec![make_batch(1, &[1]), make_batch(2, &[2])]),
    );
    assert!(actions.is_empty());
    // Catch-up batches are applied to the speculative state as it stands.
    assert_eq!(*w.state().preemptive_state(), 103);
    assert_eq!(w.state().confirmed_seq_no(), SeqNo::from(2u32));
    assert_eq!(w.state().pending_count(), 0);
    w.handle_work_message(&app, PreemptiveWorkMessage::PollStateChannel);
    assert_eq!(w.run_mode(), RunMode::StateTransfer);
    w.install_state(SeqNo::from(9u32), 40);
    assert_eq!(w.run_mode(), RunMode::Normal);
    assert_eq!(*w.state().preemptive_state(), 40);
    assert_eq!(w.state().sequence_number(), SeqNo::from(9u32));
}

// ---------------------------------------------------------------------------
// Confirmed worker
// ---------------------------------------------------------------------------

#[test]
fn confirmed_worker_applies_queued_batches_in_order() {
    let app = CounterApp;
    let mut c = confirmed_worker();
    assert!(c.handle_preemptive_msg(PreemptiveToConfirmedMsg::UpdateConfirmed(make_batch(2, &[20]))).is_empty());
    assert!(c.execute_updates(&app).is_empty());
    assert_eq!(*c.confirmed().confirmed_state(), 0);
    assert!(c.handle_preemptive_msg(PreemptiveToConfirmedMsg::UpdateConfirmedEmitAppState(make_batch(1, &[10]))).is_empty());
    let actions = c.execute_updates(&app);
    assert_eq!(actions.len(), 1);
    match &actions[0] {
        ConfirmedWorkerAction::EmitAppState(seq, state) => {
            assert_eq!(*seq, SeqNo::from(1u32));
            assert_eq!(*state, 10);
        },
        _ => panic!("a snapshot follows the batch that asked for one"),
    }
    assert_eq!(*c.confirmed().confirmed_state(), 30);
    assert_eq!(c.confirmed().sequence_number(), SeqNo::from(2u32));
    assert_eq!(c.queued_count(), 0);
}

#[test]
fn confirmed_worker_refuses_batches_behind_its_head() {
    let app = CounterApp;
    let mut c = confirmed_worker();
    c.handle_work_message(&app, ConfirmedUpdateMessage::UpdateBatch(make_batch(1, &[1])));
    c.execute_updates(&app);
    let actions = c.handle_work_message(&app, ConfirmedUpdateMessage::UpdateBatch(make_batch(1, &[1])));
    match &actions[0] {
        ConfirmedWorkerAction::QueueRefused(seq) => assert_eq!(*seq, SeqNo::from(1u32)),
        _ => panic!("an already applied batch is refused"),
    }
    assert!(!c.queue_update(QueuedUpdate::Update(make_batch(0, &[1]))));
}

#[test]
fn confirmed_worker_catch_up_delivers_and_moves_its_head() {
    let app = CounterApp;
    let mut c = confirmed_worker();
    c.handle_work_message(&app, ConfirmedUpdateMessage::UpdateBatch(make_batch(2, &[50])));
    c.handle_work_message(&app, ConfirmedUpdateMessage::UpdateBatch(make_batch(4, &[7])));
    let actions = c.handle_work_message(
        &app,
        ConfirmedUpdateMessage::CatchUp(vec![make_batch(1, &[1]), make_batch(2, &[2]), make_batch(3, &[3])]),
    );
    assert_eq!(actions.len(), 3);
    match &actions[2] {
        ConfirmedWorkerAction::Deliver(Some(seq), replies) => {
            assert_eq!(*seq, SeqNo::from(3u32));
            assert_eq!(replies.replies[0].reply, 6);
        },
        _ => panic!("each caught-up batch's replies are delivered"),
    }
    assert_eq!(c.queued_count(), 1);
    c.execute_updates(&app);
    assert_eq!(*c.confirmed().confirmed_state(), 13);
    assert_eq!(c.confirmed().sequence_number(), SeqNo::from(4u32));
}

#[test]
fn confirmed_worker_answers_state_copies_and_unordered_reads() {
    let app = CounterApp;
    let mut c = confirmed_worker();
    c.handle_work_message(&app, ConfirmedUpdateMessage::UpdateBatch(make_batch(1, &[9])));
    c.execute_updates(&app);
    let actions = c.handle_preemptive_msg(PreemptiveToConfirmedMsg::RequestStateCopy);
    match &actions[0] {
        ConfirmedWorkerAction::SendStateCopy(seq, state) => {
            assert_eq!(*seq, SeqNo::from(1u32));
            assert_eq!(*state, 9);
        },
        _ => panic!("a state copy is sent back"),
    }
    let reads = make_batch(0, &[1, 2, 3]).into_inner().1;
    let actions = c.handle_work_message(&app, ConfirmedUpdateMessage::ExecuteUnordered(UnorderedBatch { updates: reads }));
    match &actions[0] {
        ConfirmedWorkerAction::Deliver(None, replies) => {
            let replies: Vec<u32> = replies.replies.iter().map(|r| r.reply).collect();
            assert_eq!(replies, vec![9, 9, 9]);
        },
        _ => panic!("unordered replies are delivered"),
    }
}

#[test]
fn confirmed_worker_state_transfer() {
    let app = CounterApp;
    let mut c = confirmed_worker();
    c.handle_work_message(&app, ConfirmedUpdateMessage::UpdateBatch(make_batch(3, &[1])));
    c.handle_work_message(&app, ConfirmedUpdateMessage::StateTransferAvailable);
    assert_eq!(c.run_mode(), RunMode::StateTransfer);
    c.install_state(SeqNo::from(7u32), 70);
    assert_eq!(c.run_mode(), RunMode::Normal);
    assert_eq!(c.queued_count(), 0);
    c.handle_work_message(&app, ConfirmedUpdateMessage::UpdateBatch(make_batch(8, &[5])));
    c.execute_updates(&app);
    assert_eq!(*c.confirmed().confirmed_state(), 75);
}

#[test]
fn preemptive_worker_forwards_then_applies_a_finalized_batch() {
    let app = CounterApp;
    let mut w = preemptive_worker();
    let actions = w.handle_work_message(&app, PreemptiveWorkMessage::ConfirmedUpdateAndGetAppstate(make_batch(1, &[4, 6])));
    assert_eq!(actions.len(), 2);
    match &actions[0] {
        PreemptiveWorkerAction::ForwardConfirmed(batch, emit) => {
            assert_eq!(batch.seq, SeqNo::from(1u32));
            assert!(*emit);
        },
        _ => panic!("the batch goes to the confirmed worker first"),
    }
    match &actions[1] {
        PreemptiveWorkerAction::Deliver(seq, replies) => {
            assert_eq!(*seq, SeqNo::from(1u32));
            let replies: Vec<u32> = replies.replies.iter().map(|r| r.reply).collect();
            assert_eq!(replies, vec![4, 10]);
        },
        _ => panic!("then its replies are delivered"),
    }
    assert_eq!(*w.state().preemptive_state(), 10);
    assert_eq!(w.state().confirmed_seq_no(), SeqNo::from(1u32));
}

#[test]
fn preemptive_worker_refuses_a_finalized_batch_while_speculating() {
    let app = CounterApp;
    let mut w = preemptive_worker();
    w.handle_work_message(&app, PreemptiveWorkMessage::PreemptiveUpdate(make_batch(1, &[1])));
    let actions = w.handle_work_message(&app, PreemptiveWorkMessage::ConfirmedUpdate(make_batch(2, &[5])));
    assert_eq!(actions.len(), 2);
    assert!(matches!(actions[0], PreemptiveWorkerAction::ForwardConfirmed(_, false)));
    assert!(matches!(
        actions[1],
        PreemptiveWorkerAction::ConfirmedUpdateFailed(ConfirmedUpdateError::PendingPreemptiveUpdates { .. })
    ));
    assert_eq!(*w.state().preemptive_state(), 1);
}

#[test]
fn fresh_workers_adopt_a_first_batch_at_their_own_sequence_number() {
    let app = CounterApp;
    let mut w = preemptive_worker();
    assert!(w.handle_work_message(&app, PreemptiveWorkMessage::PreemptiveUpdate(make_batch(0, &[10]))).is_empty());
    assert_eq!(w.state().sequence_number(), SeqNo::zero());
    assert_eq!(w.state().pending_count(), 1);
    // Once a batch ran, the head's own number is behind the speculation.
    let actions = w.handle_work_message(&app, PreemptiveWorkMessage::PreemptiveUpdate(make_batch(0, &[1])));
    assert!(matches!(actions[0], PreemptiveWorkerAction::ExecuteFailed(ExecuteUpdateError::FutureRequest(_, _))));

    let mut c = confirmed_worker();
    assert!(c.queue_update(QueuedUpdate::Update(make_batch(0, &[10]))));
    c.execute_updates(&app);
    assert_eq!(*c.confirmed().confirmed_state(), 10);
    assert_eq!(c.confirmed().sequence_number(), SeqNo::zero());
    // The first batch is gone: the same number is now behind the queue's head.
    assert!(!c.queue_update(QueuedUpdate::Update(make_batch(0, &[10]))));
}

#[test]
fn executors_start_from_the_given_state_or_the_applications_own() {
    let app = CounterApp;
    let (seq, state) = atlas_preemptive::executor::starting_state(&app, None);
    assert_eq!(seq, SeqNo::zero());
    assert_eq!(state, 0);
    let (seq, state) = atlas_preemptive::executor::starting_state(&app, Some((5u32, vec![1u32, 2])));
    assert_eq!(seq, SeqNo::zero());
    assert_eq!(state, 8);
}
