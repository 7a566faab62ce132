//! End-to-end runs of the dual-state executor, driven synchronously: every message a
//! worker would send on a channel is handed straight to the other worker, and the
//! snapshots the confirmed worker emits are collected in order.

use std::collections::VecDeque;

use atlas_preemptive::application::{Application, ReplicaState};
use atlas_preemptive::batch::{NodeId, UpdateBatch, UpdateInfo};
use atlas_preemptive::confirmed_worker::{ConfirmedUpdateExecutor, ConfirmedWorkerAction, PreemptiveToConfirmedMsg};
use atlas_preemptive::dual_state::{
    dispatch_execution_request, ConfirmedUpdateMessage, Dispatch, DualPreemptiveWorker, PreemptiveWorkMessage,
    PreemptiveWorkerAction,
};
use atlas_preemptive::exec_handle::{PreemptiveExecutionRequest, RunMode};
use atlas_preemptive::kv_app::{CalcApp, CalcOp, CounterApp};
use atlas_preemptive::preemptive_requests::PreemptiveState;
use atlas_preemptive::seq_no::SeqNo;

fn make_batch(seq: u32, ops: &[u32]) -> UpdateBatch<u32> {
    let mut batch = UpdateBatch::new(SeqNo::from(seq));
    for &op in ops {
        batch.add(
            UpdateInfo::new_session_based(NodeId::from(0), SeqNo::zero(), SeqNo::from(op)),
            op,
        );
    }
    batch
}

fn make_calc_batch(seq: u32, op: CalcOp) -> UpdateBatch<CalcOp> {
    let mut batch = UpdateBatch::new(SeqNo::from(seq));
    batch.add(
        UpdateInfo::new_session_based(NodeId::from(0), SeqNo::zero(), SeqNo::from(seq)),
        op,
    );
    batch
}

fn pool() -> rayon::ThreadPool {
    rayon::ThreadPoolBuilder::new().num_threads(2).build().unwrap()
}

/// The two workers of a dual-state executor, wired to each other.
struct Workers<S, A>
where
    S: ReplicaState + Clone + Sync,
    A: Application<S> + Sync,
    A::Request: Sync,
    A::Reply: Send,
{
    app: A,
    preemptive: DualPreemptiveWorker<S, A>,
    confirmed: ConfirmedUpdateExecutor<S, A>,
    emitted: VecDeque<(SeqNo, S)>,
}

impl<S, A> Workers<S, A>
where
    S: ReplicaState + Clone + Sync,
    A: Application<S> + Sync,
    A::Request: Sync,
    A::Reply: Send,
{
    fn spawn(app: A, state: S) -> Self {
        Workers {
            app,
            preemptive: DualPreemptiveWorker::new(PreemptiveState::new((SeqNo::zero(), state.clone()))),
            confirmed: ConfirmedUpdateExecutor::new(SeqNo::zero(), state, pool()),
            emitted: VecDeque::new(),
        }
    }

    /// A message on the speculating worker's work channel.
    fn send_preemptive(&mut self, message: PreemptiveWorkMessage<A::Request>) {
        let actions = self.preemptive.handle_work_message(&self.app, message);
        self.perform_preemptive(actions);
    }

    /// A state on the speculating worker's state channel.
    fn send_preemptive_state(&mut self, seq: SeqNo, state: S) {
        assert_eq!(self.preemptive.run_mode(), RunMode::StateTransfer);
        self.preemptive.install_state(seq, state);
    }

    /// A message on the confirmed worker's update channel.
    fn send_confirmed(&mut self, message: ConfirmedUpdateMessage<A::Request>) {
        let actions = self.confirmed.handle_work_message(&self.app, message);
        self.perform_confirmed(actions);
    }

    /// A state on the confirmed worker's state channel.
    fn send_confirmed_state(&mut self, seq: SeqNo, state: S) {
        assert_eq!(self.confirmed.run_mode(), RunMode::StateTransfer);
        self.confirmed.install_state(seq, state);
        self.perform_confirmed(Vec::new());
    }

    fn perform_preemptive(&mut self, actions: Vec<PreemptiveWorkerAction<A::Request, A::Reply>>) {
        for action in actions {
            match action {
                PreemptiveWorkerAction::ForwardConfirmed(batch, emit) => {
                    let message = if emit {
                        PreemptiveToConfirmedMsg::UpdateConfirmedEmitAppState(batch)
                    } else {
                        PreemptiveToConfirmedMsg::UpdateConfirmed(batch)
                    };
                    let actions = self.confirmed.handle_preemptive_msg(message);
                    self.perform_confirmed(actions);
                },
                PreemptiveWorkerAction::FetchConfirmedState(batch) => {
                    let copy = self.confirmed.handle_preemptive_msg(PreemptiveToConfirmedMsg::RequestStateCopy);
                    let (seq, state) = match copy.into_iter().next() {
                        Some(ConfirmedWorkerAction::SendStateCopy(seq, state)) => (seq, state),
                        _ => panic!("the confirmed worker answers with a copy of its state"),
                    };
                    let actions = self.preemptive.backtrack_with_state(&self.app, seq, state, batch);
                    self.perform_preemptive(actions);
                },
                // Replies go to clients and refusals to the log: neither reaches the other worker.
                _ => {},
            }
        }
    }

    fn perform_confirmed(&mut self, actions: Vec<ConfirmedWorkerAction<A::Reply, S>>) {
        let mut actions = actions;
        if self.confirmed.run_mode() == RunMode::Normal {
            actions.extend(self.confirmed.execute_updates(&self.app));
        }
        for action in actions {
            if let ConfirmedWorkerAction::EmitAppState(seq, state) = action {
                self.emitted.push_back((seq, state));
            }
        }
    }

    /// The next snapshot on the state emission channel.
    fn recv_state(&mut self) -> (SeqNo, S) {
        self.emitted.pop_front().expect("no app state was emitted")
    }
}

/// The whole executor: the front routes each request to the workers.
struct Executor<S, A>
where
    S: ReplicaState + Clone + Sync,
    A: Application<S> + Sync,
    A::Request: Sync,
    A::Reply: Send,
{
    workers: Workers<S, A>,
    run_mode: RunMode,
}

impl<S, A> Executor<S, A>
where
    S: ReplicaState + Clone + Sync,
    A: Application<S> + Sync,
    A::Request: Sync + Clone,
    A::Reply: Send,
{
    fn spawn(app: A, state: S) -> Self {
        Executor { workers: Workers::spawn(app, state), run_mode: RunMode::Normal }
    }

    fn request(&mut self, request: PreemptiveExecutionRequest<A::Request>) {
        assert_eq!(self.run_mode, RunMode::Normal);
        match dispatch_execution_request(request) {
            Dispatch::EnterStateTransfer => self.run_mode = RunMode::StateTransfer,
            Dispatch::CatchUpBoth(batches) => {
                self.workers.send_confirmed(ConfirmedUpdateMessage::CatchUp(batches.clone()));
                self.workers.send_preemptive(PreemptiveWorkMessage::CatchUp(batches));
            },
            Dispatch::ToConfirmed(message) => self.workers.send_confirmed(message),
            Dispatch::ToPreemptive(message) => self.workers.send_preemptive(message),
        }
    }

    fn queue_preemptive_update(&mut self, batch: UpdateBatch<A::Request>) {
        self.request(PreemptiveExecutionRequest::PreemptiveUpdate(batch));
    }

    fn queue_update_finalized(&mut self, seq: SeqNo) {
        self.request(PreemptiveExecutionRequest::PreemptiveUpdateFinalized(seq));
    }

    fn queue_update_finalized_and_get_appstate(&mut self, seq: SeqNo) {
        self.request(PreemptiveExecutionRequest::PreemptiveUpdateFinalizedAndGetAppstate(seq));
    }

    fn queue_update(&mut self, batch: UpdateBatch<A::Request>) {
        self.request(PreemptiveExecutionRequest::UpdateBatch(batch));
    }

    fn queue_update_and_get_appstate(&mut self, batch: UpdateBatch<A::Request>) {
        self.request(PreemptiveExecutionRequest::UpdateBatchAndGetAppstate(batch));
    }

    fn poll_state_channel(&mut self) {
        self.request(PreemptiveExecutionRequest::PollStateChannel);
    }

    /// A state from state transfer: both workers are told to wait for it, then get it.
    fn install_state(&mut self, seq: SeqNo, state: S) {
        assert_eq!(self.run_mode, RunMode::StateTransfer);
        self.run_mode = RunMode::Normal;
        self.workers.send_preemptive(PreemptiveWorkMessage::PollStateChannel);
        self.workers.send_preemptive_state(seq, state.clone());
        self.workers.send_confirmed(ConfirmedUpdateMessage::StateTransferAvailable);
        self.workers.send_confirmed_state(seq, state);
    }

    fn recv_state(&mut self) -> (SeqNo, S) {
        self.workers.recv_state()
    }
}

fn spawn_workers() -> Workers<u32, CounterApp> {
    Workers::spawn(CounterApp, 0u32)
}

fn spawn_calc_workers() -> Workers<i64, CalcApp> {
    Workers::spawn(CalcApp, 0i64)
}

fn spawn_executor() -> Executor<u32, CounterApp> {
    Executor::spawn(CounterApp, 0u32)
}

fn assert_states_converge(preemptive_path: &(SeqNo, i64), direct_path: &(SeqNo, i64), expected: i64) {
    assert_eq!(preemptive_path.1, expected, "preemptive path");
    assert_eq!(direct_path.1, expected, "direct path");
    assert_eq!(preemptive_path.1, direct_path.1);
}

// ---------------------------------------------------------------------------
// Preemptive worker -> confirmed worker: normal path
// ---------------------------------------------------------------------------

#[test]
fn test_preemptive_then_confirmed_emits_correct_state() {
    let mut w = spawn_workers();
    w.send_preemptive(PreemptiveWorkMessage::PreemptiveUpdate(make_batch(1, &[10])));
    w.send_preemptive(PreemptiveWorkMessage::PreemptiveUpdateConfirmedAndGetAppState(SeqNo::from(1u32)));
    let msg = w.recv_state();
    assert_eq!(msg.0, SeqNo::from(1u32));
    assert_eq!(msg.1, 10u32);
}

#[test]
fn test_multiple_preemptive_updates_confirmed_in_order() {
    let mut w = spawn_workers();
    w.send_preemptive(PreemptiveWorkMessage::PreemptiveUpdate(make_batch(1, &[3])));
    w.send_preemptive(PreemptiveWorkMessage::PreemptiveUpdate(make_batch(2, &[7])));
    w.send_preemptive(PreemptiveWorkMessage::PreemptiveUpdateConfirmed(SeqNo::from(1u32)));
    w.send_preemptive(PreemptiveWorkMessage::PreemptiveUpdateConfirmedAndGetAppState(SeqNo::from(2u32)));
    let msg = w.recv_state();
    assert_eq!(msg.0, SeqNo::from(2u32));
    assert_eq!(msg.1, 10u32);
}

// ---------------------------------------------------------------------------
// Directly-finalized batches through the preemptive worker
// ---------------------------------------------------------------------------

#[test]
fn test_confirmed_update_emits_correct_state() {
    let mut w = spawn_workers();
    w.send_preemptive(PreemptiveWorkMessage::ConfirmedUpdateAndGetAppstate(make_batch(1, &[42])));
    let msg = w.recv_state();
    assert_eq!(msg.0, SeqNo::from(1u32));
    assert_eq!(msg.1, 42u32);
}

#[test]
fn test_multiple_confirmed_updates_accumulate() {
    let mut w = spawn_workers();
    w.send_preemptive(PreemptiveWorkMessage::ConfirmedUpdate(make_batch(1, &[5])));
    w.send_preemptive(PreemptiveWorkMessage::ConfirmedUpdateAndGetAppstate(make_batch(2, &[10])));
    let msg = w.recv_state();
    assert_eq!(msg.0, SeqNo::from(2u32));
    assert_eq!(msg.1, 15u32);
}

// ---------------------------------------------------------------------------
// Mixed preemptive and confirmed updates
// ---------------------------------------------------------------------------

#[test]
fn test_confirmed_update_after_all_preemptive_confirmed() {
    let mut w = spawn_workers();
    w.send_preemptive(PreemptiveWorkMessage::PreemptiveUpdate(make_batch(1, &[10])));
    w.send_preemptive(PreemptiveWorkMessage::PreemptiveUpdateConfirmed(SeqNo::from(1u32)));
    w.send_preemptive(PreemptiveWorkMessage::ConfirmedUpdateAndGetAppstate(make_batch(2, &[5])));
    let msg = w.recv_state();
    assert_eq!(msg.0, SeqNo::from(2u32));
    assert_eq!(msg.1, 15u32);
}

#[test]
fn test_confirmed_update_after_multiple_preemptive_confirmed() {
    let mut w = spawn_workers();
    w.send_preemptive(PreemptiveWorkMessage::PreemptiveUpdate(make_batch(1, &[3])));
    w.send_preemptive(PreemptiveWorkMessage::PreemptiveUpdate(make_batch(2, &[7])));
    w.send_preemptive(PreemptiveWorkMessage::PreemptiveUpdateConfirmed(SeqNo::from(1u32)));
    w.send_preemptive(PreemptiveWorkMessage::PreemptiveUpdateConfirmed(SeqNo::from(2u32)));
    w.send_preemptive(PreemptiveWorkMessage::ConfirmedUpdateAndGetAppstate(make_batch(3, &[20])));
    let msg = w.recv_state();
    assert_eq!(msg.0, SeqNo::from(3u32));
    assert_eq!(msg.1, 30u32);
}

#[test]
fn test_interleaved_preemptive_and_confirmed_blocks() {
    let mut w = spawn_workers();
    w.send_preemptive(PreemptiveWorkMessage::PreemptiveUpdate(make_batch(1, &[10])));
    w.send_preemptive(PreemptiveWorkMessage::PreemptiveUpdateConfirmed(SeqNo::from(1u32)));
    w.send_preemptive(PreemptiveWorkMessage::ConfirmedUpdate(make_batch(2, &[5])));
    w.send_preemptive(PreemptiveWorkMessage::PreemptiveUpdate(make_batch(3, &[20])));
    w.send_preemptive(PreemptiveWorkMessage::PreemptiveUpdateConfirmedAndGetAppState(SeqNo::from(3u32)));
    let msg = w.recv_state();
    assert_eq!(msg.0, SeqNo::from(3u32));
    assert_eq!(msg.1, 35u32);
}

#[test]
fn test_multiple_alternating_preemptive_and_confirmed_blocks() {
    let mut w = spawn_workers();
    w.send_preemptive(PreemptiveWorkMessage::PreemptiveUpdate(make_batch(1, &[1])));
    w.send_preemptive(PreemptiveWorkMessage::PreemptiveUpdateConfirmed(SeqNo::from(1u32)));
    w.send_preemptive(PreemptiveWorkMessage::ConfirmedUpdate(make_batch(2, &[2])));
    w.send_preemptive(PreemptiveWorkMessage::ConfirmedUpdate(make_batch(3, &[3])));
    w.send_preemptive(PreemptiveWorkMessage::PreemptiveUpdate(make_batch(4, &[4])));
    w.send_preemptive(PreemptiveWorkMessage::PreemptiveUpdate(make_batch(5, &[5])));
    w.send_preemptive(PreemptiveWorkMessage::PreemptiveUpdateConfirmed(SeqNo::from(4u32)));
    w.send_preemptive(PreemptiveWorkMessage::PreemptiveUpdateConfirmed(SeqNo::from(5u32)));
    w.send_preemptive(PreemptiveWorkMessage::ConfirmedUpdateAndGetAppstate(make_batch(6, &[6])));
    let msg = w.recv_state();
    assert_eq!(msg.0, SeqNo::from(6u32));
    assert_eq!(msg.1, 21u32);
}

// ---------------------------------------------------------------------------
// State transfer
// ---------------------------------------------------------------------------

#[test]
fn test_state_transfer_then_confirmed_update() {
    let mut w = spawn_workers();
    w.send_preemptive(PreemptiveWorkMessage::PollStateChannel);
    w.send_preemptive_state(SeqNo::from(5u32), 100);
    w.send_confirmed(ConfirmedUpdateMessage::StateTransferAvailable);
    w.send_confirmed_state(SeqNo::from(5u32), 100);
    w.send_preemptive(PreemptiveWorkMessage::ConfirmedUpdateAndGetAppstate(make_batch(6, &[10])));
    let msg = w.recv_state();
    assert_eq!(msg.0, SeqNo::from(6u32));
    assert_eq!(msg.1, 110u32);
}

#[test]
fn test_state_transfer_preemptive_worker_then_confirm() {
    let mut w = spawn_workers();
    w.send_preemptive(PreemptiveWorkMessage::PreemptiveUpdate(make_batch(1, &[99])));
    w.send_preemptive(PreemptiveWorkMessage::PollStateChannel);
    w.send_preemptive_state(SeqNo::from(5u32), 50);
    w.send_confirmed(ConfirmedUpdateMessage::StateTransferAvailable);
    w.send_confirmed_state(SeqNo::from(5u32), 50);
    w.send_preemptive(PreemptiveWorkMessage::PreemptiveUpdate(make_batch(6, &[5])));
    w.send_preemptive(PreemptiveWorkMessage::PreemptiveUpdateConfirmedAndGetAppState(SeqNo::from(6u32)));
    let msg = w.recv_state();
    assert_eq!(msg.0, SeqNo::from(6u32));
    assert_eq!(msg.1, 55u32);
}

#[test]
fn test_state_transfer_and_catchup_then_resume() {
    let mut w = spawn_workers();
    w.send_preemptive(PreemptiveWorkMessage::PollStateChannel);
    w.send_preemptive_state(SeqNo::from(3u32), 30);
    w.send_confirmed(ConfirmedUpdateMessage::StateTransferAvailable);
    w.send_confirmed_state(SeqNo::from(3u32), 30);
    w.send_confirmed(ConfirmedUpdateMessage::CatchUp(vec![make_batch(4, &[10])]));
    w.send_preemptive(PreemptiveWorkMessage::CatchUp(vec![make_batch(4, &[10])]));
    w.send_preemptive(PreemptiveWorkMessage::PreemptiveUpdate(make_batch(5, &[7])));
    w.send_preemptive(PreemptiveWorkMessage::PreemptiveUpdateConfirmedAndGetAppState(SeqNo::from(5u32)));
    let msg = w.recv_state();
    assert_eq!(msg.0, SeqNo::from(5u32));
    assert_eq!(msg.1, 47u32);
}

// ---------------------------------------------------------------------------
// Backtrack
// ---------------------------------------------------------------------------

#[test]
fn test_backtrack_reexecutes_on_fresh_confirmed_state() {
    let mut w = spawn_workers();
    w.send_preemptive(PreemptiveWorkMessage::PreemptiveUpdate(make_batch(1, &[10])));
    w.send_preemptive(PreemptiveWorkMessage::PreemptiveUpdate(make_batch(2, &[20])));
    w.send_preemptive(PreemptiveWorkMessage::PreemptiveUpdate(make_batch(1, &[5])));
    w.send_preemptive(PreemptiveWorkMessage::PreemptiveUpdateConfirmedAndGetAppState(SeqNo::from(1u32)));
    let msg = w.recv_state();
    assert_eq!(msg.0, SeqNo::from(1u32));
    assert_eq!(msg.1, 5u32);
}

// ---------------------------------------------------------------------------
// Invalid scenarios
// ---------------------------------------------------------------------------

#[test]
fn test_update_ahead_of_head_is_dropped_and_worker_continues() {
    let mut w = spawn_workers();
    w.send_preemptive(PreemptiveWorkMessage::PreemptiveUpdate(make_batch(3, &[99])));
    w.send_preemptive(PreemptiveWorkMessage::PreemptiveUpdate(make_batch(1, &[7])));
    w.send_preemptive(PreemptiveWorkMessage::PreemptiveUpdateConfirmedAndGetAppState(SeqNo::from(1u32)));
    let msg = w.recv_state();
    assert_eq!(msg.1, 7u32);
}

// ---------------------------------------------------------------------------
// Calculator: speculation then confirmation against direct confirmation
// ---------------------------------------------------------------------------

#[test]
fn test_calc_sequential_ops_states_converge() {
    let mut a = spawn_calc_workers();
    for (seq, op) in [(1, CalcOp::Add(10)), (2, CalcOp::Mul(3)), (3, CalcOp::Sub(5))] {
        a.send_preemptive(PreemptiveWorkMessage::PreemptiveUpdate(make_calc_batch(seq, op)));
    }
    a.send_preemptive(PreemptiveWorkMessage::PreemptiveUpdateConfirmed(SeqNo::from(1u32)));
    a.send_preemptive(PreemptiveWorkMessage::PreemptiveUpdateConfirmed(SeqNo::from(2u32)));
    a.send_preemptive(PreemptiveWorkMessage::PreemptiveUpdateConfirmedAndGetAppState(SeqNo::from(3u32)));
    let result_a = a.recv_state();

    let mut b = spawn_calc_workers();
    for (seq, op) in [(1, CalcOp::Add(10)), (2, CalcOp::Mul(3))] {
        b.send_preemptive(PreemptiveWorkMessage::ConfirmedUpdate(make_calc_batch(seq, op)));
    }
    b.send_preemptive(PreemptiveWorkMessage::ConfirmedUpdateAndGetAppstate(make_calc_batch(3, CalcOp::Sub(5))));
    let result_b = b.recv_state();

    assert_states_converge(&result_a, &result_b, 25);
}

#[test]
fn test_calc_mixed_preemptive_and_confirmed_converge() {
    let mut a = spawn_calc_workers();
    a.send_preemptive(PreemptiveWorkMessage::PreemptiveUpdate(make_calc_batch(1, CalcOp::Add(10))));
    a.send_preemptive(PreemptiveWorkMessage::PreemptiveUpdate(make_calc_batch(2, CalcOp::Mul(3))));
    a.send_preemptive(PreemptiveWorkMessage::PreemptiveUpdateConfirmed(SeqNo::from(1u32)));
    a.send_preemptive(PreemptiveWorkMessage::PreemptiveUpdateConfirmed(SeqNo::from(2u32)));
    a.send_preemptive(PreemptiveWorkMessage::ConfirmedUpdateAndGetAppstate(make_calc_batch(3, CalcOp::Sub(5))));
    let result_a = a.recv_state();

    let mut b = spawn_calc_workers();
    b.send_preemptive(PreemptiveWorkMessage::ConfirmedUpdate(make_calc_batch(1, CalcOp::Add(10))));
    b.send_preemptive(PreemptiveWorkMessage::ConfirmedUpdate(make_calc_batch(2, CalcOp::Mul(3))));
    b.send_preemptive(PreemptiveWorkMessage::ConfirmedUpdateAndGetAppstate(make_calc_batch(3, CalcOp::Sub(5))));
    let result_b = b.recv_state();

    assert_states_converge(&result_a, &result_b, 25);
}

#[test]
fn test_calc_backtrack_states_converge() {
    let mut a = spawn_calc_workers();
    a.send_preemptive(PreemptiveWorkMessage::PreemptiveUpdate(make_calc_batch(1, CalcOp::Add(100))));
    a.send_preemptive(PreemptiveWorkMessage::PreemptiveUpdate(make_calc_batch(2, CalcOp::Mul(2))));
    a.send_preemptive(PreemptiveWorkMessage::PreemptiveUpdate(make_calc_batch(1, CalcOp::Add(7))));
    a.send_preemptive(PreemptiveWorkMessage::PreemptiveUpdateConfirmedAndGetAppState(SeqNo::from(1u32)));
    let result_a = a.recv_state();

    let mut b = spawn_calc_workers();
    b.send_preemptive(PreemptiveWorkMessage::ConfirmedUpdateAndGetAppstate(make_calc_batch(1, CalcOp::Add(7))));
    let result_b = b.recv_state();

    assert_states_converge(&result_a, &result_b, 7);
}

#[test]
fn test_calc_state_transfer_states_converge() {
    let mut a = spawn_calc_workers();
    a.send_preemptive(PreemptiveWorkMessage::PollStateChannel);
    a.send_preemptive_state(SeqNo::from(3u32), 50);
    a.send_confirmed(ConfirmedUpdateMessage::StateTransferAvailable);
    a.send_confirmed_state(SeqNo::from(3u32), 50);
    a.send_preemptive(PreemptiveWorkMessage::PreemptiveUpdate(make_calc_batch(4, CalcOp::Mul(2))));
    a.send_preemptive(PreemptiveWorkMessage::PreemptiveUpdate(make_calc_batch(5, CalcOp::Sub(20))));
    a.send_preemptive(PreemptiveWorkMessage::PreemptiveUpdateConfirmed(SeqNo::from(4u32)));
    a.send_preemptive(PreemptiveWorkMessage::PreemptiveUpdateConfirmedAndGetAppState(SeqNo::from(5u32)));
    let result_a = a.recv_state();

    let mut b = spawn_calc_workers();
    b.send_preemptive(PreemptiveWorkMessage::PollStateChannel);
    b.send_preemptive_state(SeqNo::from(3u32), 50);
    b.send_confirmed(ConfirmedUpdateMessage::StateTransferAvailable);
    b.send_confirmed_state(SeqNo::from(3u32), 50);
    b.send_preemptive(PreemptiveWorkMessage::ConfirmedUpdate(make_calc_batch(4, CalcOp::Mul(2))));
    b.send_preemptive(PreemptiveWorkMessage::ConfirmedUpdateAndGetAppstate(make_calc_batch(5, CalcOp::Sub(20))));
    let result_b = b.recv_state();

    assert_states_converge(&result_a, &result_b, 80);
}

#[test]
fn test_calc_catchup_then_resume_states_converge() {
    let mut a = spawn_calc_workers();
    a.send_preemptive(PreemptiveWorkMessage::PollStateChannel);
    a.send_preemptive_state(SeqNo::from(2u32), 10);
    a.send_confirmed(ConfirmedUpdateMessage::StateTransferAvailable);
    a.send_confirmed_state(SeqNo::from(2u32), 10);
    a.send_confirmed(ConfirmedUpdateMessage::CatchUp(vec![make_calc_batch(3, CalcOp::Add(5))]));
    a.send_preemptive(PreemptiveWorkMessage::CatchUp(vec![make_calc_batch(3, CalcOp::Add(5))]));
    a.send_preemptive(PreemptiveWorkMessage::PreemptiveUpdate(make_calc_batch(4, CalcOp::Mul(4))));
    a.send_preemptive(PreemptiveWorkMessage::PreemptiveUpdateConfirmedAndGetAppState(SeqNo::from(4u32)));
    let result_a = a.recv_state();

    let mut b = spawn_calc_workers();
    b.send_preemptive(PreemptiveWorkMessage::PollStateChannel);
    b.send_preemptive_state(SeqNo::from(2u32), 10);
    b.send_confirmed(ConfirmedUpdateMessage::StateTransferAvailable);
    b.send_confirmed_state(SeqNo::from(2u32), 10);
    b.send_confirmed(ConfirmedUpdateMessage::CatchUp(vec![make_calc_batch(3, CalcOp::Add(5))]));
    b.send_preemptive(PreemptiveWorkMessage::CatchUp(vec![make_calc_batch(3, CalcOp::Add(5))]));
    b.send_preemptive(PreemptiveWorkMessage::ConfirmedUpdateAndGetAppstate(make_calc_batch(4, CalcOp::Mul(4))));
    let result_b = b.recv_state();

    assert_states_converge(&result_a, &result_b, 60);
}

// ---------------------------------------------------------------------------
// The whole executor: requests routed by the front
// ---------------------------------------------------------------------------

#[test]
fn test_executor_empty_batch_preemptive() {
    let mut e = spawn_executor();
    e.queue_preemptive_update(make_batch(0, &[]));
    e.queue_update_finalized_and_get_appstate(SeqNo::from(0u32));
    let msg = e.recv_state();
    assert_eq!(msg.0, SeqNo::from(0u32));
    assert_eq!(msg.1, 0);
}

#[test]
fn test_executor_empty_batch_confirmed() {
    let mut e = spawn_executor();
    e.queue_update_and_get_appstate(make_batch(0, &[]));
    let msg = e.recv_state();
    assert_eq!(msg.0, SeqNo::from(0u32));
    assert_eq!(msg.1, 0);
}

#[test]
fn test_executor_confirmed_then_preemptive() {
    let mut e = spawn_executor();
    e.queue_update(make_batch(0, &[10]));
    e.queue_preemptive_update(make_batch(1, &[20]));
    e.queue_update_finalized_and_get_appstate(SeqNo::from(1u32));
    let msg = e.recv_state();
    assert_eq!(msg.0, SeqNo::from(1u32));
    assert_eq!(msg.1, 30);
}

#[test]
fn test_executor_survives_multiple_requests() {
    let mut e = spawn_executor();
    e.queue_preemptive_update(make_batch(1, &[10]));
    e.queue_update_finalized_and_get_appstate(SeqNo::from(1u32));
    let msg = e.recv_state();
    assert_eq!(msg.0, SeqNo::from(1u32));
    assert_eq!(msg.1, 10);
}

#[test]
fn test_executor_many_sequential_preemptive_batches() {
    let mut e = spawn_executor();
    let mut expected = 0u32;
    for seq in 1u32..=10 {
        let value = seq * 2;
        expected += value;
        e.queue_preemptive_update(make_batch(seq, &[value]));
        e.queue_update_finalized_and_get_appstate(SeqNo::from(seq));
        let msg = e.recv_state();
        assert_eq!(msg.0, SeqNo::from(seq));
        assert_eq!(msg.1, expected, "cumulative confirmed state mismatch at seq {seq}");
    }
}

#[test]
fn test_executor_direct_confirmed_updates_accumulate() {
    let mut e = spawn_executor();
    e.queue_update(make_batch(1, &[5]));
    e.queue_update_and_get_appstate(make_batch(2, &[10]));
    let msg = e.recv_state();
    assert_eq!(msg.0, SeqNo::from(2u32));
    assert_eq!(msg.1, 15);
}

#[test]
fn test_executor_state_transfer_then_resume() {
    let mut e = spawn_executor();
    e.poll_state_channel();
    e.install_state(SeqNo::from(5u32), 100);
    e.queue_update_and_get_appstate(make_batch(6, &[10]));
    let msg = e.recv_state();
    assert_eq!(msg.0, SeqNo::from(6u32));
    assert_eq!(msg.1, 110);
}

#[test]
fn test_executor_first_batch_seq_zero_confirmed() {
    let mut e = spawn_executor();
    e.queue_update_and_get_appstate(make_batch(0, &[10]));
    let msg = e.recv_state();
    assert_eq!(msg.0, SeqNo::from(0u32));
    assert_eq!(msg.1, 10);
}

#[test]
fn test_executor_first_batch_seq_zero_preemptive() {
    let mut e = spawn_executor();
    e.queue_preemptive_update(make_batch(0, &[10]));
    e.queue_update_finalized_and_get_appstate(SeqNo::from(0u32));
    let msg = e.recv_state();
    assert_eq!(msg.0, SeqNo::from(0u32));
    assert_eq!(msg.1, 10);
}

#[test]
fn test_executor_first_batch_seq_one_confirmed() {
    let mut e = spawn_executor();
    e.queue_update_and_get_appstate(make_batch(1, &[10]));
    let msg = e.recv_state();
    assert_eq!(msg.0, SeqNo::from(1u32));
    assert_eq!(msg.1, 10);
}

#[test]
fn test_executor_zero_indexed_sequence() {
    let mut e = spawn_executor();
    let mut expected = 0u32;
    for seq in 0u32..=9 {
        let value = seq + 1;
        expected += value;
        e.queue_preemptive_update(make_batch(seq, &[value]));
        e.queue_update_finalized_and_get_appstate(SeqNo::from(seq));
        let msg = e.recv_state();
        assert_eq!(msg.0, SeqNo::from(seq));
        assert_eq!(msg.1, expected, "cumulative confirmed state mismatch at seq {seq}");
    }
}

#[test]
fn test_executor_survives_requests_after_state_transfer() {
    let mut e = spawn_executor();
    e.poll_state_channel();
    e.install_state(SeqNo::from(3u32), 50);
    e.queue_update(make_batch(4, &[10]));
    e.queue_update_and_get_appstate(make_batch(5, &[7]));
    let msg = e.recv_state();
    assert_eq!(msg.0, SeqNo::from(5u32));
    assert_eq!(msg.1, 67);
}

// ---------------------------------------------------------------------------
// Further runs
// ---------------------------------------------------------------------------

#[test]
fn executor_finalize_of_unknown_seq_keeps_the_workers_running() {
    let mut e = spawn_executor();
    e.queue_update_finalized(SeqNo::from(4u32));
    e.queue_preemptive_update(make_batch(1, &[3]));
    e.queue_update_finalized_and_get_appstate(SeqNo::from(1u32));
    let msg = e.recv_state();
    assert_eq!(msg.0, SeqNo::from(1u32));
    assert_eq!(msg.1, 3);
}

#[test]
fn seq_zero_is_adopted_only_as_the_first_batch() {
    let mut w = spawn_workers();
    w.send_preemptive(PreemptiveWorkMessage::PreemptiveUpdate(make_batch(1, &[4])));
    // The head is now 1: a batch at 0 is behind it and asks for a backtrack, which the
    // confirmed state at 0 refuses.
    w.send_preemptive(PreemptiveWorkMessage::PreemptiveUpdate(make_batch(0, &[9])));
    assert_eq!(*w.preemptive.state().preemptive_state(), 4);
    w.send_preemptive(PreemptiveWorkMessage::PreemptiveUpdateConfirmedAndGetAppState(SeqNo::from(1u32)));
    let msg = w.recv_state();
    assert_eq!(msg.1, 4);
}
