use atlas_preemptive::batch::{NodeId, UpdateBatch, UpdateInfo};
use atlas_preemptive::crud::{CRUDState, KvState};
use atlas_preemptive::exec_handle::{PreemptiveExecutionRequest, UnorderedBatch};
use atlas_preemptive::kv_app::{KvApp, KvOp};
use atlas_preemptive::pending_state::{CachingPreemptiveState, ConfirmError};
use atlas_preemptive::scalable_state::ScalableCachingPreemptiveState;
use atlas_preemptive::exec_handle::RunMode;
use atlas_preemptive::scalable_worker::{ScalableCachingPreemptiveWorker, WorkerAction};
use atlas_preemptive::seq_no::SeqNo;

type Ops<'a> = &'a [(&'a [u8], Option<&'a [u8]>)];

fn make_batch(seq: u32, ops: Ops) -> UpdateBatch<KvOp> {
    let mut batch = UpdateBatch::new(SeqNo::from(seq));
    for (key, value) in ops {
        batch.add(
            UpdateInfo::new_session_based(NodeId::from(0), SeqNo::zero(), SeqNo::zero()),
            KvOp { key: key.to_vec(), value: value.map(|v| v.to_vec()) },
        );
    }
    batch
}

fn pool() -> rayon::ThreadPool {
    rayon::ThreadPoolBuilder::new().num_threads(2).build().unwrap()
}

/// Drives a worker the way its thread does: requests in normal mode, a state install in
/// state-transfer mode; checkpoints are captured as snapshots of the confirmed state.
struct Driver {
    worker: ScalableCachingPreemptiveWorker<KvState, KvApp>,
    app: KvApp,
    checkpoints: Vec<(SeqNo, KvState)>,
    delivered: Vec<Option<SeqNo>>,
    errors: usize,
}

impl Driver {
    fn new() -> Self {
        let state = ScalableCachingPreemptiveState::expecting((SeqNo::zero(), KvState::new()), pool());
        Driver {
            worker: ScalableCachingPreemptiveWorker::new(state, pool()),
            app: KvApp,
            checkpoints: Vec::new(),
            delivered: Vec::new(),
            errors: 0,
        }
    }

    fn send(&mut self, request: PreemptiveExecutionRequest<KvOp>) {
        assert_eq!(self.worker.run_mode(), RunMode::Normal);
        for action in self.worker.handle_request(&self.app, request) {
            match action {
                WorkerAction::Deliver(seq, _) => self.delivered.push(seq),
                WorkerAction::Checkpoint(seq) => {
                    let snapshot = self.worker.state().confirmed_state().duplicate();
                    self.checkpoints.push((seq, snapshot));
                },
                _ => self.errors += 1,
            }
        }
    }

    fn preemptive(&mut self, seq: u32, ops: Ops) {
        self.send(PreemptiveExecutionRequest::PreemptiveUpdate(make_batch(seq, ops)));
    }

    fn finalized(&mut self, seq: u32) {
        self.send(PreemptiveExecutionRequest::PreemptiveUpdateFinalized(SeqNo::from(seq)));
    }

    fn finalized_and_get_appstate(&mut self, seq: u32) {
        self.send(PreemptiveExecutionRequest::PreemptiveUpdateFinalizedAndGetAppstate(SeqNo::from(seq)));
    }

    fn update(&mut self, seq: u32, ops: Ops) {
        self.send(PreemptiveExecutionRequest::UpdateBatch(make_batch(seq, ops)));
    }

    fn update_and_get_appstate(&mut self, seq: u32, ops: Ops) {
        self.send(PreemptiveExecutionRequest::UpdateBatchAndGetAppstate(make_batch(seq, ops)));
    }

    fn install(&mut self, seq: u32, state: KvState) {
        self.send(PreemptiveExecutionRequest::PollStateChannel);
        assert_eq!(self.worker.run_mode(), RunMode::StateTransfer);
        self.worker.install_state(SeqNo::from(seq), state);
    }

    fn last_checkpoint(&self) -> &(SeqNo, KvState) {
        self.checkpoints.last().expect("no checkpoint emitted")
    }
}

fn read(state: &KvState, key: &[u8]) -> Option<Vec<u8>> {
    state.peek("default", key)
}

fn installed_state() -> KvState {
    let mut s = KvState::new();
    s.update("default", b"base", b"installed");
    s
}

#[test]
fn integration_tests_test_basic_preemptive_then_finalize() {
    let mut d = Driver::new();
    d.preemptive(0, &[(b"k1", Some(b"v1"))]);
    d.finalized_and_get_appstate(0);
    let (seq, state) = d.last_checkpoint();
    assert_eq!(*seq, SeqNo::from(0u32));
    assert_eq!(read(state, b"k1"), Some(b"v1".to_vec()));
}

#[test]
fn integration_tests_test_multiple_preemptive_confirmed_in_order() {
    let mut d = Driver::new();
    d.preemptive(0, &[(b"k1", Some(b"v1"))]);
    d.preemptive(1, &[(b"k2", Some(b"v2"))]);
    d.preemptive(2, &[(b"k3", Some(b"v3"))]);
    d.finalized(0);
    d.finalized(1);
    d.finalized_and_get_appstate(2);
    let (seq, state) = d.last_checkpoint();
    assert_eq!(*seq, SeqNo::from(2u32));
    assert_eq!(read(state, b"k1"), Some(b"v1".to_vec()));
    assert_eq!(read(state, b"k2"), Some(b"v2".to_vec()));
    assert_eq!(read(state, b"k3"), Some(b"v3".to_vec()));
    assert_eq!(d.delivered, vec![Some(SeqNo::from(0u32)), Some(SeqNo::from(1u32)), Some(SeqNo::from(2u32))]);
}

#[test]
fn integration_tests_test_direct_confirmed_update() {
    let mut d = Driver::new();
    d.update_and_get_appstate(1, &[(b"k1", Some(b"direct"))]);
    let (seq, state) = d.last_checkpoint();
    assert_eq!(*seq, SeqNo::from(1u32));
    assert_eq!(read(state, b"k1"), Some(b"direct".to_vec()));
}

#[test]
fn integration_tests_test_tombstone_delete_confirmed() {
    let mut d = Driver::new();
    d.update(1, &[(b"k1", Some(b"v1"))]);
    d.preemptive(2, &[(b"k1", None)]);
    d.finalized_and_get_appstate(2);
    let (seq, state) = d.last_checkpoint();
    assert_eq!(*seq, SeqNo::from(2u32));
    assert!(read(state, b"k1").is_none());
}

#[test]
fn test_collision_write_write_confirmed_state_correct() {
    let mut d = Driver::new();
    d.preemptive(0, &[(b"k1", Some(b"first")), (b"k1", Some(b"second"))]);
    d.finalized_and_get_appstate(0);
    let (seq, state) = d.last_checkpoint();
    assert_eq!(*seq, SeqNo::from(0u32));
    assert_eq!(read(state, b"k1"), Some(b"second".to_vec()));
}

#[test]
fn test_collision_write_then_delete_confirmed_state_correct() {
    let mut d = Driver::new();
    d.preemptive(0, &[(b"k1", Some(b"written")), (b"k1", None)]);
    d.finalized_and_get_appstate(0);
    let (seq, state) = d.last_checkpoint();
    assert_eq!(*seq, SeqNo::from(0u32));
    assert!(read(state, b"k1").is_none());
}

#[test]
fn test_collision_mixed_batch_correct_state() {
    let mut d = Driver::new();
    d.preemptive(
        0,
        &[(b"k1", Some(b"v1")), (b"k2", Some(b"v2_a")), (b"k2", Some(b"v2_b")), (b"k3", Some(b"v3"))],
    );
    d.finalized_and_get_appstate(0);
    let (_, state) = d.last_checkpoint();
    assert_eq!(read(state, b"k1"), Some(b"v1".to_vec()));
    assert_eq!(read(state, b"k2"), Some(b"v2_b".to_vec()));
    assert_eq!(read(state, b"k3"), Some(b"v3".to_vec()));
}

#[test]
fn integration_tests_test_catch_up_discards_pending_and_applies_batches() {
    let mut d = Driver::new();
    d.preemptive(1, &[(b"speculative", Some(b"gone"))]);
    d.send(PreemptiveExecutionRequest::CatchUp(vec![
        make_batch(1, &[(b"k1", Some(b"caught"))]),
        make_batch(2, &[(b"k2", Some(b"up"))]),
    ]));
    d.update_and_get_appstate(3, &[(b"k3", Some(b"after"))]);
    let (seq, state) = d.last_checkpoint();
    assert_eq!(*seq, SeqNo::from(3u32));
    assert_eq!(read(state, b"k1"), Some(b"caught".to_vec()));
    assert_eq!(read(state, b"k2"), Some(b"up".to_vec()));
    assert_eq!(read(state, b"k3"), Some(b"after".to_vec()));
    assert!(read(state, b"speculative").is_none());
}

#[test]
fn integration_tests_test_state_transfer_then_resume() {
    let mut d = Driver::new();
    d.preemptive(1, &[(b"old", Some(b"data"))]);
    d.install(5, installed_state());
    d.update_and_get_appstate(6, &[(b"new", Some(b"write"))]);
    let (seq, state) = d.last_checkpoint();
    assert_eq!(*seq, SeqNo::from(6u32));
    assert_eq!(read(state, b"base"), Some(b"installed".to_vec()));
    assert_eq!(read(state, b"new"), Some(b"write".to_vec()));
    assert!(read(state, b"old").is_none());
}

#[test]
fn integration_tests_test_out_of_order_update_is_buffered_and_replayed() {
    let mut d = Driver::new();
    d.preemptive(2, &[(b"k2", Some(b"third"))]);
    d.preemptive(1, &[(b"k1", Some(b"second"))]);
    d.preemptive(0, &[(b"k0", Some(b"first"))]);
    d.finalized(0);
    d.finalized(1);
    d.finalized_and_get_appstate(2);
    let (seq, state) = d.last_checkpoint();
    assert_eq!(*seq, SeqNo::from(2u32));
    assert_eq!(read(state, b"k0"), Some(b"first".to_vec()));
    assert_eq!(read(state, b"k1"), Some(b"second".to_vec()));
    assert_eq!(read(state, b"k2"), Some(b"third".to_vec()));
}

#[test]
fn integration_tests_test_backtrack_corrects_speculative_state() {
    let mut d = Driver::new();
    d.preemptive(0, &[(b"k1", Some(b"wrong"))]);
    d.preemptive(1, &[(b"k2", Some(b"v2"))]);
    d.preemptive(0, &[(b"k1", Some(b"correct"))]);
    d.finalized_and_get_appstate(0);
    let (seq, state) = d.last_checkpoint();
    assert_eq!(*seq, SeqNo::from(0u32));
    assert_eq!(read(state, b"k1"), Some(b"correct".to_vec()));
    assert!(read(state, b"k2").is_none());
}

#[test]
fn integration_tests_test_backtrack_after_collision_batch() {
    let mut d = Driver::new();
    d.preemptive(0, &[(b"k1", Some(b"v1_a")), (b"k1", Some(b"v1_b"))]);
    d.preemptive(1, &[(b"k2", Some(b"v2"))]);
    d.preemptive(1, &[(b"k2", Some(b"v2_corrected"))]);
    d.finalized(0);
    d.finalized_and_get_appstate(1);
    let (seq, state) = d.last_checkpoint();
    assert_eq!(*seq, SeqNo::from(1u32));
    assert_eq!(read(state, b"k1"), Some(b"v1_b".to_vec()));
    assert_eq!(read(state, b"k2"), Some(b"v2_corrected".to_vec()));
}

#[test]
fn integration_tests_test_convergence_write_sequence() {
    let ops: [(&[u8], &[u8]); 3] = [(b"k1", b"v1"), (b"k2", b"v2"), (b"k3", b"v3")];
    let mut a = Driver::new();
    for (i, (key, val)) in ops.iter().enumerate() {
        a.preemptive(i as u32, &[(key, Some(val))]);
    }
    a.finalized(0);
    a.finalized(1);
    a.finalized_and_get_appstate(2);
    let mut b = Driver::new();
    for (i, (key, val)) in ops[..2].iter().enumerate() {
        b.update(i as u32, &[(key, Some(val))]);
    }
    b.update_and_get_appstate(2, &[(ops[2].0, Some(ops[2].1))]);
    for (key, _) in ops.iter() {
        assert_eq!(
            read(&a.last_checkpoint().1, key),
            read(&b.last_checkpoint().1, key),
            "states diverge for key {:?}",
            key
        );
    }
}

#[test]
fn test_convergence_collision_batch_vs_direct() {
    let ops: Ops = &[(b"k1", Some(b"v1")), (b"k2", Some(b"v2_a")), (b"k2", Some(b"v2_b")), (b"k3", Some(b"v3"))];
    let mut a = Driver::new();
    a.preemptive(0, ops);
    a.finalized_and_get_appstate(0);
    let mut b = Driver::new();
    b.update_and_get_appstate(0, ops);
    for key in [b"k1" as &[u8], b"k2", b"k3"] {
        assert_eq!(
            read(&a.last_checkpoint().1, key),
            read(&b.last_checkpoint().1, key),
            "states diverge for key {:?}",
            key
        );
    }
}

#[test]
fn integration_tests_test_convergence_after_backtrack() {
    let mut a = Driver::new();
    a.preemptive(0, &[(b"k1", Some(b"wrong"))]);
    a.preemptive(1, &[(b"k2", Some(b"v2"))]);
    a.preemptive(0, &[(b"k1", Some(b"correct"))]);
    a.finalized_and_get_appstate(0);
    let mut b = Driver::new();
    b.update_and_get_appstate(0, &[(b"k1", Some(b"correct"))]);
    let (_, sa) = a.last_checkpoint();
    let (_, sb) = b.last_checkpoint();
    assert_eq!(read(sa, b"k1"), read(sb, b"k1"));
    assert_eq!(read(sa, b"k1"), Some(b"correct".to_vec()));
    assert!(read(sa, b"k2").is_none());
    assert!(read(sb, b"k2").is_none());
}

#[test]
fn integration_tests_test_convergence_after_state_transfer() {
    let mut a = Driver::new();
    a.install(5, installed_state());
    a.preemptive(6, &[(b"k1", Some(b"after"))]);
    a.finalized_and_get_appstate(6);
    let mut b = Driver::new();
    b.install(5, installed_state());
    b.update_and_get_appstate(6, &[(b"k1", Some(b"after"))]);
    for key in [b"base" as &[u8], b"k1"] {
        assert_eq!(
            read(&a.last_checkpoint().1, key),
            read(&b.last_checkpoint().1, key),
            "states diverge for key {:?}",
            key
        );
    }
    assert_eq!(read(&a.last_checkpoint().1, b"k1"), Some(b"after".to_vec()));
    assert_eq!(read(&a.last_checkpoint().1, b"base"), Some(b"installed".to_vec()));
}

#[test]
fn test_multiple_direct_confirmed_updates() {
    let app = KvApp;
    let mut s: CachingPreemptiveState<KvState, KvApp> = CachingPreemptiveState::new((SeqNo::one(), KvState::new()));
    s.handle_confirmed_update(&app, make_batch(1, &[(b"k1", Some(b"v1"))])).unwrap();
    s.handle_confirmed_update(&app, make_batch(2, &[(b"k2", Some(b"v2"))])).unwrap();
    s.handle_confirmed_update(&app, make_batch(3, &[(b"k1", Some(b"v3"))])).unwrap();
    assert_eq!(s.next_confirmed_seq(), SeqNo::from(4u32));
    assert_eq!(read(s.confirmed_state(), b"k1"), Some(b"v3".to_vec()));
    assert_eq!(read(s.confirmed_state(), b"k2"), Some(b"v2".to_vec()));
}

#[test]
fn test_backtrack_then_continue_execution() {
    let app = KvApp;
    let mut s: CachingPreemptiveState<KvState, KvApp> = CachingPreemptiveState::new((SeqNo::zero(), KvState::new()));
    s.handle_preemptive_update(&app, make_batch(0, &[(b"k1", Some(b"a"))])).unwrap();
    s.handle_preemptive_update(&app, make_batch(1, &[(b"k2", Some(b"b"))])).unwrap();
    s.backtrack(SeqNo::from(1u32)).unwrap();
    s.handle_preemptive_update(&app, make_batch(1, &[(b"k2", Some(b"c"))])).unwrap();
    s.handle_preemptive_update(&app, make_batch(2, &[(b"k3", Some(b"d"))])).unwrap();
    s.handle_update_confirmed(&app, SeqNo::from(0u32)).unwrap();
    s.handle_update_confirmed(&app, SeqNo::from(1u32)).unwrap();
    s.handle_update_confirmed(&app, SeqNo::from(2u32)).unwrap();
    assert_eq!(read(s.confirmed_state(), b"k1"), Some(b"a".to_vec()));
    assert_eq!(read(s.confirmed_state(), b"k2"), Some(b"c".to_vec()));
    assert_eq!(read(s.confirmed_state(), b"k3"), Some(b"d".to_vec()));
}

#[test]
fn worker_reports_refused_confirmations() {
    let mut d = Driver::new();
    let actions = d.worker.handle_request(&d.app, PreemptiveExecutionRequest::PreemptiveUpdateFinalized(SeqNo::from(3u32)));
    assert_eq!(actions.len(), 1);
    assert!(matches!(
        actions[0],
        WorkerAction::ConfirmFailed(ConfirmError::OutOfOrderConfirmation { .. })
    ));
    d.preemptive(0, &[(b"k0", Some(b"v0"))]);
    let actions = d.worker.handle_request(&d.app, PreemptiveExecutionRequest::UpdateBatch(make_batch(1, &[])));
    assert!(matches!(
        actions[0],
        WorkerAction::ConfirmFailed(ConfirmError::PendingPreemptiveUpdates { .. })
    ));
}

#[test]
fn worker_answers_unordered_reads_on_the_confirmed_state() {
    let mut d = Driver::new();
    d.update(0, &[(b"k", Some(b"confirmed"))]);
    d.preemptive(1, &[(b"k", Some(b"speculative"))]);
    let mut reads = UnorderedBatch { updates: Vec::new() };
    let probe = make_batch(0, &[(b"k", None)]);
    reads.updates = probe.into_inner().1;
    let actions = d.worker.handle_request(&d.app, PreemptiveExecutionRequest::ExecuteUnordered(reads));
    assert_eq!(actions.len(), 1);
    match &actions[0] {
        WorkerAction::Deliver(None, replies) => {
            assert_eq!(replies.len(), 1);
            assert_eq!(replies.replies[0].reply, Some(b"confirmed".to_vec()));
        },
        _ => panic!("expected unordered replies"),
    }
}
