# atlas_preemptive

Preemptive (speculative) execution for state machine replication, verified with Verus.

Decided batches are executed before their decision is final; when the decision
arrives the speculative result is kept, and when speculation went wrong the
executor backtracks to the confirmed state and replays what is still valid.

## Layout

- `src/` — the verified library.
  - `model.rs`, `cache.rs`, `crud.rs`: the key-value model of a CRUD state, deltas
    and accumulated caches.
  - `caching_state.rs`, `pending_state.rs`, `speculation.rs`: single-threaded
    speculative execution over caches, with a reorder buffer for early batches.
  - `execution_unit.rs`, `scalable_state.rs`, `scalable_worker.rs`: parallel
    speculation with access logging and collision detection (rayon behind trusted
    wrappers), and the worker that drives it.
  - `observer.rs`: the step of the notifier that registers observers and forwards
    observed events to them.
  - `kv_parallel.rs`: for the key-value application, parallel speculation gives
    exactly what executing each batch in order gives.
  - `preemptive_requests.rs`, `confirmed_requests.rs`, `dual_state.rs`,
    `confirmed_worker.rs`: the executor that keeps two full copies of the state, a
    speculative one and a confirmed one.
  - `application.rs`, `kv_app.rs`, `batch.rs`, `seq_no.rs`, `exec_handle.rs`,
    `metric.rs` and the rest: the application interface, example applications, the
    metric descriptors and shared types.
- `tests/` — unit and end-to-end tests; the end-to-end ones drive the workers
  synchronously.
- `app/` — the threads, channels and error types with `Display` around the library.
