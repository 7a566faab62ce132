//! Verified preemptive (speculative) execution for state machine replication.
//!
//! Decided batches are executed speculatively before consensus confirms them; the
//! library keeps the speculative results in layered write caches and flushes them to
//! the confirmed state when the confirmation arrives.

pub mod application;
pub mod batch;
pub mod cache;
pub mod caching_state;
pub mod client;
pub mod confirmed_requests;
pub mod confirmed_worker;
pub mod crud;
pub mod decision_execution;
pub mod dual_state;
pub mod exec_handle;
pub mod execution_unit;
pub mod executor;
pub mod kv_app;
pub mod kv_parallel;
pub mod metric;
pub mod observer;
pub mod model;
pub mod pending_state;
pub mod preemptive_requests;
pub mod reconfig;
pub mod scalable_state;
pub mod scalable_worker;
pub mod seq_no;
pub mod speculation;
pub mod serialize;
pub mod work_dividers;
