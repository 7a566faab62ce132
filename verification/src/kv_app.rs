use crate::application::{Application, CRUDApplication};
use crate::crud::{CRUDState, KvState};
use crate::model::{bytes_opt, entry_key, lookup, Contents, EntryKey};
use vstd::prelude::*;

verus! {

/// A key-value request: write `value` at `key`, or delete `key` when `value` is `None`.
#[derive(Debug, Clone)]
pub struct KvOp {
    pub key: Vec<u8>,
    pub value: Option<Vec<u8>>,
}

/// A key-value application over the single column `"default"`: each request writes or
/// deletes one key and replies with the value the key held before.
#[derive(Clone, Copy)]
pub struct KvApp;

/// The abstract view of a byte vector is its bytes.
pub proof fn lemma_bytes_deep_view(o: Option<Vec<u8>>)
    ensures
        o.deep_view() == bytes_opt(o),
{
    if let Some(v) = o {
        assert(v.deep_view() =~= v@);
    }
}

/// The contents and reply of a key-value request on `c`.
pub open spec fn kv_execute(c: Contents, op: KvOp) -> (Contents, Option<Seq<u8>>) {
    let k = entry_key("default", op.key@);
    match op.value {
        Some(v) => (c.insert(k, v@), lookup(c, k)),
        None => (c.remove(k), lookup(c, k)),
    }
}

impl KvApp {
    fn run<T: CRUDState>(state: &mut T, op: &KvOp) -> (reply: Option<Vec<u8>>)
        ensures
            (final(state).contents(), reply.deep_view()) == kv_execute(old(state).contents(), *op),
            final(state).frame() == old(state).frame(),
            final(state).accessed() == old(state).accessed().insert(entry_key("default", op.key@)),
    {
        let reply = match &op.value {
            Some(v) => state.update("default", op.key.as_slice(), v.as_slice()),
            None => state.delete("default", op.key.as_slice()),
        };
        proof {
            lemma_bytes_deep_view(reply);
        }
        reply
    }
}

impl Application<KvState> for KvApp {
    type Request = KvOp;

    type Reply = Option<Vec<u8>>;

    open spec fn initial_spec() -> Contents {
        Map::empty()
    }

    fn initial_state() -> (s: KvState) {
        KvState::new()
    }

    open spec fn update_spec(&self, state: Contents, request: KvOp) -> (Contents, Option<Seq<u8>>) {
        kv_execute(state, request)
    }

    open spec fn unordered_spec(&self, state: Contents, request: KvOp) -> Option<Seq<u8>> {
        lookup(state, entry_key("default", request.key@))
    }

    fn update(&self, state: &mut KvState, request: &KvOp) -> (reply: Option<Vec<u8>>) {
        KvApp::run(state, request)
    }

    fn unordered_execution(&self, state: &KvState, request: &KvOp) -> (reply: Option<Vec<u8>>) {
        let reply = state.peek("default", request.key.as_slice());
        proof {
            lemma_bytes_deep_view(reply);
        }
        reply
    }
}

impl CRUDApplication<KvState> for KvApp {
    open spec fn execute_spec(&self, contents: Contents, request: KvOp) -> (Contents, Option<Seq<u8>>) {
        kv_execute(contents, request)
    }

    open spec fn view_contents(&self, view: Contents) -> Contents {
        view
    }

    proof fn lemma_view_contents(&self, state: KvState) {
    }

    proof fn lemma_update_is_execute(&self, view: Contents, request: KvOp) {
    }

    /// A request touches its one key.
    open spec fn footprint(&self, contents: Contents, request: KvOp) -> Set<EntryKey> {
        set![entry_key("default", request.key@)]
    }

    proof fn lemma_footprint_frames(&self, c1: Contents, c2: Contents, request: KvOp) {
        let k0 = entry_key("default", request.key@);
        assert(self.footprint(c1, request).contains(k0));
    }

    fn speculatively_execute<T: CRUDState>(&self, state: &mut T, request: &KvOp) -> (reply: Option<Vec<u8>>) {
        KvApp::run(state, request)
    }
}

} // verus!

verus! {

/// A counter: the state is a running total, each request adds to it (wrapping) and is
/// answered with the new total.
#[derive(Clone, Copy)]
pub struct CounterApp;

/// The total after adding `request` to `state`, wrapping past `u32::MAX`.
pub open spec fn counter_add(state: u32, request: u32) -> u32 {
    ((state + request) % 0x1_0000_0000) as u32
}

impl Application<u32> for CounterApp {
    type Request = u32;

    type Reply = u32;

    open spec fn initial_spec() -> u32 {
        0
    }

    fn initial_state() -> (s: u32) {
        0
    }

    open spec fn update_spec(&self, state: u32, request: u32) -> (u32, u32) {
        (counter_add(state, request), counter_add(state, request))
    }

    open spec fn unordered_spec(&self, state: u32, request: u32) -> u32 {
        state
    }

    fn update(&self, state: &mut u32, request: &u32) -> (reply: u32) {
        *state = state.wrapping_add(*request);
        *state
    }

    fn unordered_execution(&self, state: &u32, request: &u32) -> (reply: u32) {
        *state
    }
}

} // verus!

verus! {

/// An operation of the calculator.
#[derive(Debug, Clone, Copy)]
pub enum CalcOp {
    Add(i64),
    Sub(i64),
    Mul(i64),
}

/// A calculator: the state is one signed integer, each request applies an operation to it
/// (wrapping at the bounds of `i64`) and is answered with the new value.
#[derive(Clone, Copy)]
pub struct CalcApp;

/// The value after applying `op` to `value`.
pub open spec fn calc_apply(value: i64, op: CalcOp) -> i64 {
    match op {
        CalcOp::Add(n) => value.wrapping_add(n),
        CalcOp::Sub(n) => value.wrapping_sub(n),
        CalcOp::Mul(n) => value.wrapping_mul(n),
    }
}

impl Application<i64> for CalcApp {
    type Request = CalcOp;

    type Reply = i64;

    open spec fn initial_spec() -> i64 {
        0
    }

    fn initial_state() -> (s: i64) {
        0
    }

    open spec fn update_spec(&self, state: i64, request: CalcOp) -> (i64, i64) {
        (calc_apply(state, request), calc_apply(state, request))
    }

    open spec fn unordered_spec(&self, state: i64, request: CalcOp) -> i64 {
        state
    }

    fn update(&self, state: &mut i64, request: &CalcOp) -> (reply: i64) {
        *state = match *request {
            CalcOp::Add(n) => state.wrapping_add(n),
            CalcOp::Sub(n) => state.wrapping_sub(n),
            CalcOp::Mul(n) => state.wrapping_mul(n),
        };
        *state
    }

    fn unordered_execution(&self, state: &i64, request: &CalcOp) -> (reply: i64) {
        *state
    }
}

} // verus!
