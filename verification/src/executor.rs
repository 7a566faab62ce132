use crate::application::{run_updates, Application};
use crate::seq_no::SeqNo;
use vstd::prelude::*;

verus! {

/// Brings an initial state up to date: applies the requests that came with it, in order,
/// and places the result at sequence number zero.
pub fn prepare_initial_state<S: View, A: Application<S>>(application: &A, state: S, requests: Vec<A::Request>) -> (r: (SeqNo, S))
    ensures
        r.0.value == 0,
        r.1@ == run_updates_plain(*application, state@, requests@),
{
    let mut s = state;
    let mut i: usize = 0;
    while i < requests.len()
        invariant
            0 <= i <= requests@.len(),
            s@ == run_updates_plain(*application, state@, requests@.take(i as int)),
        decreases requests@.len() - i,
    {
        let _ = application.update(&mut s, &requests[i]);
        proof {
            assert(requests@.take(i + 1).drop_last() =~= requests@.take(i as int));
        }
        i = i + 1;
    }
    proof {
        assert(requests@.take(requests@.len() as int) =~= requests@);
    }
    (SeqNo::zero(), s)
}

/// The state an executor starts from, at sequence number zero: the given state brought up
/// to date with the requests that came with it, or, when none is given, the application's
/// initial state.
pub fn starting_state<S: View, A: Application<S>>(application: &A, initial: Option<(S, Vec<A::Request>)>) -> (r: (
    SeqNo,
    S,
))
    ensures
        r.0.value == 0,
        match initial {
            Some((state, requests)) => r.1@ == run_updates_plain(*application, state@, requests@),
            None => r.1@ == A::initial_spec(),
        },
{
    match initial {
        Some((state, requests)) => prepare_initial_state(application, state, requests),
        None => (SeqNo::zero(), A::initial_state()),
    }
}

/// The state after applying `requests` in order to `state`.
pub open spec fn run_updates_plain<S: View, A: Application<S>>(app: A, state: S::V, requests: Seq<A::Request>) -> S::V
    decreases requests.len(),
{
    if requests.len() == 0 {
        state
    } else {
        app.update_spec(run_updates_plain(app, state, requests.drop_last()), requests.last()).0
    }
}

/// Preparing a state applies its requests in the order given: with no request the state is
/// unchanged, and one more request at the end is one more update applied to the state the
/// others reach.
pub proof fn lemma_prepared_in_order<S: View, A: Application<S>>(
    app: A,
    state: S::V,
    requests: Seq<A::Request>,
    request: A::Request,
)
    ensures
        run_updates_plain(app, state, Seq::<A::Request>::empty()) == state,
        run_updates_plain(app, state, requests.push(request)) == app.update_spec(
            run_updates_plain(app, state, requests),
            request,
        ).0,
{
    assert(requests.push(request).drop_last() =~= requests);
}

/// Preparing a state with requests gives the state that running them as a batch of
/// ordered updates gives.
pub proof fn lemma_prepared_is_run_updates<S: View, A: Application<S>>(
    app: A,
    state: S::V,
    updates: Seq<crate::batch::Update<A::Request>>,
)
    ensures
        run_updates_plain(app, state, updates.map_values(|u: crate::batch::Update<A::Request>| u.operation))
            == run_updates(app, state, updates).0,
    decreases updates.len(),
{
    let ops = updates.map_values(|u: crate::batch::Update<A::Request>| u.operation);
    if updates.len() > 0 {
        lemma_prepared_is_run_updates(app, state, updates.drop_last());
        assert(ops.drop_last() =~= updates.drop_last().map_values(
            |u: crate::batch::Update<A::Request>| u.operation,
        ));
    }
}

/// The dual-state preemptive executor: a speculative and a confirmed copy of the state.
pub struct MonolithicPreemptiveExecutor;

/// The cache-based preemptive executor: one confirmed state and layers of pending writes.
pub struct CRUDMonolithicPreemptiveExecutor;

impl MonolithicPreemptiveExecutor {
    /// The state the executor starts from, at sequence number zero.
    pub fn initial_state<S: View, A: Application<S>>(application: &A, state: S, requests: Vec<A::Request>) -> (r: (SeqNo, S))
        ensures
            r.0.value == 0,
            r.1@ == run_updates_plain(*application, state@, requests@),
    {
        prepare_initial_state(application, state, requests)
    }
}

impl CRUDMonolithicPreemptiveExecutor {
    /// The state the executor starts from, at sequence number zero.
    pub fn initial_state<S: View, A: Application<S>>(application: &A, state: S, requests: Vec<A::Request>) -> (r: (SeqNo, S))
        ensures
            r.0.value == 0,
            r.1@ == run_updates_plain(*application, state@, requests@),
    {
        prepare_initial_state(application, state, requests)
    }
}

} // verus!
