use crate::batch::{ReplyBatch, Update, UpdateBatch, UpdateInfo, UpdateReply};
use crate::cache::Cache;
use crate::caching_state::CachingState;
use crate::crud::CRUDState;
use crate::model::{lookup, overlay, Contents, EntryKey};
use vstd::prelude::*;

verus! {

/// A state that can be replicated: every state with an abstract view is one.
pub trait ReplicaState: View {}

impl<T: View> ReplicaState for T {}

/// A replicated application over a state of type `S`.
///
/// Replication requires the application to be deterministic: `update_spec` names the
/// state and reply that an update produces from a state and a request.
pub trait Application<S: View> {
    type Request;

    type Reply: DeepView;

    /// The abstract state a fresh replica starts from.
    spec fn initial_spec() -> S::V;

    /// The state a fresh replica starts from.
    fn initial_state() -> (s: S)
        ensures
            s@ == Self::initial_spec(),
    ;

    /// The state and reply that executing `request` on `state` produces.
    spec fn update_spec(&self, state: S::V, request: Self::Request) -> (S::V, <Self::Reply as DeepView>::V);

    /// The reply that executing `request` without ordering on `state` produces.
    spec fn unordered_spec(&self, state: S::V, request: Self::Request) -> <Self::Reply as DeepView>::V;

    /// Processes an ordered request, updating the state.
    fn update(&self, state: &mut S, request: &Self::Request) -> (reply: Self::Reply)
        ensures
            (final(state)@, reply.deep_view()) == self.update_spec(old(state)@, *request),
    ;

    /// Processes an unordered request; it cannot alter the state.
    fn unordered_execution(&self, state: &S, request: &Self::Request) -> (reply: Self::Reply)
        ensures
            reply.deep_view() == self.unordered_spec(state@, *request),
    ;
}

/// An application whose requests only touch the state through CRUD operations, so that
/// it can execute against any CRUD view of the state (in particular a speculative one).
///
/// What a request does depends only on the keys of its footprint: on contents that agree
/// there it gives the same reply and the same writes, and it changes nothing outside it.
/// Executing it accesses every key of its footprint through the CRUD operations.
pub trait CRUDApplication<S: CRUDState + View>: Application<S> {
    /// The contents and reply that executing `request` on a state with `contents` produces.
    spec fn execute_spec(&self, contents: Contents, request: Self::Request) -> (Contents, <Self::Reply as DeepView>::V);

    /// The contents of a state whose abstract view is `view`.
    spec fn view_contents(&self, view: S::V) -> Contents;

    /// A state's contents are the contents of its view.
    proof fn lemma_view_contents(&self, state: S)
        ensures
            self.view_contents(state@) == state.contents(),
    ;

    /// An ordered update does what executing the request through CRUD operations does.
    proof fn lemma_update_is_execute(&self, view: S::V, request: Self::Request)
        ensures
            (
                self.view_contents(self.update_spec(view, request).0),
                self.update_spec(view, request).1,
            ) == self.execute_spec(self.view_contents(view), request),
    ;

    /// The keys that executing `request` on `contents` reads or writes.
    spec fn footprint(&self, contents: Contents, request: Self::Request) -> Set<EntryKey>;

    /// Executing a request only depends on, and only changes, the keys of its footprint.
    proof fn lemma_footprint_frames(&self, c1: Contents, c2: Contents, request: Self::Request)
        requires
            forall|k: EntryKey|
                #[trigger] self.footprint(c1, request).contains(k) ==> lookup(c1, k) == lookup(c2, k),
        ensures
            self.footprint(c2, request) == self.footprint(c1, request),
            self.execute_spec(c2, request).1 == self.execute_spec(c1, request).1,
            forall|k: EntryKey|
                #[trigger] self.footprint(c1, request).contains(k) ==> lookup(
                    self.execute_spec(c2, request).0,
                    k,
                ) == lookup(self.execute_spec(c1, request).0, k),
            forall|k: EntryKey|
                !(#[trigger] self.footprint(c1, request).contains(k)) ==> lookup(
                    self.execute_spec(c1, request).0,
                    k,
                ) == lookup(c1, k) && lookup(self.execute_spec(c2, request).0, k) == lookup(c2, k),
    ;

    /// Executes `request` against any CRUD state, touching it only through CRUD operations.
    fn speculatively_execute<T: CRUDState>(&self, state: &mut T, request: &Self::Request) -> (reply: Self::Reply)
        ensures
            (final(state).contents(), reply.deep_view()) == self.execute_spec(old(state).contents(), *request),
            final(state).frame() == old(state).frame(),
            forall|k: EntryKey|
                self.footprint(old(state).contents(), *request).contains(k)
                    ==> #[trigger] final(state).accessed().contains(k),
            forall|k: EntryKey|
                #[trigger] final(state).accessed().contains(k) ==> old(state).accessed().contains(k)
                    || self.footprint(old(state).contents(), *request).contains(k),
    ;
}

/// The contents and replies that executing `updates` in order on `contents` produces.
pub open spec fn run_batch<S: CRUDState + View, A: CRUDApplication<S>>(
    app: A,
    contents: Contents,
    updates: Seq<Update<A::Request>>,
) -> (Contents, Seq<(UpdateInfo, <A::Reply as DeepView>::V)>)
    decreases updates.len(),
{
    if updates.len() == 0 {
        (contents, Seq::empty())
    } else {
        let prev = run_batch(app, contents, updates.drop_last());
        let step = app.execute_spec(prev.0, updates.last().operation);
        (step.0, prev.1.push((updates.last().info, step.1)))
    }
}

/// Applying a batch of ordered updates does what executing it through CRUD operations does.
pub proof fn lemma_run_updates_is_run_batch<S: CRUDState + View, A: CRUDApplication<S>>(
    app: A,
    view: S::V,
    updates: Seq<Update<A::Request>>,
)
    ensures
        (app.view_contents(run_updates(app, view, updates).0), run_updates(app, view, updates).1)
            == run_batch(app, app.view_contents(view), updates),
    decreases updates.len(),
{
    if updates.len() > 0 {
        lemma_run_updates_is_run_batch(app, view, updates.drop_last());
        app.lemma_update_is_execute(run_updates(app, view, updates.drop_last()).0, updates.last().operation);
    }
}

/// The state and replies that updating `state` with `updates` in order produces.
pub open spec fn run_updates<S: View, A: Application<S>>(
    app: A,
    state: S::V,
    updates: Seq<Update<A::Request>>,
) -> (S::V, Seq<(UpdateInfo, <A::Reply as DeepView>::V)>)
    decreases updates.len(),
{
    if updates.len() == 0 {
        (state, Seq::empty())
    } else {
        let prev = run_updates(app, state, updates.drop_last());
        let step = app.update_spec(prev.0, updates.last().operation);
        (step.0, prev.1.push((updates.last().info, step.1)))
    }
}

/// Executes a batch speculatively over `confirmed_state` with `accumulated_cache` on top,
/// without touching either: returns the layer of writes the batch made and its replies.
pub fn speculate_batch<S: CRUDState + View, A: CRUDApplication<S>>(
    application: &A,
    confirmed_state: &S,
    accumulated_cache: &Cache,
    batch: &UpdateBatch<A::Request>,
) -> (r: (Cache, ReplyBatch<A::Reply>))
    requires
        accumulated_cache.wf(),
    ensures
        r.0.wf(),
        (overlay(overlay(confirmed_state.contents(), accumulated_cache@), r.0@), r.1.views())
            == run_batch(
            *application,
            overlay(confirmed_state.contents(), accumulated_cache@),
            batch.updates@,
        ),
{
    let ghost base = overlay(confirmed_state.contents(), accumulated_cache@);
    let mut caching_state = CachingState::new(confirmed_state, accumulated_cache);
    let mut replies = ReplyBatch::new_with_cap(batch.updates.len());
    let mut i: usize = 0;
    proof {
        caching_state.lemma_contents();
        assert(overlay(base, Map::empty()) =~= base);
        assert(batch.updates@.subrange(0, 0) =~= Seq::<Update<A::Request>>::empty());
        assert(replies.views() =~= Seq::<(UpdateInfo, <A::Reply as DeepView>::V)>::empty());
    }
    while i < batch.updates.len()
        invariant
            0 <= i <= batch.updates@.len(),
            caching_state.frame() == base,
            (caching_state.contents(), replies.views()) == run_batch(
                *application,
                base,
                batch.updates@.subrange(0, i as int),
            ),
        decreases batch.updates@.len() - i,
    {
        let item = &batch.updates[i];
        let reply = application.speculatively_execute(&mut caching_state, &item.operation);
        replies.add(item.info, reply);
        proof {
            let s = batch.updates@.subrange(0, i + 1);
            assert(s.drop_last() =~= batch.updates@.subrange(0, i as int));
            assert(s.last() == batch.updates@[i as int]);
            assert(replies.views() =~= run_batch(*application, base, s).1);
        }
        i = i + 1;
    }
    proof {
        assert(batch.updates@.subrange(0, batch.updates@.len() as int) =~= batch.updates@);
        caching_state.lemma_contents();
    }
    let delta = caching_state.into_delta();
    (delta, replies)
}

/// Applies every update of a batch to `state` in order, returning the replies.
pub fn update_batch<S: View, A: Application<S>>(
    application: &A,
    state: &mut S,
    batch: &UpdateBatch<A::Request>,
) -> (replies: ReplyBatch<A::Reply>)
    ensures
        (final(state)@, replies.views()) == run_updates(*application, old(state)@, batch.updates@),
{
    let mut replies = ReplyBatch::new_with_cap(batch.updates.len());
    let mut i: usize = 0;
    proof {
        assert(batch.updates@.subrange(0, 0) =~= Seq::<Update<A::Request>>::empty());
        assert(replies.views() =~= Seq::<(UpdateInfo, <A::Reply as DeepView>::V)>::empty());
    }
    while i < batch.updates.len()
        invariant
            0 <= i <= batch.updates@.len(),
            (state@, replies.views()) == run_updates(
                *application,
                old(state)@,
                batch.updates@.subrange(0, i as int),
            ),
        decreases batch.updates@.len() - i,
    {
        let item = &batch.updates[i];
        let reply = application.update(state, &item.operation);
        replies.add(item.info, reply);
        proof {
            let s = batch.updates@.subrange(0, i + 1);
            assert(s.drop_last() =~= batch.updates@.subrange(0, i as int));
            assert(s.last() == batch.updates@[i as int]);
            assert(replies.views() =~= run_updates(*application, old(state)@, s).1);
        }
        i = i + 1;
    }
    proof {
        assert(batch.updates@.subrange(0, batch.updates@.len() as int) =~= batch.updates@);
    }
    replies
}

} // verus!
