use crate::application::{run_batch, CRUDApplication};
use crate::batch::{ReplyBatch, Update, UpdateBatch, UpdateInfo};
use crate::cache::{merge_delta_into, Cache};
use crate::caching_state::CachingState;
use crate::crud::CRUDState;
use crate::execution_unit::{
    access_views, collided_positions, contended, covers_writes, AccessType, events_of, lemma_modification_collides, log_keys,
    progress_collision_state, Access, AccessEvent, CollisionState, ParallelExecutionUnit,
};
use crate::metric::{parallel_batch_metrics, parallel_batch_samples, MetricSample};
use crate::model::{lookup, merge, merge_all, overlay, Contents, Delta, EntryKey};
use crate::pending_state::SpeculativeState;
use crate::seq_no::{next_raw, SeqNo};
use crate::speculation::SpeculationEngine;
use rayon::iter::{IntoParallelRefIterator, ParallelIterator};
use rayon::ThreadPool;
use vstd::prelude::*;

verus! {

#[verifier::external_type_specification]
#[verifier::external_body]
pub struct ExThreadPool(rayon::ThreadPool);

/// What executing one request in isolation produced: the accesses it made, the writes it
/// made and its reply.
pub struct UnitOutcome<R> {
    pub accesses: Vec<Access>,
    pub delta: Cache,
    pub reply: R,
}

/// Executes `request` in isolation through a fresh execution unit over `confirmed_state`
/// with `accumulated_cache` on top, touching neither.
pub fn execute_in_unit<S: CRUDState + View, A: CRUDApplication<S>>(
    application: &A,
    confirmed_state: &S,
    accumulated_cache: &Cache,
    request: &A::Request,
) -> (out: UnitOutcome<A::Reply>)
    requires
        accumulated_cache.wf(),
    ensures
        out.delta.wf(),
        (
            overlay(overlay(confirmed_state.contents(), accumulated_cache@), out.delta@),
            out.reply.deep_view(),
        ) == application.execute_spec(
            overlay(confirmed_state.contents(), accumulated_cache@),
            *request,
        ),
        covers_writes(access_views(out.accesses@), out.delta@),
        forall|k: EntryKey|
            application.footprint(overlay(confirmed_state.contents(), accumulated_cache@), *request).contains(k)
                ==> #[trigger] log_keys(access_views(out.accesses@)).contains(k),
        forall|k: EntryKey|
            #[trigger] out.delta@.contains_key(k) ==> application.footprint(
                overlay(confirmed_state.contents(), accumulated_cache@),
                *request,
            ).contains(k),
        forall|k: EntryKey|
            #[trigger] log_keys(access_views(out.accesses@)).contains(k) ==> application.footprint(
                overlay(confirmed_state.contents(), accumulated_cache@),
                *request,
            ).contains(k),
{
    let mut unit = ParallelExecutionUnit::new(confirmed_state, accumulated_cache);
    proof {
        unit.lemma_contents();
        crate::model::lemma_overlay_empty(overlay(confirmed_state.contents(), accumulated_cache@));
    }
    let ghost start = unit.contents();
    let ghost start_accessed = unit.accessed();
    let reply = application.speculatively_execute(&mut unit, request);
    proof {
        unit.lemma_contents();
    }
    let ghost touched = unit.accessed();
    let (accesses, delta) = unit.complete();
    proof {
        let base = overlay(confirmed_state.contents(), accumulated_cache@);
        assert(start == base);
        assert forall|k: EntryKey| application.footprint(base, *request).contains(k) implies #[trigger] log_keys(
            access_views(accesses@),
        ).contains(k) by {
            assert(touched.contains(k));
        }
        assert forall|k: EntryKey| #[trigger] delta@.contains_key(k) implies application.footprint(
            base,
            *request,
        ).contains(k) by {
            let log = access_views(accesses@);
            let t = choose|t: int| 0 <= t < log.len() && (#[trigger] log[t]).0 == k && log[t].1.modifies();
            assert(log_keys(log).contains(k));
            assert(touched.contains(k));
        }
        assert forall|k: EntryKey| #[trigger] log_keys(access_views(accesses@)).contains(k) implies application.footprint(
            base,
            *request,
        ).contains(k) by {
            assert(touched.contains(k));
            assert(start_accessed == log_keys(Seq::<(EntryKey, AccessType)>::empty()));
            assert(!start_accessed.contains(k));
        }
    }
    UnitOutcome { accesses, delta, reply }
}

/// Runs `execute_in_unit` for every update of a batch on the threads of `pool`, through
/// rayon's `ThreadPool::install` and an indexed parallel iterator collected into a `Vec`.
///
/// Trusted: rayon calls the closure once per update and `collect` keeps the results in
/// the order of the updates; each result is therefore one that `execute_in_unit` gives.
#[verifier::external_body]
fn run_units_in_parallel<S: CRUDState + View + Sync, A: CRUDApplication<S> + Sync>(
    pool: &ThreadPool,
    application: &A,
    confirmed_state: &S,
    accumulated_cache: &Cache,
    updates: &Vec<Update<A::Request>>,
) -> (results: Vec<UnitOutcome<A::Reply>>) where A::Request: Sync, A::Reply: Send
    requires
        accumulated_cache.wf(),
    ensures
        results@.len() == updates@.len(),
        forall|i: int|
            0 <= i < updates@.len() ==> {
                &&& (#[trigger] results@[i]).delta.wf()
                &&& covers_writes(access_views(results@[i].accesses@), results@[i].delta@)
                &&& forall|k: EntryKey|
                    application.footprint(
                        overlay(confirmed_state.contents(), accumulated_cache@),
                        updates@[i].operation,
                    ).contains(k) ==> #[trigger] log_keys(access_views(results@[i].accesses@)).contains(k)
                &&& forall|k: EntryKey|
                    #[trigger] results@[i].delta@.contains_key(k) ==> application.footprint(
                        overlay(confirmed_state.contents(), accumulated_cache@),
                        updates@[i].operation,
                    ).contains(k)
                &&& forall|k: EntryKey|
                    #[trigger] log_keys(access_views(results@[i].accesses@)).contains(k) ==> application.footprint(
                        overlay(confirmed_state.contents(), accumulated_cache@),
                        updates@[i].operation,
                    ).contains(k)
                &&& (
                    overlay(overlay(confirmed_state.contents(), accumulated_cache@), results@[i].delta@),
                    results@[i].reply.deep_view(),
                ) == application.execute_spec(
                    overlay(confirmed_state.contents(), accumulated_cache@),
                    updates@[i].operation,
                )
            },
{
    pool.install(
        || {
            updates.par_iter().map(
                |u| execute_in_unit(application, confirmed_state, accumulated_cache, &u.operation),
            ).collect()
        },
    )
}

/// The layers of the positions in `collided` (with `colliders`) or of the others (without),
/// the layers of the remaining positions replaced by empty ones.
pub open spec fn masked(parts: Seq<Delta>, collided: Set<int>, colliders: bool) -> Seq<Delta> {
    Seq::new(
        parts.len(),
        |i: int|
            if collided.contains(i) == colliders {
                parts[i]
            } else {
                Map::empty()
            },
    )
}

/// The writes of the positions that did not collide, merged in batch order.
pub open spec fn isolated_layer(parts: Seq<Delta>, collided: Set<int>) -> Delta {
    merge_all(masked(parts, collided, false))
}

/// What the colliding position `i` is re-executed on: the base with the writes of every
/// position that did not collide and of the colliding positions before `i`.
pub open spec fn collider_base(base: Contents, parts: Seq<Delta>, collided: Set<int>, i: int) -> Contents {
    overlay(
        base,
        merge(isolated_layer(parts, collided), merge_all(masked(parts, collided, true).take(i))),
    )
}

/// The accesses of the requests at positions `0..m` of a batch, registered in batch order.
pub open spec fn batch_events<R>(outs: Seq<UnitOutcome<R>>, m: nat) -> Seq<AccessEvent>
    decreases m,
{
    if m == 0 {
        Seq::empty()
    } else {
        batch_events(outs, (m - 1) as nat) + events_of(
            m - 1,
            access_views(outs[m - 1].accesses@),
        )
    }
}

/// Two requests whose writes, each executing alone, touched a common key are both among
/// the `collided` ones.
pub open spec fn overlapping_writes_collide(alone: Seq<Delta>, collided: Set<int>) -> bool {
    forall|i: int, j: int, k: EntryKey|
        0 <= i < alone.len() && 0 <= j < alone.len() && i != j && #[trigger] alone[i].contains_key(k)
            && #[trigger] alone[j].contains_key(k) ==> collided.contains(i) && collided.contains(j)
}

/// A request that wrote, executing alone, a key in the footprint of another request on the
/// same contents collided, and so did that other request.
pub open spec fn footprint_conflicts_collide<S: CRUDState + View, A: CRUDApplication<S>>(
    app: A,
    base: Contents,
    updates: Seq<Update<A::Request>>,
    alone: Seq<Delta>,
    collided: Set<int>,
) -> bool {
    forall|i: int, j: int, k: EntryKey|
        0 <= i < updates.len() && 0 <= j < updates.len() && i != j
            && #[trigger] alone[i].contains_key(k) && #[trigger] app.footprint(
            base,
            updates[j].operation,
        ).contains(k) ==> collided.contains(i) && collided.contains(j)
}

/// `writes[i]` holds the keys request `i` modified executing alone on `base`: every key of
/// its lone layer, and only keys of its footprint.
pub open spec fn lone_writes<S: CRUDState + View, A: CRUDApplication<S>>(
    app: A,
    base: Contents,
    updates: Seq<Update<A::Request>>,
    alone: Seq<Delta>,
    writes: Seq<Set<EntryKey>>,
) -> bool {
    &&& writes.len() == updates.len()
    &&& forall|i: int, k: EntryKey|
        0 <= i < updates.len() && #[trigger] alone[i].contains_key(k) ==> writes[i].contains(k)
    &&& forall|i: int, k: EntryKey|
        0 <= i < updates.len() && #[trigger] writes[i].contains(k) ==> app.footprint(
            base,
            updates[i].operation,
        ).contains(k)
}

/// The requests that conflict, `writes[i]` being the keys request `i` modified: a request
/// conflicts when it modified a key that another request reads or writes, or another
/// request modified a key that it reads or writes.
pub open spec fn conflicting<S: CRUDState + View, A: CRUDApplication<S>>(
    app: A,
    base: Contents,
    updates: Seq<Update<A::Request>>,
    writes: Seq<Set<EntryKey>>,
) -> Set<int> {
    Set::new(
        |i: int|
            0 <= i < updates.len() && ((exists|j: int, k: EntryKey|
                #![trigger writes[i].contains(k), app.footprint(base, updates[j].operation).contains(k)]
                0 <= j < updates.len() && j != i && writes[i].contains(k) && app.footprint(
                    base,
                    updates[j].operation,
                ).contains(k)) || (exists|j: int, k: EntryKey|
                #![trigger writes[j].contains(k), app.footprint(base, updates[i].operation).contains(k)]
                0 <= j < updates.len() && j != i && writes[j].contains(k) && app.footprint(
                    base,
                    updates[i].operation,
                ).contains(k))),
    )
}

/// What the requests did executing alone on `base`: `alone[i]` is the layer request `i`
/// wrote. A request that did not collide keeps that layer; requests whose lone layers
/// touched a common key collided, and so did a request whose lone layer touched a key
/// that another request reads or writes. The requests that collided are exactly those in
/// conflict over the keys they modified alone.
pub open spec fn lone_runs<S: CRUDState + View, A: CRUDApplication<S>>(
    app: A,
    base: Contents,
    updates: Seq<Update<A::Request>>,
    collided: Set<int>,
    parts: Seq<Delta>,
    alone: Seq<Delta>,
) -> bool {
    &&& alone.len() == updates.len()
    &&& forall|i: int|
        0 <= i < updates.len() ==> overlay(base, #[trigger] alone[i]) == app.execute_spec(
            base,
            updates[i].operation,
        ).0
    &&& forall|i: int| 0 <= i < updates.len() && !collided.contains(i) ==> #[trigger] parts[i] == alone[i]
    &&& forall|i: int, k: EntryKey|
        0 <= i < updates.len() && #[trigger] alone[i].contains_key(k) ==> app.footprint(
            base,
            updates[i].operation,
        ).contains(k)
    &&& overlapping_writes_collide(alone, collided)
    &&& footprint_conflicts_collide(app, base, updates, alone, collided)
    &&& exists|writes: Seq<Set<EntryKey>>|
        #[trigger] lone_writes(app, base, updates, alone, writes) && collided == conflicting(
            app,
            base,
            updates,
            writes,
        )
}

/// The accesses of the request at position `p` are among those registered for the batch.
proof fn lemma_event_in_batch<R>(outs: Seq<UnitOutcome<R>>, m: nat, p: int, t: int) -> (a: int)
    requires
        0 <= p < m <= outs.len(),
        0 <= t < access_views(outs[p].accesses@).len(),
    ensures
        0 <= a < batch_events(outs, m).len(),
        batch_events(outs, m)[a] == (
            p,
            access_views(outs[p].accesses@)[t].0,
            access_views(outs[p].accesses@)[t].1,
        ),
    decreases m,
{
    let prev = batch_events(outs, (m - 1) as nat);
    let log = access_views(outs[m - 1].accesses@);
    if p == m - 1 {
        assert(events_of(m - 1, log)[t] == (m - 1, log[t].0, log[t].1));
        prev.len() + t
    } else {
        let a = lemma_event_in_batch(outs, (m - 1) as nat, p, t);
        assert(batch_events(outs, m)[a] == prev[a]);
        a
    }
}

/// Every registered access is one of the accesses of some request of the batch.
proof fn lemma_event_origin<R>(outs: Seq<UnitOutcome<R>>, m: nat, x: int) -> (r: (int, int))
    requires
        m <= outs.len(),
        0 <= x < batch_events(outs, m).len(),
    ensures
        0 <= r.0 < m,
        0 <= r.1 < access_views(outs[r.0].accesses@).len(),
        batch_events(outs, m)[x] == (
            r.0,
            access_views(outs[r.0].accesses@)[r.1].0,
            access_views(outs[r.0].accesses@)[r.1].1,
        ),
    decreases m,
{
    let prev = batch_events(outs, (m - 1) as nat);
    let log = access_views(outs[m - 1].accesses@);
    if x < prev.len() {
        let r = lemma_event_origin(outs, (m - 1) as nat, x);
        assert(batch_events(outs, m)[x] == prev[x]);
        r
    } else {
        let t = x - prev.len();
        assert(batch_events(outs, m)[x] == events_of(m - 1, log)[t]);
        ((m - 1) as int, t)
    }
}

/// The outcome of executing `updates` on `base` in two phases, the positions in `collided`
/// being those whose accesses collided: `parts[i]` is the layer of writes that position `i`
/// contributed and `rs[i]` its reply.
///
/// A position that did not collide keeps what it produced executing alone on `base`. The
/// colliding positions are then re-executed one after the other in batch order, each on
/// `base` with the writes of all non-colliding positions and of the colliding positions
/// before it. The batch's layer is the non-colliding writes followed by the colliding ones;
/// the replies are in batch order.
pub open spec fn parallel_outcome<S: CRUDState + View, A: CRUDApplication<S>>(
    app: A,
    base: Contents,
    updates: Seq<Update<A::Request>>,
    collided: Set<int>,
    parts: Seq<Delta>,
    rs: Seq<<A::Reply as DeepView>::V>,
    delta: Delta,
    replies: Seq<(UpdateInfo, <A::Reply as DeepView>::V)>,
) -> bool {
    let n = updates.len();
    &&& parts.len() == n
    &&& rs.len() == n
    &&& forall|i: int|
        0 <= i < n && !collided.contains(i) ==> (overlay(base, #[trigger] parts[i]), rs[i])
            == app.execute_spec(base, updates[i].operation)
    &&& forall|i: int|
        0 <= i < n && collided.contains(i) ==> (
        overlay(collider_base(base, parts, collided, i), #[trigger] parts[i]),
        rs[i],
    ) == app.execute_spec(collider_base(base, parts, collided, i), updates[i].operation)
    &&& forall|i: int, k: EntryKey|
        0 <= i < n && collided.contains(i) && #[trigger] parts[i].contains_key(k) ==> app.footprint(
            collider_base(base, parts, collided, i),
            updates[i].operation,
        ).contains(k)
    &&& delta == merge(isolated_layer(parts, collided), merge_all(masked(parts, collided, true)))
    &&& replies == Seq::new(n, |i: int| (updates[i].info, rs[i]))
}

/// Executes the requests of a batch in parallel, each in isolation through its own
/// execution unit, then re-executes sequentially, in batch order, the requests whose
/// accesses collided.
pub struct ParallelSpeculation {
    thread_pool: ThreadPool,
}

impl ParallelSpeculation {
    /// The thread pool on which the requests of a batch run.
    pub closed spec fn pool(&self) -> ThreadPool {
        self.thread_pool
    }

    /// Speculation on the threads of `thread_pool`.
    pub fn new(thread_pool: ThreadPool) -> (p: ParallelSpeculation)
        ensures
            p.pool() == thread_pool,
    {
        ParallelSpeculation { thread_pool }
    }
}

impl<S: CRUDState + View + Sync, A: CRUDApplication<S> + Sync> SpeculationEngine<S, A> for ParallelSpeculation where
    A::Request: Sync,
    A::Reply: Send,
 {
    /// Some set of colliding positions, layers and replies make up a two-phase outcome, in
    /// which every request whose lone writes touch a key that another request reads or
    /// writes was re-executed, together with that other request.
    open spec fn admits(
        app: A,
        base: Contents,
        updates: Seq<Update<A::Request>>,
        delta: Delta,
        replies: Seq<(UpdateInfo, <A::Reply as DeepView>::V)>,
    ) -> bool {
        exists|
            collided: Set<int>,
            parts: Seq<Delta>,
            rs: Seq<<A::Reply as DeepView>::V>,
            alone: Seq<Delta>,
        |
            parallel_outcome(app, base, updates, collided, parts, rs, delta, replies) && lone_runs(
                app,
                base,
                updates,
                collided,
                parts,
                alone,
            )
    }

    fn speculate(
        &self,
        application: &A,
        confirmed_state: &S,
        accumulated_cache: &Cache,
        batch: &UpdateBatch<A::Request>,
    ) -> (r: (Cache, ReplyBatch<A::Reply>, Vec<MetricSample>))
        ensures
            exists|
                collided: Set<int>,
                parts: Seq<Delta>,
                rs: Seq<<A::Reply as DeepView>::V>,
                alone: Seq<Delta>,
            |
                #![trigger parallel_outcome(
                    *application,
                    overlay(confirmed_state.contents(), accumulated_cache@),
                    batch.updates@,
                    collided,
                    parts,
                    rs,
                    r.0@,
                    r.1.views(),
                ), lone_runs(
                    *application,
                    overlay(confirmed_state.contents(), accumulated_cache@),
                    batch.updates@,
                    collided,
                    parts,
                    alone,
                )]
                {
                    &&& parallel_outcome(
                        *application,
                        overlay(confirmed_state.contents(), accumulated_cache@),
                        batch.updates@,
                        collided,
                        parts,
                        rs,
                        r.0@,
                        r.1.views(),
                    )
                    &&& lone_runs(
                        *application,
                        overlay(confirmed_state.contents(), accumulated_cache@),
                        batch.updates@,
                        collided,
                        parts,
                        alone,
                    )
                    &&& r.2@ == parallel_batch_samples(collided.len() as usize, batch.updates@.len() as usize)
                },
    {
        let ghost base = overlay(confirmed_state.contents(), accumulated_cache@);
        let ghost ups = batch.updates@;
        let n = batch.updates.len();

        // Every request runs in isolation, in parallel.
        let mut results = run_units_in_parallel(
            &self.thread_pool,
            application,
            confirmed_state,
            accumulated_cache,
            &batch.updates,
        );
        let ghost orig = results@;

        // Collision detection, in batch order.
        let mut collision_state = CollisionState::new();
        let mut i: usize = 0;
        proof {
            assert(collided_positions(Seq::<AccessEvent>::empty()) =~= Set::<int>::empty());
        }
        while i < n
            invariant
                0 <= i <= n,
                n == results@.len(),
                results@ == orig,
                collision_state.wf(),
                collision_state.events() == batch_events(orig, i as nat),
                forall|p: usize|
                    collision_state.marked().contains(p) <==> collided_positions(
                        collision_state.events(),
                    ).contains(p as int),
            decreases n - i,
        {
            progress_collision_state(&mut collision_state, i, results[i].accesses.as_slice());
            i = i + 1;
        }
        let ghost collided = Set::new(
            |j: int| 0 <= j < n && collision_state.marked().contains(j as usize),
        );
        let ghost alone = Seq::new(n as nat, |j: int| orig[j].delta@);
        proof {
            let ev = batch_events(orig, n as nat);
            assert forall|a: int, b: int, k: EntryKey|
                0 <= a < alone.len() && 0 <= b < alone.len() && a != b && #[trigger] alone[a].contains_key(k)
                    && #[trigger] alone[b].contains_key(k) implies collided.contains(a) && collided.contains(b) by {
                let la = access_views(orig[a].accesses@);
                let lb = access_views(orig[b].accesses@);
                assert(covers_writes(la, orig[a].delta@));
                assert(covers_writes(lb, orig[b].delta@));
                assert(orig[a].delta@.contains_key(k));
                assert(orig[b].delta@.contains_key(k));
                let ta = choose|t: int| 0 <= t < la.len() && (#[trigger] la[t]).0 == k && la[t].1.modifies();
                let tb = choose|t: int| 0 <= t < lb.len() && (#[trigger] lb[t]).0 == k && lb[t].1.modifies();
                let ea = lemma_event_in_batch(orig, n as nat, a, ta);
                let eb = lemma_event_in_batch(orig, n as nat, b, tb);
                lemma_modification_collides(ev, ea, eb);
                assert(collision_state.marked().contains(a as usize));
                assert(collision_state.marked().contains(b as usize));
            }
        }
        proof {
            let ev = batch_events(orig, n as nat);
            assert forall|a: int, b: int, k: EntryKey|
                0 <= a < ups.len() && 0 <= b < ups.len() && a != b && #[trigger] alone[a].contains_key(k)
                    && #[trigger] application.footprint(base, ups[b].operation).contains(k) implies collided.contains(a)
                    && collided.contains(b) by {
                let la = access_views(orig[a].accesses@);
                let lb = access_views(orig[b].accesses@);
                assert(covers_writes(la, orig[a].delta@));
                assert(orig[a].delta@.contains_key(k));
                assert(log_keys(lb).contains(k));
                let ta = choose|t: int| 0 <= t < la.len() && (#[trigger] la[t]).0 == k && la[t].1.modifies();
                let tb = choose|t: int| 0 <= t < lb.len() && (#[trigger] lb[t]).0 == k;
                let ea = lemma_event_in_batch(orig, n as nat, a, ta);
                let eb = lemma_event_in_batch(orig, n as nat, b, tb);
                lemma_modification_collides(ev, ea, eb);
                assert(collision_state.marked().contains(a as usize));
                assert(collision_state.marked().contains(b as usize));
            }
        }

        // The collided requests are exactly those in conflict over what they modified alone.
        let ghost writes: Seq<Set<EntryKey>> = Seq::new(
            n as nat,
            |j: int|
                Set::new(
                    |k: EntryKey|
                        exists|t: int|
                            0 <= t < access_views(orig[j].accesses@).len() && (#[trigger] access_views(
                                orig[j].accesses@,
                            )[t]).0 == k && access_views(orig[j].accesses@)[t].1.modifies(),
                ),
        );
        proof {
            let ev = batch_events(orig, n as nat);
            assert forall|j: int, k: EntryKey| 0 <= j < ups.len() && #[trigger] alone[j].contains_key(k) implies writes[j].contains(
                k,
            ) by {
                assert(covers_writes(access_views(orig[j].accesses@), orig[j].delta@));
                assert(orig[j].delta@.contains_key(k));
            }
            assert forall|j: int, k: EntryKey| 0 <= j < ups.len() && #[trigger] writes[j].contains(k) implies application.footprint(
                base,
                ups[j].operation,
            ).contains(k) by {
                let log = access_views(orig[j].accesses@);
                let t = choose|t: int| 0 <= t < log.len() && (#[trigger] log[t]).0 == k && log[t].1.modifies();
                assert(log_keys(log).contains(k));
            }
            assert(lone_writes(*application, base, ups, alone, writes));
            let conf = conflicting(*application, base, ups, writes);
            assert forall|i: int| collided.contains(i) == conf.contains(i) by {
                if conf.contains(i) {
                    if exists|j: int, k: EntryKey|
                        #![trigger writes[i].contains(k), application.footprint(base, ups[j].operation).contains(k)]
                        0 <= j < ups.len() && j != i && writes[i].contains(k) && application.footprint(
                            base,
                            ups[j].operation,
                        ).contains(k) {
                        let (j, k) = choose|j: int, k: EntryKey|
                            #![trigger writes[i].contains(k), application.footprint(base, ups[j].operation).contains(k)]
                            0 <= j < ups.len() && j != i && writes[i].contains(k) && application.footprint(
                                base,
                                ups[j].operation,
                            ).contains(k);
                        let li = access_views(orig[i].accesses@);
                        let lj = access_views(orig[j].accesses@);
                        let ti = choose|t: int| 0 <= t < li.len() && (#[trigger] li[t]).0 == k && li[t].1.modifies();
                        assert(log_keys(lj).contains(k));
                        let tj = choose|t: int| 0 <= t < lj.len() && (#[trigger] lj[t]).0 == k;
                        let ei = lemma_event_in_batch(orig, n as nat, i, ti);
                        let ej = lemma_event_in_batch(orig, n as nat, j, tj);
                        lemma_modification_collides(ev, ei, ej);
                        assert(collision_state.marked().contains(i as usize));
                    } else {
                        let (j, k) = choose|j: int, k: EntryKey|
                            #![trigger writes[j].contains(k), application.footprint(base, ups[i].operation).contains(k)]
                            0 <= j < ups.len() && j != i && writes[j].contains(k) && application.footprint(
                                base,
                                ups[i].operation,
                            ).contains(k);
                        let li = access_views(orig[i].accesses@);
                        let lj = access_views(orig[j].accesses@);
                        let tj = choose|t: int| 0 <= t < lj.len() && (#[trigger] lj[t]).0 == k && lj[t].1.modifies();
                        assert(log_keys(li).contains(k));
                        let ti = choose|t: int| 0 <= t < li.len() && (#[trigger] li[t]).0 == k;
                        let ei = lemma_event_in_batch(orig, n as nat, i, ti);
                        let ej = lemma_event_in_batch(orig, n as nat, j, tj);
                        lemma_modification_collides(ev, ei, ej);
                        assert(collision_state.marked().contains(i as usize));
                    }
                }
                if collided.contains(i) {
                    assert(collided_positions(ev).contains(i));
                    let e = choose|e: int| 0 <= e < ev.len() && #[trigger] ev[e].0 == i && contended(ev, ev[e].1);
                    let k = ev[e].1;
                    let (a, b) = choose|a: int, b: int|
                        0 <= a < ev.len() && 0 <= b < ev.len() && ev[a].0 != ev[b].0 && #[trigger] ev[a].1 == k
                            && #[trigger] ev[b].1 == k && crate::execution_unit::conflicts(ev[a].2, ev[b].2);
                    let (qe, te) = lemma_event_origin(orig, n as nat, e);
                    let (qa, ta) = lemma_event_origin(orig, n as nat, a);
                    let (qb, tb) = lemma_event_origin(orig, n as nat, b);
                    let le = access_views(orig[qe].accesses@);
                    let la = access_views(orig[qa].accesses@);
                    let lb = access_views(orig[qb].accesses@);
                    assert(le[te].0 == k);
                    assert(log_keys(le).contains(k));
                    assert(log_keys(la).contains(k));
                    assert(log_keys(lb).contains(k));
                    assert(application.footprint(base, ups[qa].operation).contains(k));
                    assert(application.footprint(base, ups[qb].operation).contains(k));
                    assert(application.footprint(base, ups[i].operation).contains(k));
                    if ev[a].2.modifies() {
                        assert(writes[qa].contains(k));
                        if qa == i {
                            assert(writes[i].contains(k) && application.footprint(base, ups[qb].operation).contains(k));
                        } else {
                            assert(writes[qa].contains(k) && application.footprint(base, ups[i].operation).contains(k));
                        }
                    } else {
                        assert(ev[b].2.modifies());
                        assert(writes[qb].contains(k));
                        if qb == i {
                            assert(writes[i].contains(k) && application.footprint(base, ups[qa].operation).contains(k));
                        } else {
                            assert(writes[qb].contains(k) && application.footprint(base, ups[i].operation).contains(k));
                        }
                    }
                }
            }
            assert(collided =~= conf);
        }

        // Take the results out in batch order.
        let mut reversed: Vec<UnitOutcome<A::Reply>> = Vec::new();
        while results.len() > 0
            invariant
                results@.len() + reversed@.len() == n,
                orig.len() == n,
                results@ == orig.take(results@.len() as int),
                forall|j: int| 0 <= j < reversed@.len() ==> #[trigger] reversed@[j] == orig[n - 1 - j],
            decreases results@.len(),
        {
            let item = results.pop().unwrap();
            reversed.push(item);
        }

        // The writes of the requests that did not collide, merged in batch order; their
        // replies are kept.
        let ghost mut parts: Seq<Delta> = Seq::new(n as nat, |j: int| orig[j].delta@);
        let ghost mut rs: Seq<<A::Reply as DeepView>::V> = Seq::new(
            n as nat,
            |j: int| orig[j].reply.deep_view(),
        );
        let mut batch_delta = Cache::new();
        let mut slots: Vec<Option<A::Reply>> = Vec::new();
        let mut reexecuted: usize = 0;
        let ghost mut counted: Set<int> = Set::empty();
        let mut i: usize = 0;
        proof {
            assert(masked(parts, collided, false).take(0) =~= Seq::<Delta>::empty());
        }
        while i < n
            invariant
                0 <= i <= n,
                orig.len() == n,
                counted.finite(),
                reexecuted == counted.len(),
                reexecuted <= i,
                counted == Set::new(
                    |j: int| 0 <= j < i && collision_state.marked().contains(j as usize),
                ),
                reversed@.len() == n - i,
                forall|j: int| 0 <= j < reversed@.len() ==> #[trigger] reversed@[j] == orig[n - 1 - j],
                parts == Seq::new(n as nat, |j: int| orig[j].delta@),
                rs == Seq::new(n as nat, |j: int| orig[j].reply.deep_view()),
                collided == Set::new(
                    |j: int| 0 <= j < n && collision_state.marked().contains(j as usize),
                ),
                forall|j: int| 0 <= j < n ==> (#[trigger] orig[j]).delta.wf(),
                batch_delta.wf(),
                batch_delta@ == merge_all(masked(parts, collided, false).take(i as int)),
                slots@.len() == i,
                forall|j: int|
                    0 <= j < i ==> (!collided.contains(j) <==> (#[trigger] slots@[j]) is Some),
                forall|j: int|
                    0 <= j < i && (#[trigger] slots@[j]) is Some ==> slots@[j]->Some_0.deep_view()
                        == rs[j],
            decreases n - i,
        {
            let item = reversed.pop().unwrap();
            let UnitOutcome { accesses: _, delta, reply } = item;
            let ghost m = masked(parts, collided, false);
            proof {
                assert(m.take(i + 1).drop_last() =~= m.take(i as int));
                assert(m.take(i + 1).last() == m[i as int]);
            }
            if collision_state.is_marked(i) {
                slots.push(None);
                reexecuted = reexecuted + 1;
                proof {
                    assert(merge(batch_delta@, Map::empty()) =~= batch_delta@);
                    assert(!counted.contains(i as int));
                    counted = counted.insert(i as int);
                    assert(counted =~= Set::new(
                        |j: int| 0 <= j < i + 1 && collision_state.marked().contains(j as usize),
                    ));
                }
            } else {
                merge_delta_into(&mut batch_delta, &delta);
                slots.push(Some(reply));
                proof {
                    assert(counted =~= Set::new(
                        |j: int| 0 <= j < i + 1 && collision_state.marked().contains(j as usize),
                    ));
                }
            }
            i = i + 1;
        }
        proof {
            assert(counted =~= collided);
        }
        let ghost isolated = batch_delta@;
        proof {
            assert(masked(parts, collided, false).take(n as int) =~= masked(parts, collided, false));
        }

        // The colliding requests, re-executed one after the other in batch order, each over
        // every write before it in that order.
        let mut current_view = accumulated_cache.duplicate();
        merge_delta_into(&mut current_view, &batch_delta);
        let mut i: usize = 0;
        proof {
            assert(masked(parts, collided, true).take(0) =~= Seq::<Delta>::empty());
            assert(merge(isolated, Map::empty()) =~= isolated);
        }
        while i < n
            invariant
                0 <= i <= n,
                n == batch.updates@.len(),
                ups == batch.updates@,
                base == overlay(confirmed_state.contents(), accumulated_cache@),
                accumulated_cache.wf(),
                orig.len() == n,
                collided == Set::new(
                    |j: int| 0 <= j < n && collision_state.marked().contains(j as usize),
                ),
                parts.len() == n,
                rs.len() == n,
                batch_delta.wf(),
                current_view.wf(),
                current_view@ == merge(accumulated_cache@, batch_delta@),
                isolated == isolated_layer(parts, collided),
                batch_delta@ == merge(isolated, merge_all(masked(parts, collided, true).take(i as int))),
                forall|j: int|
                    0 <= j < n && !collided.contains(j) ==> #[trigger] parts[j] == orig[j].delta@
                        && rs[j] == orig[j].reply.deep_view(),
                forall|j: int|
                    0 <= j < i && collided.contains(j) ==> (
                    overlay(collider_base(base, parts, collided, j), #[trigger] parts[j]),
                    rs[j],
                ) == application.execute_spec(collider_base(base, parts, collided, j), ups[j].operation),
                forall|j: int, k: EntryKey|
                    0 <= j < i && collided.contains(j) && #[trigger] parts[j].contains_key(k)
                        ==> application.footprint(collider_base(base, parts, collided, j), ups[j].operation).contains(k),
                slots@.len() == n,
                forall|j: int|
                    0 <= j < n && (!collided.contains(j) || j < i) ==> (#[trigger] slots@[j]) is Some
                        && slots@[j]->Some_0.deep_view() == rs[j],
            decreases n - i,
        {
            let ghost m0 = masked(parts, collided, true);
            if collision_state.is_marked(i) {
                let ghost view = overlay(base, batch_delta@);
                let mut caching_state = CachingState::new(confirmed_state, &current_view);
                proof {
                    caching_state.lemma_contents();
                    crate::model::lemma_overlay_merge(
                        confirmed_state.contents(),
                        accumulated_cache@,
                        batch_delta@,
                    );
                    crate::model::lemma_overlay_empty(view);
                    assert(view == collider_base(base, parts, collided, i as int));
                }
                let reply = application.speculatively_execute(
                    &mut caching_state,
                    &batch.updates[i].operation,
                );
                proof {
                    caching_state.lemma_contents();
                }
                let ghost touched = caching_state.accessed();
                let new_delta = caching_state.into_delta();
                let ghost bd0 = batch_delta@;
                merge_delta_into(&mut batch_delta, &new_delta);
                merge_delta_into(&mut current_view, &new_delta);
                slots[i] = Some(reply);
                proof {
                    let parts0 = parts;
                    parts = parts.update(i as int, new_delta@);
                    rs = rs.update(i as int, reply.deep_view());
                    let m1 = masked(parts, collided, true);
                    assert(m1.take(i as int) =~= m0.take(i as int));
                    assert(m1.take(i + 1).drop_last() =~= m1.take(i as int));
                    assert(m1[i as int] == new_delta@);
                    assert(masked(parts, collided, false) =~= masked(parts0, collided, false));
                    crate::model::lemma_merge_assoc(isolated, merge_all(m0.take(i as int)), new_delta@);
                    crate::model::lemma_merge_assoc(accumulated_cache@, bd0, new_delta@);
                    assert forall|j: int|
                        0 <= j < i + 1 && collided.contains(j) implies (
                        overlay(collider_base(base, parts, collided, j), #[trigger] parts[j]),
                        rs[j],
                    ) == application.execute_spec(collider_base(base, parts, collided, j), ups[j].operation) by {
                        assert(m1.take(j) =~= masked(parts0, collided, true).take(j));
                        assert(collider_base(base, parts, collided, j) == collider_base(base, parts0, collided, j));
                    }
                    assert forall|j: int, k: EntryKey|
                        0 <= j < i + 1 && collided.contains(j) && #[trigger] parts[j].contains_key(k) implies application.footprint(
                            collider_base(base, parts, collided, j),
                            ups[j].operation,
                        ).contains(k) by {
                        assert(m1.take(j) =~= masked(parts0, collided, true).take(j));
                        assert(collider_base(base, parts, collided, j) == collider_base(base, parts0, collided, j));
                        if j == i {
                            assert(touched.contains(k));
                        }
                    }
                }
            } else {
                proof {
                    let m1 = masked(parts, collided, true);
                    assert(m1.take(i + 1).drop_last() =~= m1.take(i as int));
                    assert(m1[i as int] == Map::<(Seq<u8>, Seq<u8>), Option<Seq<u8>>>::empty());
                    assert(merge(merge_all(m1.take(i as int)), Map::empty()) =~= merge_all(m1.take(i as int)));
                }
            }
            i = i + 1;
        }

        // The replies, in batch order.
        let mut replies = ReplyBatch::new_with_cap(n);
        let mut i: usize = 0;
        proof {
            assert(replies.views() =~= Seq::new(0, |j: int| (ups[j].info, rs[j])));
        }
        while i < n
            invariant
                0 <= i <= n,
                n == batch.updates@.len(),
                ups == batch.updates@,
                rs.len() == n,
                slots@.len() == n,
                forall|j: int|
                    i <= j < n ==> (#[trigger] slots@[j]) is Some && slots@[j]->Some_0.deep_view()
                        == rs[j],
                replies.views() == Seq::new(i as nat, |j: int| (ups[j].info, rs[j])),
                replies.replies@.len() == i,
            decreases n - i,
        {
            let ghost slot = slots@[i as int];
            let ghost before = replies.replies@;
            let ghost vbefore = replies.views();
            let reply = slots[i].take().unwrap();
            assert(reply == slot->Some_0);
            assert(reply.deep_view() == rs[i as int]);
            replies.add(batch.updates[i].info, reply);
            proof {
                assert forall|j: int| 0 <= j < i + 1 implies #[trigger] replies.views()[j] == (
                ups[j].info,
                rs[j],
                ) by {
                    if j < i {
                        assert(replies.replies@[j] == before[j]);
                        assert(vbefore[j] == (ups[j].info, rs[j]));
                        assert(vbefore[j] == crate::batch::reply_view(before[j]));
                    } else {
                        assert(replies.replies@[j] == crate::batch::UpdateReply { info: ups[i as int].info, reply });
                    }
                }
                assert(replies.views() =~= Seq::new((i + 1) as nat, |j: int| (ups[j].info, rs[j])));
            }
            i = i + 1;
        }
        proof {
            assert(masked(parts, collided, true).take(n as int) =~= masked(parts, collided, true));
            assert(parallel_outcome(
                *application,
                base,
                ups,
                collided,
                parts,
                rs,
                batch_delta@,
                replies.views(),
            ));
            assert forall|j: int| 0 <= j < ups.len() implies overlay(base, #[trigger] alone[j])
                == application.execute_spec(base, ups[j].operation).0 by {
                assert(alone[j] == orig[j].delta@);
            }
            assert(lone_writes(*application, base, ups, alone, writes) && collided == conflicting(
                *application,
                base,
                ups,
                writes,
            ));
            assert(lone_runs(*application, base, ups, collided, parts, alone));
        }
        let samples = parallel_batch_metrics(reexecuted, n);
        let r = (batch_delta, replies, samples);
        proof {
            assert(reexecuted == collided.len());
            assert(parallel_outcome(*application, base, ups, collided, parts, rs, r.0@, r.1.views()));
            assert(lone_runs(*application, base, ups, collided, parts, alone));
            assert(r.2@ == parallel_batch_samples(collided.len() as usize, batch.updates@.len() as usize));
        }
        r
    }
}

/// Merging layers that are all empty gives the empty layer.
proof fn lemma_merge_all_empties(ds: Seq<Delta>)
    requires
        forall|i: int| 0 <= i < ds.len() ==> #[trigger] ds[i] == Map::<(Seq<u8>, Seq<u8>), Option<Seq<u8>>>::empty(),
    ensures
        merge_all(ds) == Map::<(Seq<u8>, Seq<u8>), Option<Seq<u8>>>::empty(),
    decreases ds.len(),
{
    if ds.len() > 0 {
        lemma_merge_all_empties(ds.drop_last());
        assert(ds.last() == ds[ds.len() - 1]);
        assert(merge(Map::<(Seq<u8>, Seq<u8>), Option<Seq<u8>>>::empty(), Map::empty()) =~= Map::empty());
    }
}

#[verifier::rlimit(80)]
proof fn lemma_collided_prefix<S: CRUDState + View, A: CRUDApplication<S>>(
    app: A,
    base: Contents,
    updates: Seq<Update<A::Request>>,
    collided: Set<int>,
    parts: Seq<Delta>,
    rs: Seq<<A::Reply as DeepView>::V>,
    delta: Delta,
    replies: Seq<(UpdateInfo, <A::Reply as DeepView>::V)>,
    k: int,
)
    requires
        parallel_outcome(app, base, updates, collided, parts, rs, delta, replies),
        forall|i: int| 0 <= i < updates.len() ==> collided.contains(i),
        0 <= k <= updates.len(),
    ensures
        (overlay(base, merge_all(parts.take(k))), replies.take(k)) == run_batch(app, base, updates.take(k)),
    decreases k,
{
    if k == 0 {
        assert(parts.take(0) =~= Seq::<Delta>::empty());
        assert(replies.take(0) =~= Seq::<(UpdateInfo, <A::Reply as DeepView>::V)>::empty());
        assert(updates.take(0) =~= Seq::<Update<A::Request>>::empty());
        crate::model::lemma_overlay_empty(base);
    } else {
        let j = k - 1;
        lemma_collided_prefix(app, base, updates, collided, parts, rs, delta, replies, j);
        assert(updates.take(k).drop_last() =~= updates.take(j));
        assert(updates.take(k).last() == updates[j]);
        assert(parts.take(k).drop_last() =~= parts.take(j));
        assert(parts.take(k).last() == parts[j]);
        assert(masked(parts, collided, true) =~= parts);
        lemma_merge_all_empties(masked(parts, collided, false));
        assert(merge(isolated_layer(parts, collided), merge_all(parts.take(j))) =~= merge_all(parts.take(j)));
        assert(collider_base(base, parts, collided, j) == overlay(base, merge_all(parts.take(j))));
        assert(collided.contains(j));
        crate::model::lemma_overlay_merge(base, merge_all(parts.take(j)), parts[j]);
        assert(replies.take(k) =~= replies.take(j).push(replies[j]));
    }
}

/// When every request of a batch collided, parallel speculation is sequential execution:
/// the batch's layer placed on the base gives the contents of executing the batch in
/// order, and the replies are those of executing it in order.
pub proof fn lemma_all_collided_is_sequential<S: CRUDState + View, A: CRUDApplication<S>>(
    app: A,
    base: Contents,
    updates: Seq<Update<A::Request>>,
    collided: Set<int>,
    parts: Seq<Delta>,
    rs: Seq<<A::Reply as DeepView>::V>,
    delta: Delta,
    replies: Seq<(UpdateInfo, <A::Reply as DeepView>::V)>,
)
    requires
        parallel_outcome(app, base, updates, collided, parts, rs, delta, replies),
        forall|i: int| 0 <= i < updates.len() ==> collided.contains(i),
    ensures
        (overlay(base, delta), replies) == run_batch(app, base, updates),
{
    let n = updates.len() as int;
    lemma_collided_prefix(app, base, updates, collided, parts, rs, delta, replies, n);
    assert(parts.take(n) =~= parts);
    assert(replies.take(n) =~= replies);
    assert(updates.take(n) =~= updates);
    assert(masked(parts, collided, true) =~= parts);
    lemma_merge_all_empties(masked(parts, collided, false));
    assert(merge(isolated_layer(parts, collided), merge_all(parts)) =~= merge_all(parts));
}

/// When every request of a batch of two or more writes one common key executing alone,
/// all of them collide, and parallel speculation is sequential execution: the batch's layer
/// on the base gives the contents of executing the batch in order, and the replies are
/// those of executing it in order (so the last writer of the key wins).
pub proof fn lemma_common_key_is_sequential<S: CRUDState + View, A: CRUDApplication<S>>(
    app: A,
    base: Contents,
    updates: Seq<Update<A::Request>>,
    collided: Set<int>,
    parts: Seq<Delta>,
    rs: Seq<<A::Reply as DeepView>::V>,
    delta: Delta,
    replies: Seq<(UpdateInfo, <A::Reply as DeepView>::V)>,
    alone: Seq<Delta>,
    k: EntryKey,
)
    requires
        parallel_outcome(app, base, updates, collided, parts, rs, delta, replies),
        lone_runs(app, base, updates, collided, parts, alone),
        updates.len() >= 2,
        forall|i: int| 0 <= i < updates.len() ==> (#[trigger] alone[i]).contains_key(k),
    ensures
        (overlay(base, delta), replies) == run_batch(app, base, updates),
{
    assert forall|i: int| 0 <= i < updates.len() implies collided.contains(i) by {
        let j = if i == 0 { 1int } else { 0int };
        assert(alone[i].contains_key(k));
        assert(alone[j].contains_key(k));
    }
    lemma_all_collided_is_sequential(app, base, updates, collided, parts, rs, delta, replies);
}

/// Layers that do not hold `k` merge into one that does not hold it.
proof fn lemma_merge_all_without(ds: Seq<Delta>, k: EntryKey)
    requires
        forall|i: int| 0 <= i < ds.len() ==> !(#[trigger] ds[i]).contains_key(k),
    ensures
        !merge_all(ds).contains_key(k),
    decreases ds.len(),
{
    if ds.len() > 0 {
        lemma_merge_all_without(ds.drop_last(), k);
        assert(ds.last() == ds[ds.len() - 1]);
    }
}

/// Contents that every read sees alike are equal.
pub proof fn lemma_lookup_ext(a: Contents, b: Contents)
    requires
        forall|k: EntryKey| #[trigger] lookup(a, k) == lookup(b, k),
    ensures
        a == b,
{
    assert forall|k: EntryKey| a.contains_key(k) == b.contains_key(k) by {
        assert(lookup(a, k) == lookup(b, k));
    }
    assert forall|k: EntryKey| a.contains_key(k) implies a[k] == b[k] by {
        assert(lookup(a, k) == lookup(b, k));
    }
    assert(a =~= b);
}

/// With no collision, the requests before position `m`, executed in order, give the
/// merge of their lone layers and their lone replies.
#[verifier::rlimit(40)]
proof fn lemma_isolated_prefix<S: CRUDState + View, A: CRUDApplication<S>>(
    app: A,
    base: Contents,
    updates: Seq<Update<A::Request>>,
    collided: Set<int>,
    parts: Seq<Delta>,
    rs: Seq<<A::Reply as DeepView>::V>,
    delta: Delta,
    replies: Seq<(UpdateInfo, <A::Reply as DeepView>::V)>,
    alone: Seq<Delta>,
    m: int,
)
    requires
        parallel_outcome(app, base, updates, collided, parts, rs, delta, replies),
        lone_runs(app, base, updates, collided, parts, alone),
        forall|i: int| 0 <= i < updates.len() ==> !collided.contains(i),
        0 <= m <= updates.len(),
    ensures
        (overlay(base, merge_all(parts.take(m))), replies.take(m)) == run_batch(app, base, updates.take(m)),
    decreases m,
{
    if m == 0 {
        assert(parts.take(0) =~= Seq::<Delta>::empty());
        assert(replies.take(0) =~= Seq::<(UpdateInfo, <A::Reply as DeepView>::V)>::empty());
        assert(updates.take(0) =~= Seq::<Update<A::Request>>::empty());
        crate::model::lemma_overlay_empty(base);
    } else {
        let j = m - 1;
        lemma_isolated_prefix(app, base, updates, collided, parts, rs, delta, replies, alone, j);
        let op = updates[j].operation;
        let fp = app.footprint(base, op);
        let pre = merge_all(parts.take(j));
        let seqbase = overlay(base, pre);
        assert(!collided.contains(j));
        assert(parts[j] == alone[j]);
        // No earlier request wrote a key that request `j` reads or writes.
        assert forall|k: EntryKey| fp.contains(k) || parts[j].contains_key(k) implies !pre.contains_key(k) by {
            assert forall|i: int| 0 <= i < parts.take(j).len() implies !(#[trigger] parts.take(j)[i]).contains_key(k) by {
                assert(parts.take(j)[i] == parts[i]);
                assert(!collided.contains(i));
                assert(parts[i] == alone[i]);
                if alone[i].contains_key(k) {
                    if fp.contains(k) {
                        assert(footprint_conflicts_collide(app, base, updates, alone, collided));
                        assert(collided.contains(j));
                    } else {
                        assert(alone[j].contains_key(k));
                        assert(overlapping_writes_collide(alone, collided));
                        assert(collided.contains(j));
                    }
                }
            }
            lemma_merge_all_without(parts.take(j), k);
        }
        assert forall|k: EntryKey| #[trigger] fp.contains(k) implies lookup(base, k) == lookup(seqbase, k) by {
            crate::model::lemma_layered_lookup(base, pre, k);
        }
        app.lemma_footprint_frames(base, seqbase, op);
        let e1 = app.execute_spec(base, op);
        let e2 = app.execute_spec(seqbase, op);
        assert(e1 == (overlay(base, parts[j]), rs[j]));
        assert forall|k: EntryKey| #[trigger] lookup(e2.0, k) == lookup(overlay(seqbase, parts[j]), k) by {
            crate::model::lemma_layered_lookup(base, parts[j], k);
            crate::model::lemma_layered_lookup(seqbase, parts[j], k);
            crate::model::lemma_layered_lookup(base, pre, k);
            if fp.contains(k) {
                assert(lookup(e2.0, k) == lookup(e1.0, k));
            } else {
                assert(lookup(e2.0, k) == lookup(seqbase, k));
                assert(lookup(e1.0, k) == lookup(base, k));
            }
        }
        lemma_lookup_ext(e2.0, overlay(seqbase, parts[j]));
        crate::model::lemma_overlay_merge(base, pre, parts[j]);
        assert(updates.take(m).drop_last() =~= updates.take(j));
        assert(updates.take(m).last() == updates[j]);
        assert(parts.take(m).drop_last() =~= parts.take(j));
        assert(parts.take(m).last() == parts[j]);
        assert(replies.take(m) =~= replies.take(j).push(replies[j]));
    }
}

/// When no request of a batch collided, parallel speculation is sequential execution: the
/// batch's layer placed on the base gives the contents of executing the batch in order, and
/// the replies are those of executing it in order.
pub proof fn lemma_none_collided_is_sequential<S: CRUDState + View, A: CRUDApplication<S>>(
    app: A,
    base: Contents,
    updates: Seq<Update<A::Request>>,
    collided: Set<int>,
    parts: Seq<Delta>,
    rs: Seq<<A::Reply as DeepView>::V>,
    delta: Delta,
    replies: Seq<(UpdateInfo, <A::Reply as DeepView>::V)>,
    alone: Seq<Delta>,
)
    requires
        parallel_outcome(app, base, updates, collided, parts, rs, delta, replies),
        lone_runs(app, base, updates, collided, parts, alone),
        forall|i: int| 0 <= i < updates.len() ==> !collided.contains(i),
    ensures
        (overlay(base, delta), replies) == run_batch(app, base, updates),
{
    let n = updates.len() as int;
    lemma_isolated_prefix(app, base, updates, collided, parts, rs, delta, replies, alone, n);
    lemma_none_collided_is_isolated(app, base, updates, collided, parts, rs, delta, replies);
    assert(parts.take(n) =~= parts);
    assert(replies.take(n) =~= replies);
    assert(updates.take(n) =~= updates);
}

/// When no request of a batch collided, each reply is the one the request gives executing
/// alone on the base, and the batch's layer is the requests' layers merged in batch order.
pub proof fn lemma_none_collided_is_isolated<S: CRUDState + View, A: CRUDApplication<S>>(
    app: A,
    base: Contents,
    updates: Seq<Update<A::Request>>,
    collided: Set<int>,
    parts: Seq<Delta>,
    rs: Seq<<A::Reply as DeepView>::V>,
    delta: Delta,
    replies: Seq<(UpdateInfo, <A::Reply as DeepView>::V)>,
)
    requires
        parallel_outcome(app, base, updates, collided, parts, rs, delta, replies),
        forall|i: int| 0 <= i < updates.len() ==> !collided.contains(i),
    ensures
        delta == merge_all(parts),
        forall|i: int|
            0 <= i < updates.len() ==> (#[trigger] replies[i]).1 == app.execute_spec(
                base,
                updates[i].operation,
            ).1,
{
    assert(masked(parts, collided, false) =~= parts);
    lemma_merge_all_empties(masked(parts, collided, true));
    assert(merge(merge_all(parts), Map::empty()) =~= merge_all(parts));
    assert forall|i: int| 0 <= i < updates.len() implies (#[trigger] replies[i]).1 == app.execute_spec(
        base,
        updates[i].operation,
    ).1 by {
        assert(!collided.contains(i));
        assert((overlay(base, parts[i]), rs[i]) == app.execute_spec(base, updates[i].operation));
    }
}

/// Cache-based preemptive execution whose batches are speculated in parallel, with the
/// colliding requests of each batch re-executed in order.
pub type ScalableCachingPreemptiveState<S, A> = SpeculativeState<S, A, ParallelSpeculation>;

impl<S: CRUDState + View + Sync, A: CRUDApplication<S> + Sync> SpeculativeState<S, A, ParallelSpeculation> where
    A::Request: Sync,
    A::Reply: Send,
 {
    /// A state that speculates on the threads of `thread_pool`, holding `initial_state.1`
    /// as the state reached by applying every batch up to and including `initial_state.0`:
    /// the next batch it expects, both for speculation and confirmation, is the one after.
    pub fn new(initial_state: (SeqNo, S), thread_pool: ThreadPool) -> (s: Self)
        ensures
            s.wf(),
            s.aligned(),
            forall|app: A| s.sound(app),
            s.confirmed() == initial_state.1,
            s.next_confirmed_value() == next_raw(initial_state.0.value),
            s.next_preemptive_value() == next_raw(initial_state.0.value),
            s.pending_updates().len() == 0,
            s.staged_batches() == Map::<u32, UpdateBatch<A::Request>>::empty(),
    {
        let (last_applied, state) = initial_state;
        Self::with_engine((last_applied.next(), state), ParallelSpeculation::new(thread_pool))
    }

    /// A state that speculates on the threads of `thread_pool` and expects
    /// `initial_state.0` next, both for speculation and confirmation.
    pub fn expecting(initial_state: (SeqNo, S), thread_pool: ThreadPool) -> (s: Self)
        ensures
            s.wf(),
            s.aligned(),
            forall|app: A| s.sound(app),
            s.confirmed() == initial_state.1,
            s.next_confirmed_value() == initial_state.0.value,
            s.next_preemptive_value() == initial_state.0.value,
            s.pending_updates().len() == 0,
            s.staged_batches() == Map::<u32, UpdateBatch<A::Request>>::empty(),
    {
        Self::with_engine(initial_state, ParallelSpeculation::new(thread_pool))
    }
}

} // verus!
