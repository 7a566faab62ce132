use crate::application::{run_batch, CRUDApplication};
use crate::batch::{Update, UpdateBatch, UpdateInfo};
use crate::pending_state::{run_batches, SpeculativeState};
use crate::crud::{CRUDState, KvState};
use crate::kv_app::{KvApp, KvOp};
use crate::model::{entry_key, lookup, merge_all, overlay, Contents, Delta, EntryKey};
use crate::scalable_state::{collider_base, lone_runs, masked, parallel_outcome, ParallelSpeculation};
use crate::speculation::SpeculationEngine;
use vstd::prelude::*;

verus! {

/// The key a key-value request touches.
pub open spec fn kv_key(op: KvOp) -> EntryKey {
    entry_key("default", op.key@)
}

/// What a key-value request leaves at its key: the value written, or nothing for a deletion.
pub open spec fn kv_written(op: KvOp) -> Option<Seq<u8>> {
    match op.value {
        Some(v) => Some(v@),
        None => None,
    }
}

/// What `k` holds after executing `ups` in order from `v0`: what the last request on `k`
/// left there, or `v0` when none touched it.
pub open spec fn kv_value_after(v0: Option<Seq<u8>>, ups: Seq<Update<KvOp>>, k: EntryKey) -> Option<Seq<u8>>
    decreases ups.len(),
{
    if ups.len() == 0 {
        v0
    } else if kv_key(ups.last().operation) == k {
        kv_written(ups.last().operation)
    } else {
        kv_value_after(v0, ups.drop_last(), k)
    }
}

/// What a read of `k` sees through the layers `ds` placed in order on a value `v0`.
pub open spec fn last_layer_value(ds: Seq<Delta>, k: EntryKey, v0: Option<Seq<u8>>) -> Option<Seq<u8>>
    decreases ds.len(),
{
    if ds.len() == 0 {
        v0
    } else if ds.last().contains_key(k) {
        ds.last()[k]
    } else {
        last_layer_value(ds.drop_last(), k, v0)
    }
}

/// A read through merged layers sees the last layer that holds the key.
proof fn lemma_merged_lookup(c: Contents, ds: Seq<Delta>, k: EntryKey)
    ensures
        lookup(overlay(c, merge_all(ds)), k) == last_layer_value(ds, k, lookup(c, k)),
    decreases ds.len(),
{
    if ds.len() == 0 {
        crate::model::lemma_overlay_empty(c);
    } else {
        lemma_merged_lookup(c, ds.drop_last(), k);
        crate::model::lemma_overlay_merge(c, merge_all(ds.drop_last()), ds.last());
        crate::model::lemma_layered_lookup(overlay(c, merge_all(ds.drop_last())), ds.last(), k);
    }
}

/// Layers none of which holds `k` leave what a read of `k` sees unchanged.
proof fn lemma_no_layer_holds(ds: Seq<Delta>, k: EntryKey, v0: Option<Seq<u8>>)
    requires
        forall|h: int| 0 <= h < ds.len() ==> !(#[trigger] ds[h]).contains_key(k),
    ensures
        last_layer_value(ds, k, v0) == v0,
    decreases ds.len(),
{
    if ds.len() > 0 {
        assert(ds.last() == ds[ds.len() - 1]);
        lemma_no_layer_holds(ds.drop_last(), k, v0);
    }
}

/// When layer `j` is the last to hold `k`, a read of `k` sees what it holds.
proof fn lemma_last_layer_holds(ds: Seq<Delta>, k: EntryKey, v0: Option<Seq<u8>>, j: int)
    requires
        0 <= j < ds.len(),
        ds[j].contains_key(k),
        forall|h: int| j < h < ds.len() ==> !(#[trigger] ds[h]).contains_key(k),
    ensures
        last_layer_value(ds, k, v0) == ds[j][k],
    decreases ds.len(),
{
    assert(ds.last() == ds[ds.len() - 1]);
    if j < ds.len() - 1 {
        assert forall|h: int| j < h < ds.drop_last().len() implies !(#[trigger] ds.drop_last()[h]).contains_key(k) by {
            assert(ds.drop_last()[h] == ds[h]);
        }
        assert(ds.drop_last()[j] == ds[j]);
        lemma_last_layer_holds(ds.drop_last(), k, v0, j);
    }
}

/// When every request on `k` leaves `v0` there, `k` holds `v0` afterwards.
proof fn lemma_value_kept(v0: Option<Seq<u8>>, ups: Seq<Update<KvOp>>, k: EntryKey)
    requires
        forall|j: int| 0 <= j < ups.len() && kv_key((#[trigger] ups[j]).operation) == k ==> kv_written(ups[j].operation) == v0,
    ensures
        kv_value_after(v0, ups, k) == v0,
    decreases ups.len(),
{
    if ups.len() > 0 {
        assert(ups.last() == ups[ups.len() - 1]);
        assert forall|j: int| 0 <= j < ups.drop_last().len() && kv_key((#[trigger] ups.drop_last()[j]).operation) == k implies kv_written(
            ups.drop_last()[j].operation,
        ) == v0 by {
            assert(ups.drop_last()[j] == ups[j]);
        }
        lemma_value_kept(v0, ups.drop_last(), k);
    }
}

/// When request `j` is the last on `k`, `k` holds what it left there.
proof fn lemma_last_request_on(v0: Option<Seq<u8>>, ups: Seq<Update<KvOp>>, k: EntryKey, j: int)
    requires
        0 <= j < ups.len(),
        kv_key(ups[j].operation) == k,
        forall|h: int| j < h < ups.len() ==> kv_key((#[trigger] ups[h]).operation) != k,
    ensures
        kv_value_after(v0, ups, k) == kv_written(ups[j].operation),
    decreases ups.len(),
{
    assert(ups.last() == ups[ups.len() - 1]);
    if j < ups.len() - 1 {
        assert forall|h: int| j < h < ups.drop_last().len() implies kv_key((#[trigger] ups.drop_last()[h]).operation) != k by {
            assert(ups.drop_last()[h] == ups[h]);
        }
        assert(ups.drop_last()[j] == ups[j]);
        lemma_last_request_on(v0, ups.drop_last(), k, j);
    }
}

/// Executing key-value requests in order: every key holds what the last request on it
/// left, and each request is answered with what its key held before it.
proof fn lemma_kv_run(base: Contents, ups: Seq<Update<KvOp>>, m: int)
    requires
        0 <= m <= ups.len(),
    ensures
        forall|k: EntryKey| #[trigger] lookup(run_batch(KvApp, base, ups.take(m)).0, k)
            == kv_value_after(lookup(base, k), ups.take(m), k),
        run_batch(KvApp, base, ups.take(m)).1 == Seq::new(
            m as nat,
            |i: int| (ups[i].info, kv_value_after(lookup(base, kv_key(ups[i].operation)), ups.take(i), kv_key(ups[i].operation))),
        ),
    decreases m,
{
    if m == 0 {
        assert(ups.take(0) =~= Seq::<Update<KvOp>>::empty());
        assert(run_batch(KvApp, base, ups.take(0)).1 =~= Seq::new(
            0,
            |i: int| (ups[i].info, kv_value_after(lookup(base, kv_key(ups[i].operation)), ups.take(i), kv_key(ups[i].operation))),
        ));
    } else {
        let j = m - 1;
        lemma_kv_run(base, ups, j);
        let t = ups.take(m);
        assert(t.drop_last() =~= ups.take(j));
        assert(t.last() == ups[j]);
        let prev = run_batch(KvApp, base, ups.take(j));
        let kj = kv_key(ups[j].operation);
        assert forall|k: EntryKey| #[trigger] lookup(run_batch(KvApp, base, t).0, k) == kv_value_after(
            lookup(base, k),
            t,
            k,
        ) by {
            assert(lookup(prev.0, k) == kv_value_after(lookup(base, k), ups.take(j), k));
        }
        assert(lookup(prev.0, kj) == kv_value_after(lookup(base, kj), ups.take(j), kj));
        assert(run_batch(KvApp, base, t).1 =~= Seq::new(
            m as nat,
            |i: int| (ups[i].info, kv_value_after(lookup(base, kv_key(ups[i].operation)), ups.take(i), kv_key(ups[i].operation))),
        ));
    }
}

/// A key written alone by a request that did not collide: that request is the only one on
/// the key.
pub open spec fn sole_writer_key(ups: Seq<Update<KvOp>>, collided: Set<int>, alone: Seq<Delta>, k: EntryKey) -> bool {
    exists|j: int|
        0 <= j < ups.len() && !collided.contains(j) && kv_key(ups[j].operation) == k && #[trigger] alone[j].contains_key(k)
}

/// Along the re-executed requests, every key other than one written by a lone
/// non-colliding request holds what executing the batch in order leaves there.
#[verifier::rlimit(60)]
proof fn lemma_colliders_follow_order(
    base: Contents,
    ups: Seq<Update<KvOp>>,
    collided: Set<int>,
    parts: Seq<Delta>,
    rs: Seq<Option<Seq<u8>>>,
    delta: Delta,
    replies: Seq<(UpdateInfo, Option<Seq<u8>>)>,
    alone: Seq<Delta>,
    i: int,
)
    requires
        parallel_outcome(KvApp, base, ups, collided, parts, rs, delta, replies),
        lone_runs(KvApp, base, ups, collided, parts, alone),
        0 <= i <= ups.len(),
    ensures
        forall|k: EntryKey|
            !sole_writer_key(ups, collided, alone, k) ==> #[trigger] last_layer_value(
                masked(parts, collided, true).take(i),
                k,
                lookup(base, k),
            ) == kv_value_after(lookup(base, k), ups.take(i), k),
    decreases i,
{
    let mc = masked(parts, collided, true);
    if i == 0 {
        assert(mc.take(0) =~= Seq::<Delta>::empty());
        assert(ups.take(0) =~= Seq::<Update<KvOp>>::empty());
    } else {
        let j = i - 1;
        lemma_colliders_follow_order(base, ups, collided, parts, rs, delta, replies, alone, j);
        assert(mc.take(i).drop_last() =~= mc.take(j));
        assert(mc.take(i).last() == mc[j]);
        assert(ups.take(i).drop_last() =~= ups.take(j));
        assert(ups.take(i).last() == ups[j]);
        let op = ups[j].operation;
        let kj = kv_key(op);
        assert(KvApp.footprint(base, op).contains(kj));
        assert forall|k: EntryKey| !sole_writer_key(ups, collided, alone, k) implies #[trigger] last_layer_value(
            mc.take(i),
            k,
            lookup(base, k),
        ) == kv_value_after(lookup(base, k), ups.take(i), k) by {
            assert(last_layer_value(mc.take(j), k, lookup(base, k)) == kv_value_after(lookup(base, k), ups.take(j), k));
            if collided.contains(j) {
                let cb = collider_base(base, parts, collided, j);
                assert(mc[j] == parts[j]);
                assert(KvApp.footprint(cb, op) == set![kj]);
                if k != kj {
                    if parts[j].contains_key(k) {
                        assert(KvApp.footprint(cb, op).contains(k));
                    }
                } else {
                    // What request `j` reads is the collider base, which is the layers before it.
                    lemma_merged_lookup(
                        overlay(base, crate::scalable_state::isolated_layer(parts, collided)),
                        mc.take(j),
                        k,
                    );
                    crate::model::lemma_overlay_merge(
                        base,
                        crate::scalable_state::isolated_layer(parts, collided),
                        merge_all(mc.take(j)),
                    );
                    lemma_merged_lookup(base, masked(parts, collided, false), k);
                    assert(!sole_writer_key(ups, collided, alone, k));
                    assert forall|h: int| 0 <= h < masked(parts, collided, false).len() implies !(#[trigger] masked(
                        parts,
                        collided,
                        false,
                    )[h]).contains_key(k) by {
                        if !collided.contains(h) && parts[h].contains_key(k) {
                            assert(parts[h] == alone[h]);
                            assert(KvApp.footprint(base, ups[h].operation).contains(k));
                            assert(kv_key(ups[h].operation) == k);
                        }
                    }
                    lemma_no_layer_holds(masked(parts, collided, false), k, lookup(base, k));
                    crate::model::lemma_layered_lookup(cb, parts[j], k);
                    assert(overlay(cb, parts[j]) == kv_execute_contents(cb, op));
                }
            } else {
                assert(mc[j] == Map::<EntryKey, Option<Seq<u8>>>::empty());
                if k == kj {
                    // A request that did not collide left its key as it found it on the base,
                    // and so did every request before it on that key.
                    assert(!alone[j].contains_key(k));
                    crate::model::lemma_layered_lookup(base, alone[j], k);
                    assert(overlay(base, alone[j]) == kv_execute_contents(base, op));
                    assert forall|h: int| 0 <= h < ups.take(j).len() && kv_key((#[trigger] ups.take(j)[h]).operation) == k implies kv_written(
                        ups.take(j)[h].operation,
                    ) == lookup(base, k) by {
                        assert(ups.take(j)[h] == ups[h]);
                        if alone[h].contains_key(k) {
                            assert(crate::scalable_state::footprint_conflicts_collide(KvApp, base, ups, alone, collided));
                            assert(KvApp.footprint(base, ups[j].operation).contains(k));
                            assert(collided.contains(j));
                        }
                        crate::model::lemma_layered_lookup(base, alone[h], k);
                        assert(overlay(base, alone[h]) == kv_execute_contents(base, ups[h].operation));
                    }
                    lemma_value_kept(lookup(base, k), ups.take(j), k);
                }
            }
        }
    }
}

/// For key-value requests, parallel speculation is sequential execution: for any outcome
/// the parallel engine admits for a batch, the batch's layer placed on the base gives the
/// contents of executing the batch in order, and its replies are those of executing it in
/// order.
#[verifier::rlimit(60)]
pub proof fn lemma_kv_parallel_is_sequential(
    base: Contents,
    updates: Seq<Update<KvOp>>,
    delta: Delta,
    replies: Seq<(UpdateInfo, Option<Seq<u8>>)>,
)
    requires
        <ParallelSpeculation as SpeculationEngine<KvState, KvApp>>::admits(KvApp, base, updates, delta, replies),
    ensures
        (overlay(base, delta), replies) == run_batch(KvApp, base, updates),
{
    let (collided, parts, rs, alone) = choose|
        collided: Set<int>,
        parts: Seq<Delta>,
        rs: Seq<Option<Seq<u8>>>,
        alone: Seq<Delta>,
    |
        parallel_outcome(KvApp, base, updates, collided, parts, rs, delta, replies) && lone_runs(
            KvApp,
            base,
            updates,
            collided,
            parts,
            alone,
        );
    let n = updates.len() as int;
    let mn = masked(parts, collided, false);
    let mc = masked(parts, collided, true);
    lemma_colliders_follow_order(base, updates, collided, parts, rs, delta, replies, alone, n);
    lemma_kv_run(base, updates, n);
    assert(updates.take(n) =~= updates);
    assert(mc.take(n) =~= mc);
    let seq_run = run_batch(KvApp, base, updates);
    crate::model::lemma_overlay_merge(base, merge_all(mn), merge_all(mc));
    assert forall|k: EntryKey| #[trigger] lookup(overlay(base, delta), k) == lookup(seq_run.0, k) by {
        lemma_merged_lookup(overlay(base, merge_all(mn)), mc, k);
        lemma_merged_lookup(base, mn, k);
        if sole_writer_key(updates, collided, alone, k) {
            let j = choose|j: int|
                0 <= j < updates.len() && !collided.contains(j) && kv_key(updates[j].operation) == k
                    && #[trigger] alone[j].contains_key(k);
            // No other request touches `k`: it would have collided with `j`.
            assert forall|h: int| 0 <= h < n && h != j implies kv_key((#[trigger] updates[h]).operation) != k by {
                if kv_key(updates[h].operation) == k {
                    assert(KvApp.footprint(base, updates[h].operation).contains(k));
                    assert(crate::scalable_state::footprint_conflicts_collide(KvApp, base, updates, alone, collided));
                    assert(collided.contains(j));
                }
            }
            assert forall|h: int| 0 <= h < mn.len() && h != j implies !(#[trigger] mn[h]).contains_key(k) by {
                if !collided.contains(h) && parts[h].contains_key(k) {
                    assert(parts[h] == alone[h]);
                    assert(KvApp.footprint(base, updates[h].operation).contains(k));
                }
            }
            assert(mn[j] == alone[j]);
            lemma_last_layer_holds(mn, k, lookup(base, k), j);
            assert forall|h: int| 0 <= h < mc.len() implies !(#[trigger] mc[h]).contains_key(k) by {
                if collided.contains(h) && parts[h].contains_key(k) {
                    let cb = collider_base(base, parts, collided, h);
                    assert(KvApp.footprint(cb, updates[h].operation).contains(k));
                }
            }
            lemma_no_layer_holds(mc, k, lookup(overlay(base, merge_all(mn)), k));
            crate::model::lemma_layered_lookup(base, alone[j], k);
            assert(overlay(base, alone[j]) == kv_execute_contents(base, updates[j].operation));
            lemma_last_request_on(lookup(base, k), updates, k, j);
        } else {
            assert forall|h: int| 0 <= h < mn.len() implies !(#[trigger] mn[h]).contains_key(k) by {
                if !collided.contains(h) && parts[h].contains_key(k) {
                    assert(parts[h] == alone[h]);
                    assert(KvApp.footprint(base, updates[h].operation).contains(k));
                    assert(kv_key(updates[h].operation) == k);
                }
            }
            lemma_no_layer_holds(mn, k, lookup(base, k));
        }
    }
    crate::scalable_state::lemma_lookup_ext(overlay(base, delta), seq_run.0);
    assert forall|i: int| 0 <= i < n implies #[trigger] rs[i] == kv_value_after(
        lookup(base, kv_key(updates[i].operation)),
        updates.take(i),
        kv_key(updates[i].operation),
    ) by {
        let op = updates[i].operation;
        let k = kv_key(op);
        assert(KvApp.footprint(base, op).contains(k));
        if collided.contains(i) {
            let cb = collider_base(base, parts, collided, i);
            assert((overlay(cb, parts[i]), rs[i]) == KvApp.execute_spec(cb, op));
            assert(!sole_writer_key(updates, collided, alone, k)) by {
                if sole_writer_key(updates, collided, alone, k) {
                    let j = choose|j: int|
                        0 <= j < updates.len() && !collided.contains(j) && kv_key(updates[j].operation) == k
                            && #[trigger] alone[j].contains_key(k);
                    assert(crate::scalable_state::footprint_conflicts_collide(KvApp, base, updates, alone, collided));
                    assert(collided.contains(j));
                }
            }
            lemma_colliders_follow_order(base, updates, collided, parts, rs, delta, replies, alone, i);
            assert(last_layer_value(mc.take(i), k, lookup(base, k)) == kv_value_after(lookup(base, k), updates.take(i), k));
            lemma_merged_lookup(overlay(base, crate::scalable_state::isolated_layer(parts, collided)), mc.take(i), k);
            crate::model::lemma_overlay_merge(base, crate::scalable_state::isolated_layer(parts, collided), merge_all(mc.take(i)));
            lemma_merged_lookup(base, mn, k);
            assert forall|h: int| 0 <= h < mn.len() implies !(#[trigger] mn[h]).contains_key(k) by {
                if !collided.contains(h) && parts[h].contains_key(k) {
                    assert(parts[h] == alone[h]);
                    assert(KvApp.footprint(base, updates[h].operation).contains(k));
                    assert(kv_key(updates[h].operation) == k);
                }
            }
            lemma_no_layer_holds(mn, k, lookup(base, k));
        } else {
            assert((overlay(base, parts[i]), rs[i]) == KvApp.execute_spec(base, op));
            assert forall|h: int| 0 <= h < updates.take(i).len() && kv_key((#[trigger] updates.take(i)[h]).operation) == k implies kv_written(
                updates.take(i)[h].operation,
            ) == lookup(base, k) by {
                assert(updates.take(i)[h] == updates[h]);
                if alone[h].contains_key(k) {
                    assert(crate::scalable_state::footprint_conflicts_collide(KvApp, base, updates, alone, collided));
                    assert(collided.contains(i));
                }
                crate::model::lemma_layered_lookup(base, alone[h], k);
                assert(overlay(base, alone[h]) == kv_execute_contents(base, updates[h].operation));
            }
            lemma_value_kept(lookup(base, k), updates.take(i), k);
        }
    }
    assert(replies =~= seq_run.1);
}

impl SpeculativeState<KvState, KvApp, ParallelSpeculation> {
    proof fn lemma_kv_base_is_prefix_run(&self, i: int)
        requires
            self.sound(KvApp),
            0 <= i <= self.pending_updates().len(),
        ensures
            self.base_of(i) == run_batches(KvApp, self.confirmed().contents(), self.pending_batches().take(i)),
        decreases i,
    {
        let c = self.confirmed().contents();
        let d = self.pending_deltas();
        let b = self.pending_batches();
        if i == 0 {
            assert(d.take(0) =~= Seq::<Delta>::empty());
            assert(b.take(0) =~= Seq::<UpdateBatch<KvOp>>::empty());
        } else {
            self.lemma_kv_base_is_prefix_run(i - 1);
            let p = self.pending_updates()[i - 1];
            assert(<ParallelSpeculation as SpeculationEngine<KvState, KvApp>>::admits(
                KvApp,
                self.base_of(i - 1),
                p.batch.updates@,
                p.delta@,
                p.replies.views(),
            ));
            lemma_kv_parallel_is_sequential(self.base_of(i - 1), p.batch.updates@, p.delta@, p.replies.views());
            assert(d.take(i).drop_last() =~= d.take(i - 1));
            assert(d.take(i).last() == p.delta@);
            assert(b.take(i).drop_last() =~= b.take(i - 1));
            assert(b.take(i).last() == p.batch);
        }
    }

    /// For key-value requests, scalable speculation is sequential execution: what reads
    /// observe through the accumulated cache is exactly the confirmed state after executing
    /// every pending batch in order, and each pending batch's replies are those that
    /// executing it in order at its turn produces.
    pub proof fn lemma_kv_scalable_speculation_is_sequential(&self)
        requires
            self.wf(),
            self.sound(KvApp),
        ensures
            self.speculative_contents() == run_batches(KvApp, self.confirmed().contents(), self.pending_batches()),
            forall|i: int|
                0 <= i < self.pending_updates().len() ==> (#[trigger] self.pending_updates()[i]).replies.views()
                    == run_batch(
                    KvApp,
                    run_batches(KvApp, self.confirmed().contents(), self.pending_batches().take(i)),
                    self.pending_batches()[i].updates@,
                ).1,
    {
        self.lemma_accumulated_is_merge();
        let n = self.pending_updates().len() as int;
        self.lemma_kv_base_is_prefix_run(n);
        assert(self.pending_deltas().take(n) =~= self.pending_deltas());
        assert(self.pending_batches().take(n) =~= self.pending_batches());
        assert forall|i: int| 0 <= i < self.pending_updates().len() implies (
        #[trigger] self.pending_updates()[i]).replies.views() == run_batch(
            KvApp,
            run_batches(KvApp, self.confirmed().contents(), self.pending_batches().take(i)),
            self.pending_batches()[i].updates@,
        ).1 by {
            self.lemma_kv_base_is_prefix_run(i);
            let p = self.pending_updates()[i];
            assert(<ParallelSpeculation as SpeculationEngine<KvState, KvApp>>::admits(
                KvApp,
                self.base_of(i),
                p.batch.updates@,
                p.delta@,
                p.replies.views(),
            ));
            lemma_kv_parallel_is_sequential(self.base_of(i), p.batch.updates@, p.delta@, p.replies.views());
            assert(self.pending_batches()[i] == p.batch);
        }
    }
}

/// The contents a key-value request leaves.
pub open spec fn kv_execute_contents(c: Contents, op: KvOp) -> Contents {
    crate::kv_app::kv_execute(c, op).0
}

} // verus!
