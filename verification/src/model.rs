use vstd::prelude::*;

verus! {

/// The abstract identity of a stored value: the column's UTF-8 bytes and the key's bytes.
pub type EntryKey = (Seq<u8>, Seq<u8>);

/// The abstract contents of a CRUD state: what `read` returns for every column and key.
pub type Contents = Map<EntryKey, Seq<u8>>;

/// A layer of pending writes: `Some(v)` is a write of `v`, `None` a deletion (tombstone).
pub type Delta = Map<EntryKey, Option<Seq<u8>>>;

/// The abstract key addressed by `column` and `key`.
pub open spec fn entry_key(column: &str, key: Seq<u8>) -> EntryKey {
    (vstd::utf8::encode_utf8(column@), key)
}

/// What a read of `k` returns in `c`.
pub open spec fn lookup(c: Contents, k: EntryKey) -> Option<Seq<u8>> {
    if c.contains_key(k) {
        Some(c[k])
    } else {
        None
    }
}

/// The byte view of an optional byte vector.
pub open spec fn bytes_opt(o: Option<Vec<u8>>) -> Option<Seq<u8>> {
    match o {
        Some(v) => Some(v@),
        None => None,
    }
}

/// The contents seen through a layer of writes `d` placed on top of `base`.
pub open spec fn overlay(base: Contents, d: Delta) -> Contents {
    Map::new(
        |k: EntryKey|
            if d.contains_key(k) {
                d[k] is Some
            } else {
                base.contains_key(k)
            },
        |k: EntryKey|
            if d.contains_key(k) {
                d[k]->Some_0
            } else {
                base[k]
            },
    )
}

/// A read through a layer of writes.
pub open spec fn layered_lookup(base: Contents, d: Delta, k: EntryKey) -> Option<Seq<u8>> {
    if d.contains_key(k) {
        d[k]
    } else {
        lookup(base, k)
    }
}

/// Two layers of writes squashed into one; the later layer wins on a shared key.
pub open spec fn merge(earlier: Delta, later: Delta) -> Delta {
    earlier.union_prefer_right(later)
}

/// All the layers of `ds`, squashed in order.
pub open spec fn merge_all(ds: Seq<Delta>) -> Delta
    decreases ds.len(),
{
    if ds.len() == 0 {
        Map::empty()
    } else {
        merge(merge_all(ds.drop_last()), ds.last())
    }
}

/// All the layers of `ds` placed on top of `base`, one after the other.
pub open spec fn overlay_all(base: Contents, ds: Seq<Delta>) -> Contents
    decreases ds.len(),
{
    if ds.len() == 0 {
        base
    } else {
        overlay(overlay_all(base, ds.drop_last()), ds.last())
    }
}

/// A read through a layer of writes is a lookup in the overlaid contents.
pub proof fn lemma_layered_lookup(base: Contents, d: Delta, k: EntryKey)
    ensures
        layered_lookup(base, d, k) == lookup(overlay(base, d), k),
{
}

/// Overlaying an empty layer changes nothing.
pub proof fn lemma_overlay_empty(base: Contents)
    ensures
        overlay(base, Map::empty()) == base,
{
    assert(overlay(base, Map::empty()) =~= base);
}

/// Placing two layers one after the other is placing their merge.
pub proof fn lemma_overlay_merge(base: Contents, a: Delta, b: Delta)
    ensures
        overlay(overlay(base, a), b) == overlay(base, merge(a, b)),
{
    assert(overlay(overlay(base, a), b) =~= overlay(base, merge(a, b)));
}

/// Placing a sequence of layers one after the other is placing their merge.
pub proof fn lemma_overlay_all_is_merge_all(base: Contents, ds: Seq<Delta>)
    ensures
        overlay_all(base, ds) == overlay(base, merge_all(ds)),
    decreases ds.len(),
{
    if ds.len() == 0 {
        lemma_overlay_empty(base);
    } else {
        lemma_overlay_all_is_merge_all(base, ds.drop_last());
        lemma_overlay_merge(base, merge_all(ds.drop_last()), ds.last());
    }
}

/// Squashing layers is associative.
pub proof fn lemma_merge_assoc(a: Delta, b: Delta, c: Delta)
    ensures
        merge(merge(a, b), c) == merge(a, merge(b, c)),
{
    assert(merge(merge(a, b), c) =~= merge(a, merge(b, c)));
}

/// Squashing a sequence of layers, split after its first layer.
pub proof fn lemma_merge_all_first(ds: Seq<Delta>)
    requires
        ds.len() > 0,
    ensures
        merge_all(ds) == merge(ds[0], merge_all(ds.drop_first())),
    decreases ds.len(),
{
    if ds.len() == 1 {
        assert(ds.drop_first() =~= Seq::<Delta>::empty());
        assert(ds.drop_last() =~= Seq::<Delta>::empty());
        assert(merge(Map::empty(), ds[0]) =~= ds[0]);
        assert(merge(ds[0], Map::empty()) =~= ds[0]);
    } else {
        lemma_merge_all_first(ds.drop_last());
        assert(ds.drop_last().drop_first() =~= ds.drop_first().drop_last());
        assert(ds.drop_first().last() == ds.last());
        lemma_merge_assoc(ds[0], merge_all(ds.drop_first().drop_last()), ds.last());
    }
}

/// Placing layers one after the other, split after the first layer.
pub proof fn lemma_overlay_all_first(base: Contents, ds: Seq<Delta>)
    requires
        ds.len() > 0,
    ensures
        overlay_all(base, ds) == overlay_all(overlay(base, ds[0]), ds.drop_first()),
{
    lemma_overlay_all_is_merge_all(base, ds);
    lemma_overlay_all_is_merge_all(overlay(base, ds[0]), ds.drop_first());
    lemma_merge_all_first(ds);
    lemma_overlay_merge(base, ds[0], merge_all(ds.drop_first()));
}

} // verus!
