use crate::cache::Cache;
use crate::crud::CRUDState;
use crate::model::{bytes_opt, entry_key, layered_lookup, lookup, overlay, Contents, Delta, EntryKey};
use vstd::prelude::*;

verus! {

/// A view of a state that reads its own writes first, then a layer of accumulated
/// pending writes, then the confirmed state. Every write lands in the view's own layer
/// (`delta`); the layers underneath are never touched.
pub struct CachingState<'a, S: CRUDState> {
    confirmed_state: &'a S,
    accumulated_cache: &'a Cache,
    delta: Cache,
    accessed: Ghost<Set<EntryKey>>,
}

impl<'a, S: CRUDState> CachingState<'a, S> {
    #[verifier::type_invariant]
    spec fn inv(&self) -> bool {
        &&& self.accumulated_cache.wf()
        &&& self.delta.wf()
        &&& forall|k: EntryKey| #[trigger] self.delta@.contains_key(k) ==> self.accessed@.contains(k)
    }

    /// The writes made through this view so far.
    pub closed spec fn written(&self) -> Delta {
        self.delta@
    }

    /// What reads observe is the view's own writes placed on the layers underneath.
    pub proof fn lemma_contents(&self)
        ensures
            self.contents() == overlay(self.frame(), self.written()),
    {
    }

    /// A view over `confirmed_state` and `accumulated_cache` that has written nothing.
    pub fn new(confirmed_state: &'a S, accumulated_cache: &'a Cache) -> (c: Self)
        requires
            accumulated_cache.wf(),
        ensures
            c.frame() == overlay(confirmed_state.contents(), accumulated_cache@),
            c.written() == Map::<(Seq<u8>, Seq<u8>), Option<Seq<u8>>>::empty(),
            c.accessed() == Set::<EntryKey>::empty(),
    {
        CachingState { confirmed_state, accumulated_cache, delta: Cache::new(), accessed: Ghost(Set::empty()) }
    }

    /// Ends the view, handing back the writes made through it.
    pub fn into_delta(self) -> (d: Cache)
        ensures
            d.wf(),
            d@ == self.written(),
            forall|k: EntryKey| #[trigger] d@.contains_key(k) ==> self.accessed().contains(k),
    {
        proof {
            use_type_invariant(&self);
        }
        self.delta
    }

    fn read_raw(&self, column: &str, key: &[u8]) -> (r: Option<Vec<u8>>)
        ensures
            bytes_opt(r) == lookup(self.contents(), entry_key(column, key@)),
    {
        proof {
            use_type_invariant(self);
            let k = entry_key(column, key@);
            crate::model::lemma_layered_lookup(self.confirmed_state.contents(), self.accumulated_cache@, k);
            crate::model::lemma_layered_lookup(self.frame(), self.delta@, k);
        }
        if let Some(v) = self.delta.get(column, key) {
            return v;
        }
        if let Some(v) = self.accumulated_cache.get(column, key) {
            return v;
        }
        self.confirmed_state.peek(column, key)
    }

    fn write(&mut self, column: &str, key: &[u8], value: Option<&[u8]>)
        ensures
            final(self).frame() == old(self).frame(),
            final(self).accessed() == old(self).accessed().insert(entry_key(column, key@)),
            final(self).written() == old(self).written().insert(
                entry_key(column, key@),
                match value {
                    Some(v) => Some(v@),
                    None => None,
                },
            ),
    {
        proof {
            use_type_invariant(&*self);
        }
        let mut delta = Cache::new();
        std::mem::swap(&mut delta, &mut self.delta);
        delta.write(column, key, value);
        self.accessed = Ghost(self.accessed@.insert(entry_key(column, key@)));
        self.delta = delta;
    }
}

impl<'a, S: CRUDState> CRUDState for CachingState<'a, S> {
    type Frame = Contents;

    closed spec fn contents(&self) -> Contents {
        overlay(overlay(self.confirmed_state.contents(), self.accumulated_cache@), self.delta@)
    }

    closed spec fn frame(&self) -> Contents {
        overlay(self.confirmed_state.contents(), self.accumulated_cache@)
    }

    closed spec fn accessed(&self) -> Set<EntryKey> {
        self.accessed@
    }

    fn peek(&self, column: &str, key: &[u8]) -> (r: Option<Vec<u8>>) {
        self.read_raw(column, key)
    }

    /// Reads the value; the view's own layer is unchanged.
    fn read(&mut self, column: &str, key: &[u8]) -> (r: Option<Vec<u8>>)
        ensures
            final(self).written() == old(self).written(),
    {
        proof {
            use_type_invariant(&*self);
        }
        let r = self.read_raw(column, key);
        self.accessed = Ghost(self.accessed@.insert(entry_key(column, key@)));
        r
    }

    /// Creates the value in the view's own layer when the key holds nothing (a deletion
    /// counts as nothing); otherwise the layer is unchanged.
    fn create(&mut self, column: &str, key: &[u8], value: &[u8]) -> (created: bool)
        ensures
            final(self).written() == (if created {
                old(self).written().insert(entry_key(column, key@), Some(value@))
            } else {
                old(self).written()
            }),
    {
        proof {
            use_type_invariant(&*self);
        }
        // A key must hold nothing to be created; a deletion counts as nothing.
        if self.read_raw(column, key).is_some() {
            self.accessed = Ghost(self.accessed@.insert(entry_key(column, key@)));
            return false;
        }
        self.write(column, key, Some(value));
        assert(self.contents() =~= old(self).contents().insert(entry_key(column, key@), value@));
        true
    }

    /// Stores the value in the view's own layer.
    fn update(&mut self, column: &str, key: &[u8], value: &[u8]) -> (previous: Option<Vec<u8>>)
        ensures
            final(self).written() == old(self).written().insert(entry_key(column, key@), Some(value@)),
    {
        let previous = self.read_raw(column, key);
        self.write(column, key, Some(value));
        assert(self.contents() =~= old(self).contents().insert(entry_key(column, key@), value@));
        previous
    }

    /// Leaves a tombstone for the key in the view's own layer.
    fn delete(&mut self, column: &str, key: &[u8]) -> (previous: Option<Vec<u8>>)
        ensures
            final(self).written() == old(self).written().insert(entry_key(column, key@), None),
    {
        let previous = self.read_raw(column, key);
        // A tombstone, so later reads through this view see the key as deleted.
        self.write(column, key, None);
        assert(self.contents() =~= old(self).contents().remove(entry_key(column, key@)));
        previous
    }
}

} // verus!
