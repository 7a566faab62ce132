use crate::cache::{copy_opt_bytes, Cache, CacheEntry};
use crate::model::{bytes_opt, entry_key, lookup, merge, overlay, Contents, EntryKey};
use vstd::prelude::*;

verus! {

/// A state made of columns of byte keys mapped to byte values, accessed through
/// create / read / update / delete.
///
/// `contents` is what reads observe. `frame` is the part of the state that these
/// operations never change (for a layered view, the layers underneath it).
pub trait CRUDState {
    type Frame;

    /// What reads observe, for every column and key.
    spec fn contents(&self) -> Contents;

    /// The part of the state that CRUD operations leave untouched.
    spec fn frame(&self) -> Self::Frame;

    /// The keys read or written through `read`, `create`, `update` and `delete` so far.
    spec fn accessed(&self) -> Set<EntryKey>;

    /// Looks a value up without recording anything.
    fn peek(&self, column: &str, key: &[u8]) -> (r: Option<Vec<u8>>)
        ensures
            bytes_opt(r) == lookup(self.contents(), entry_key(column, key@)),
    ;

    /// Reads the value stored at `column`/`key`.
    fn read(&mut self, column: &str, key: &[u8]) -> (r: Option<Vec<u8>>)
        ensures
            bytes_opt(r) == lookup(old(self).contents(), entry_key(column, key@)),
            final(self).contents() == old(self).contents(),
            final(self).frame() == old(self).frame(),
            final(self).accessed() == old(self).accessed().insert(entry_key(column, key@)),
    ;

    /// Stores `value` at a key that holds nothing yet; returns whether it did.
    fn create(&mut self, column: &str, key: &[u8], value: &[u8]) -> (created: bool)
        ensures
            created == !old(self).contents().contains_key(entry_key(column, key@)),
            final(self).contents() == (if created {
                old(self).contents().insert(entry_key(column, key@), value@)
            } else {
                old(self).contents()
            }),
            final(self).frame() == old(self).frame(),
            final(self).accessed() == old(self).accessed().insert(entry_key(column, key@)),
    ;

    /// Stores `value` at `column`/`key`; returns the value it replaced.
    fn update(&mut self, column: &str, key: &[u8], value: &[u8]) -> (previous: Option<Vec<u8>>)
        ensures
            bytes_opt(previous) == lookup(old(self).contents(), entry_key(column, key@)),
            final(self).contents() == old(self).contents().insert(entry_key(column, key@), value@),
            final(self).frame() == old(self).frame(),
            final(self).accessed() == old(self).accessed().insert(entry_key(column, key@)),
    ;

    /// Removes the value at `column`/`key`; returns the value it removed.
    fn delete(&mut self, column: &str, key: &[u8]) -> (previous: Option<Vec<u8>>)
        ensures
            bytes_opt(previous) == lookup(old(self).contents(), entry_key(column, key@)),
            final(self).contents() == old(self).contents().remove(entry_key(column, key@)),
            final(self).frame() == old(self).frame(),
            final(self).accessed() == old(self).accessed().insert(entry_key(column, key@)),
    ;
}

/// Applies a layer of writes to a real state: a write becomes an `update`, a deletion a
/// `delete`.
pub fn apply_delta_to_state<S: CRUDState>(state: &mut S, delta: &Cache)
    requires
        delta.wf(),
    ensures
        final(state).contents() == overlay(old(state).contents(), delta@),
        final(state).frame() == old(state).frame(),
{
    proof {
        delta.lemma_view_is_entries();
    }
    let mut i: usize = 0;
    while i < delta.len()
        invariant
            delta.wf(),
            delta@ == crate::cache::entries_delta(delta.entry_seq()),
            0 <= i <= delta.entry_seq().len(),
            state.contents() == overlay(
                old(state).contents(),
                crate::cache::entries_delta(delta.entry_seq().subrange(0, i as int)),
            ),
            state.frame() == old(state).frame(),
        decreases delta.entry_seq().len() - i,
    {
        let e = delta.entry_at(i);
        let ghost before = state.contents();
        match &e.value {
            Some(v) => {
                state.update(e.column.as_str(), e.key.as_slice(), v.as_slice());
            },
            None => {
                state.delete(e.column.as_str(), e.key.as_slice());
            },
        }
        proof {
            let s = delta.entry_seq();
            assert(s.subrange(0, i + 1).drop_last() =~= s.subrange(0, i as int));
            assert(s.subrange(0, i + 1).last() == s[i as int]);
            assert(state.contents() =~= overlay(
                old(state).contents(),
                crate::cache::entries_delta(s.subrange(0, i + 1)),
            ));
        }
        i = i + 1;
    }
    proof {
        assert(delta.entry_seq().subrange(0, delta.entry_seq().len() as int)
            =~= delta.entry_seq());
    }
}

/// An in-memory CRUD state: every stored value is a write in a layer placed on top of
/// nothing.
pub struct KvState {
    store: Cache,
    accessed: Ghost<Set<EntryKey>>,
}

impl KvState {
    /// The state's invariant: its store never holds two entries for one key.
    #[verifier::type_invariant]
    spec fn wf(&self) -> bool {
        self.store.wf()
    }

    /// An empty state.
    pub fn new() -> (s: KvState)
        ensures
            s.contents() == Map::<EntryKey, Seq<u8>>::empty(),
    {
        let s = KvState { store: Cache::new(), accessed: Ghost(Set::empty()) };
        assert(overlay(Map::empty(), s.store@) =~= Map::<EntryKey, Seq<u8>>::empty());
        s
    }

    /// A copy of this state.
    pub fn duplicate(&self) -> (c: KvState)
        ensures
            c.contents() == self.contents(),
    {
        proof {
            use_type_invariant(self);
        }
        KvState { store: self.store.duplicate(), accessed: Ghost(self.accessed@) }
    }

    fn write(&mut self, column: &str, key: &[u8], value: Option<&[u8]>)
        ensures
            final(self).accessed() == old(self).accessed().insert(entry_key(column, key@)),
            final(self).contents() == (match value {
                Some(v) => old(self).contents().insert(entry_key(column, key@), v@),
                None => old(self).contents().remove(entry_key(column, key@)),
            }),
    {
        proof {
            use_type_invariant(&*self);
        }
        let mut store = Cache::new();
        std::mem::swap(&mut store, &mut self.store);
        store.write(column, key, value);
        self.store = store;
        self.accessed = Ghost(self.accessed@.insert(entry_key(column, key@)));
        assert(self.contents() =~= (match value {
            Some(v) => old(self).contents().insert(entry_key(column, key@), v@),
            None => old(self).contents().remove(entry_key(column, key@)),
        }));
    }
}

impl CRUDState for KvState {
    type Frame = ();

    closed spec fn contents(&self) -> Contents {
        overlay(Map::empty(), self.store@)
    }

    closed spec fn frame(&self) -> () {
        ()
    }

    closed spec fn accessed(&self) -> Set<EntryKey> {
        self.accessed@
    }

    fn peek(&self, column: &str, key: &[u8]) -> (r: Option<Vec<u8>>) {
        proof {
            use_type_invariant(self);
        }
        match self.store.get(column, key) {
            Some(v) => v,
            None => None,
        }
    }

    fn read(&mut self, column: &str, key: &[u8]) -> (r: Option<Vec<u8>>) {
        proof {
            use_type_invariant(&*self);
        }
        let r = self.peek(column, key);
        self.accessed = Ghost(self.accessed@.insert(entry_key(column, key@)));
        r
    }

    fn create(&mut self, column: &str, key: &[u8], value: &[u8]) -> (created: bool) {
        proof {
            use_type_invariant(&*self);
        }
        if self.peek(column, key).is_some() {
            self.accessed = Ghost(self.accessed@.insert(entry_key(column, key@)));
            return false;
        }
        self.write(column, key, Some(value));
        true
    }

    fn update(&mut self, column: &str, key: &[u8], value: &[u8]) -> (previous: Option<Vec<u8>>) {
        proof {
            use_type_invariant(&*self);
        }
        let previous = self.peek(column, key);
        self.write(column, key, Some(value));
        previous
    }

    fn delete(&mut self, column: &str, key: &[u8]) -> (previous: Option<Vec<u8>>) {
        proof {
            use_type_invariant(&*self);
        }
        let previous = self.peek(column, key);
        self.write(column, key, None);
        previous
    }
}

} // verus!

verus! {

impl Clone for KvState {
    fn clone(&self) -> (c: Self)
        ensures
            c.contents() == self.contents(),
    {
        self.duplicate()
    }
}

impl View for KvState {
    type V = Contents;

    open spec fn view(&self) -> Contents {
        self.contents()
    }
}

} // verus!
