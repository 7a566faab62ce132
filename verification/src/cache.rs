use crate::model::{bytes_opt, entry_key, merge, Delta, EntryKey};
use vstd::prelude::*;

verus! {

/// Byte-wise equality of two byte slices.
pub fn bytes_equal(a: &[u8], b: &[u8]) -> (eq: bool)
    ensures
        eq == (a@ == b@),
{
    if a.len() != b.len() {
        return false;
    }
    let mut i: usize = 0;
    while i < a.len()
        invariant
            a@.len() == b@.len(),
            0 <= i <= a@.len(),
            forall|j: int| 0 <= j < i ==> a@[j] == b@[j],
        decreases a@.len() - i,
    {
        if a[i] != b[i] {
            return false;
        }
        i = i + 1;
    }
    assert(a@ =~= b@);
    true
}

/// A copy of a byte slice.
pub fn copy_bytes(a: &[u8]) -> (v: Vec<u8>)
    ensures
        v@ == a@,
{
    let mut v: Vec<u8> = Vec::with_capacity(a.len());
    let mut i: usize = 0;
    while i < a.len()
        invariant
            0 <= i <= a@.len(),
            v@ == a@.subrange(0, i as int),
        decreases a@.len() - i,
    {
        v.push(a[i]);
        i = i + 1;
        assert(v@ =~= a@.subrange(0, i as int));
    }
    assert(a@.subrange(0, a@.len() as int) =~= a@);
    v
}

/// A copy of an optional byte vector.
pub fn copy_opt_bytes(o: &Option<Vec<u8>>) -> (c: Option<Vec<u8>>)
    ensures
        bytes_opt(c) == bytes_opt(*o),
{
    match o {
        Some(v) => Some(copy_bytes(v.as_slice())),
        None => None,
    }
}

/// One pending write: the value written to `key` in `column`, or `None` for a deletion.
#[derive(Clone, Debug)]
pub struct CacheEntry {
    pub column: String,
    pub key: Vec<u8>,
    pub value: Option<Vec<u8>>,
}

impl CacheEntry {
    /// The abstract key this entry writes.
    pub open spec fn entry_key(&self) -> EntryKey {
        (vstd::utf8::encode_utf8(self.column@), self.key@)
    }

    /// The abstract value this entry writes.
    pub open spec fn entry_value(&self) -> Option<Seq<u8>> {
        bytes_opt(self.value)
    }

    /// A copy of this entry.
    pub fn duplicate(&self) -> (e: CacheEntry)
        ensures
            e.entry_key() == self.entry_key(),
            e.entry_value() == self.entry_value(),
    {
        CacheEntry {
            column: self.column.clone(),
            key: copy_bytes(self.key.as_slice()),
            value: copy_opt_bytes(&self.value),
        }
    }
}

/// The layer of writes that a sequence of entries describes, later entries winning.
pub open spec fn entries_delta(s: Seq<CacheEntry>) -> Delta
    decreases s.len(),
{
    if s.len() == 0 {
        Map::empty()
    } else {
        entries_delta(s.drop_last()).insert(s.last().entry_key(), s.last().entry_value())
    }
}

/// No two entries write the same key.
pub open spec fn distinct_keys(s: Seq<CacheEntry>) -> bool {
    forall|i: int, j: int|
        0 <= i < s.len() && 0 <= j < s.len() && i != j ==> s[i].entry_key() != s[j].entry_key()
}

/// A key is written by the layer exactly when some entry writes it.
pub proof fn lemma_entries_delta_contains(s: Seq<CacheEntry>, k: EntryKey)
    ensures
        entries_delta(s).contains_key(k) <==> exists|i: int|
            0 <= i < s.len() && s[i].entry_key() == k,
    decreases s.len(),
{
    if s.len() > 0 {
        lemma_entries_delta_contains(s.drop_last(), k);
        if entries_delta(s.drop_last()).contains_key(k) {
            let i = choose|i: int| 0 <= i < s.len() - 1 && s.drop_last()[i].entry_key() == k;
            assert(s[i].entry_key() == k);
        }
        if exists|i: int| 0 <= i < s.len() && s[i].entry_key() == k {
            let i = choose|i: int| 0 <= i < s.len() && s[i].entry_key() == k;
            if i < s.len() - 1 {
                assert(s.drop_last()[i].entry_key() == k);
            }
        }
    }
}

/// With distinct keys, the layer maps each entry's key to that entry's value.
pub proof fn lemma_entries_delta_index(s: Seq<CacheEntry>, i: int)
    requires
        distinct_keys(s),
        0 <= i < s.len(),
    ensures
        entries_delta(s).contains_key(s[i].entry_key()),
        entries_delta(s)[s[i].entry_key()] == s[i].entry_value(),
    decreases s.len(),
{
    if i < s.len() - 1 {
        assert(distinct_keys(s.drop_last()));
        lemma_entries_delta_index(s.drop_last(), i);
        assert(s.drop_last()[i] == s[i]);
    }
}

/// Replacing an entry by one that writes the same key updates that key's value.
pub proof fn lemma_entries_delta_update(s: Seq<CacheEntry>, i: int, e: CacheEntry)
    requires
        distinct_keys(s),
        0 <= i < s.len(),
        e.entry_key() == s[i].entry_key(),
    ensures
        distinct_keys(s.update(i, e)),
        entries_delta(s.update(i, e)) == entries_delta(s).insert(e.entry_key(), e.entry_value()),
    decreases s.len(),
{
    let t = s.update(i, e);
    assert forall|a: int, b: int|
        0 <= a < t.len() && 0 <= b < t.len() && a != b implies t[a].entry_key()
        != t[b].entry_key() by {
        assert(s[a].entry_key() == t[a].entry_key());
        assert(s[b].entry_key() == t[b].entry_key());
    }
    if i == s.len() - 1 {
        assert(t.drop_last() =~= s.drop_last());
        assert(entries_delta(t) =~= entries_delta(s).insert(e.entry_key(), e.entry_value()));
    } else {
        assert(distinct_keys(s.drop_last()));
        lemma_entries_delta_update(s.drop_last(), i, e);
        assert(t.drop_last() =~= s.drop_last().update(i, e));
        assert(t.last() == s.last());
        assert(s.last().entry_key() != e.entry_key());
        assert(entries_delta(t) =~= entries_delta(s).insert(e.entry_key(), e.entry_value()));
    }
}

/// A layer of pending writes, keyed by (column, key); the replacement for a nested
/// column → key → value hash map. Entries never share a key.
#[derive(Clone, Debug)]
pub struct Cache {
    entries: Vec<CacheEntry>,
}

impl View for Cache {
    type V = Delta;

    closed spec fn view(&self) -> Delta {
        entries_delta(self.entries@)
    }
}

impl Cache {
    /// Entries never share a key.
    pub closed spec fn wf(&self) -> bool {
        distinct_keys(self.entries@)
    }

    /// The entries of this layer, in storage order.
    pub closed spec fn entry_seq(&self) -> Seq<CacheEntry> {
        self.entries@
    }

    /// The layer is exactly its entries.
    pub proof fn lemma_view_is_entries(&self)
        ensures
            self@ == entries_delta(self.entry_seq()),
            self.wf() == distinct_keys(self.entry_seq()),
    {
    }

    /// An empty layer.
    pub fn new() -> (c: Cache)
        ensures
            c.wf(),
            c@ == Map::<EntryKey, Option<Seq<u8>>>::empty(),
            c.entry_seq().len() == 0,
    {
        Cache { entries: Vec::new() }
    }

    /// The number of keys this layer writes.
    pub fn len(&self) -> (n: usize)
        ensures
            n == self.entry_seq().len(),
    {
        self.entries.len()
    }

    /// Whether this layer writes nothing.
    pub fn is_empty(&self) -> (b: bool)
        requires
            self.wf(),
        ensures
            b == (self@.dom().len() == 0),
            b == (self@ == Map::<EntryKey, Option<Seq<u8>>>::empty()),
    {
        proof {
            self.lemma_dom_len();
        }
        if self.entries.len() == 0 {
            assert(self@ =~= Map::<EntryKey, Option<Seq<u8>>>::empty());
            true
        } else {
            proof {
                lemma_entries_delta_index(self.entries@, 0);
                assert(self@.contains_key(self.entries@[0].entry_key()));
            }
            false
        }
    }

    /// The layer's domain is finite and has one key per entry.
    pub proof fn lemma_dom_len(&self)
        requires
            self.wf(),
        ensures
            self@.dom().finite(),
            self@.dom().len() == self.entry_seq().len(),
    {
        lemma_distinct_entries_dom_len(self.entries@);
    }

    /// Index of the entry writing `column`/`key`, if any.
    fn position(&self, column: &str, key: &[u8]) -> (r: Option<usize>)
        requires
            self.wf(),
        ensures
            match r {
                Some(i) => i < self.entries@.len() && self.entries@[i as int].entry_key()
                    == entry_key(column, key@),
                None => !self@.contains_key(entry_key(column, key@)),
            },
    {
        let mut i: usize = 0;
        while i < self.entries.len()
            invariant
                0 <= i <= self.entries@.len(),
                forall|j: int|
                    0 <= j < i ==> self.entries@[j].entry_key() != entry_key(column, key@),
            decreases self.entries@.len() - i,
        {
            let e = &self.entries[i];
            let same_column = bytes_equal(e.column.as_str().as_bytes(), column.as_bytes());
            if same_column && bytes_equal(e.key.as_slice(), key) {
                return Some(i);
            }
            i = i + 1;
        }
        proof {
            lemma_entries_delta_contains(self.entries@, entry_key(column, key@));
        }
        None
    }

    /// What this layer holds for `column`/`key`: `None` when it writes nothing there,
    /// `Some(None)` for a deletion, `Some(Some(v))` for a write of `v`.
    pub fn get(&self, column: &str, key: &[u8]) -> (r: Option<Option<Vec<u8>>>)
        requires
            self.wf(),
        ensures
            match r {
                None => !self@.contains_key(entry_key(column, key@)),
                Some(v) => self@.contains_key(entry_key(column, key@)) && self@[entry_key(
                    column,
                    key@,
                )] == bytes_opt(v),
            },
    {
        match self.position(column, key) {
            Some(i) => {
                proof {
                    lemma_entries_delta_index(self.entries@, i as int);
                }
                Some(copy_opt_bytes(&self.entries[i].value))
            },
            None => None,
        }
    }

    /// Records `entry`, replacing whatever this layer held for its key.
    pub fn put(&mut self, entry: CacheEntry)
        requires
            old(self).wf(),
        ensures
            final(self).wf(),
            final(self)@ == old(self)@.insert(entry.entry_key(), entry.entry_value()),
    {
        let ghost k = entry.entry_key();
        let pos = self.position(entry.column.as_str(), entry.key.as_slice());
        match pos {
            Some(i) => {
                proof {
                    lemma_entries_delta_update(self.entries@, i as int, entry);
                }
                self.entries.set(i, entry);
            },
            None => {
                proof {
                    lemma_entries_delta_contains(self.entries@, k);
                }
                self.entries.push(entry);
                proof {
                    let s = self.entries@;
                    assert(s.drop_last() =~= old(self).entries@);
                    assert forall|a: int, b: int|
                        0 <= a < s.len() && 0 <= b < s.len() && a != b implies s[a].entry_key()
                        != s[b].entry_key() by {
                        if a == s.len() - 1 {
                            assert(old(self).entries@[b] == s[b]);
                        } else if b == s.len() - 1 {
                            assert(old(self).entries@[a] == s[a]);
                        }
                    }
                }
            },
        }
    }

    /// Records a write of `value` (or a deletion for `None`) at `column`/`key`.
    pub fn write(&mut self, column: &str, key: &[u8], value: Option<&[u8]>)
        requires
            old(self).wf(),
        ensures
            final(self).wf(),
            final(self)@ == old(self)@.insert(
                entry_key(column, key@),
                match value {
                    Some(v) => Some(v@),
                    None => None,
                },
            ),
    {
        let v = match value {
            Some(v) => Some(copy_bytes(v)),
            None => None,
        };
        let entry = CacheEntry { column: column.to_owned(), key: copy_bytes(key), value: v };
        self.put(entry);
    }

    /// The `i`-th entry of this layer.
    pub fn entry_at(&self, i: usize) -> (e: &CacheEntry)
        requires
            i < self.entry_seq().len(),
        ensures
            *e == self.entry_seq()[i as int],
    {
        &self.entries[i]
    }

    /// A copy of this layer.
    pub fn duplicate(&self) -> (c: Cache)
        requires
            self.wf(),
        ensures
            c.wf(),
            c@ == self@,
    {
        let mut c = Cache::new();
        merge_delta_into(&mut c, self);
        assert(merge(Map::empty(), self@) =~= self@);
        c
    }
}

/// A sequence of entries with distinct keys writes exactly as many keys as it has entries.
pub proof fn lemma_distinct_entries_dom_len(s: Seq<CacheEntry>)
    requires
        distinct_keys(s),
    ensures
        entries_delta(s).dom().finite(),
        entries_delta(s).dom().len() == s.len(),
    decreases s.len(),
{
    if s.len() > 0 {
        assert(distinct_keys(s.drop_last()));
        lemma_distinct_entries_dom_len(s.drop_last());
        lemma_entries_delta_contains(s.drop_last(), s.last().entry_key());
        if entries_delta(s.drop_last()).contains_key(s.last().entry_key()) {
            let i = choose|i: int|
                0 <= i < s.len() - 1 && s.drop_last()[i].entry_key() == s.last().entry_key();
            assert(s[i].entry_key() == s[s.len() - 1].entry_key());
        }
    }
}

/// Merges every write of `src` into `dst`; `src` wins on a shared key.
pub fn merge_delta_into(dst: &mut Cache, src: &Cache)
    requires
        old(dst).wf(),
        src.wf(),
    ensures
        final(dst).wf(),
        final(dst)@ == merge(old(dst)@, src@),
{
    let mut i: usize = 0;
    while i < src.len()
        invariant
            src.wf(),
            dst.wf(),
            0 <= i <= src.entry_seq().len(),
            dst@ == merge(old(dst)@, entries_delta(src.entry_seq().subrange(0, i as int))),
        decreases src.entry_seq().len() - i,
    {
        let e = src.entry_at(i).duplicate();
        dst.put(e);
        proof {
            let s = src.entry_seq();
            assert(s.subrange(0, i + 1).drop_last() =~= s.subrange(0, i as int));
            assert(s.subrange(0, i + 1).last() == s[i as int]);
            assert(dst@ =~= merge(old(dst)@, entries_delta(s.subrange(0, i + 1))));
        }
        i = i + 1;
    }
    proof {
        assert(src.entry_seq().subrange(0, src.entry_seq().len() as int) =~= src.entry_seq());
    }
}

} // verus!
