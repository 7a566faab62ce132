use crate::cache::{bytes_equal, copy_bytes, Cache};
use crate::crud::CRUDState;
use crate::model::{bytes_opt, entry_key, lookup, overlay, Contents, Delta, EntryKey};
use std::collections::BTreeSet;
use vstd::prelude::*;

verus! {

/// The kind of an access to a stored value.
#[derive(Clone, Copy, Debug, PartialEq, Eq, Structural)]
pub enum AccessType {
    Read,
    Write,
    Delete,
}

impl AccessType {
    /// Whether this access changes the stored value.
    pub open spec fn modifies(self) -> bool {
        self != AccessType::Read
    }

    /// Two accesses to one key conflict unless both only read.
    pub fn is_collision(&self, other: &AccessType) -> (r: bool)
        ensures
            r == conflicts(*self, *other),
    {
        match (self, other) {
            (AccessType::Read, AccessType::Read) => false,
            _ => true,
        }
    }
}

/// Two accesses to one key conflict unless both only read.
pub open spec fn conflicts(a: AccessType, b: AccessType) -> bool {
    a.modifies() || b.modifies()
}

/// One recorded access: the column and key it touched and how.
#[derive(Debug)]
pub struct Access {
    pub column: String,
    pub key: Vec<u8>,
    pub access_type: AccessType,
}

impl Access {
    /// The abstract key this access touched.
    pub open spec fn entry_key(&self) -> EntryKey {
        (vstd::utf8::encode_utf8(self.column@), self.key@)
    }

    /// An access of kind `access_type` to `key` in `column`.
    pub fn new(column: &str, key: Vec<u8>, access_type: AccessType) -> (a: Access)
        ensures
            a.entry_key() == entry_key(column, key@),
            a.access_type == access_type,
    {
        Access { column: column.to_owned(), key, access_type }
    }

    /// The column this access touched.
    pub fn column(&self) -> (c: &String)
        ensures
            *c == self.column,
    {
        &self.column
    }

    /// The key this access touched.
    pub fn key(&self) -> (k: &Vec<u8>)
        ensures
            *k == self.key,
    {
        &self.key
    }

    /// How the value was accessed.
    pub fn access_type(&self) -> (t: AccessType)
        ensures
            t == self.access_type,
    {
        self.access_type
    }
}

/// The abstract form of a sequence of accesses: each access's key and kind.
pub open spec fn access_views(s: Seq<Access>) -> Seq<(EntryKey, AccessType)> {
    s.map_values(|a: Access| (a.entry_key(), a.access_type))
}

/// Every key written in `written` has a recorded access in `log` that modifies it.
pub open spec fn covers_writes(log: Seq<(EntryKey, AccessType)>, written: Delta) -> bool {
    forall|k: EntryKey|
        #[trigger] written.contains_key(k) ==> exists|i: int|
            0 <= i < log.len() && (#[trigger] log[i]).0 == k && log[i].1.modifies()
}

/// The keys that the accesses of `log` touched.
pub open spec fn log_keys(log: Seq<(EntryKey, AccessType)>) -> Set<EntryKey> {
    Set::new(|k: EntryKey| exists|i: int| 0 <= i < log.len() && (#[trigger] log[i]).0 == k)
}

/// Recording one more access adds its key to the keys touched.
pub proof fn lemma_log_keys_push(log: Seq<(EntryKey, AccessType)>, a: (EntryKey, AccessType))
    ensures
        log_keys(log.push(a)) == log_keys(log).insert(a.0),
{
    let l = log.push(a);
    assert forall|k: EntryKey| log_keys(l).contains(k) implies log_keys(log).insert(a.0).contains(k) by {
        let i = choose|i: int| 0 <= i < l.len() && (#[trigger] l[i]).0 == k;
        if i < log.len() {
            assert(log[i] == l[i]);
        }
    }
    assert forall|k: EntryKey| log_keys(log).insert(a.0).contains(k) implies log_keys(l).contains(k) by {
        if k == a.0 {
            assert(l[log.len() as int] == a);
        } else {
            let i = choose|i: int| 0 <= i < log.len() && (#[trigger] log[i]).0 == k;
            assert(l[i] == log[i]);
        }
    }
    assert(log_keys(l) =~= log_keys(log).insert(a.0));
}

/// A view of a state for executing one request of a batch in isolation.
///
/// Reads its own writes first, then the accumulated cache, then the confirmed state. Every
/// read, write and deletion through `read`, `create`, `update` and `delete` is recorded as
/// an access, so that requests of one batch that touched a common key can be detected.
/// Writes go into the unit's own layer; the layers underneath are never touched.
pub struct ParallelExecutionUnit<'a, S: CRUDState> {
    confirmed_state: &'a S,
    accumulated_cache: &'a Cache,
    local_cache: Cache,
    accesses: Vec<Access>,
}

impl<'a, S: CRUDState> ParallelExecutionUnit<'a, S> {
    #[verifier::type_invariant]
    spec fn inv(&self) -> bool {
        &&& self.accumulated_cache.wf()
        &&& self.local_cache.wf()
        &&& covers_writes(access_views(self.accesses@), self.local_cache@)
    }

    /// The writes made through this unit so far.
    pub closed spec fn written(&self) -> Delta {
        self.local_cache@
    }

    /// The accesses recorded so far, oldest first.
    pub closed spec fn log(&self) -> Seq<(EntryKey, AccessType)> {
        access_views(self.accesses@)
    }

    /// What reads observe is the unit's own writes placed on the layers underneath.
    pub proof fn lemma_contents(&self)
        ensures
            self.contents() == overlay(self.frame(), self.written()),
    {
    }

    /// A unit over `confirmed_state` and `accumulated_cache` that has done nothing yet.
    pub fn new(confirmed_state: &'a S, accumulated_cache: &'a Cache) -> (u: Self)
        requires
            accumulated_cache.wf(),
        ensures
            u.frame() == overlay(confirmed_state.contents(), accumulated_cache@),
            u.written() == Map::<EntryKey, Option<Seq<u8>>>::empty(),
            u.log() == Seq::<(EntryKey, AccessType)>::empty(),
    {
        let u = ParallelExecutionUnit {
            confirmed_state,
            accumulated_cache,
            local_cache: Cache::new(),
            accesses: Vec::new(),
        };
        assert(u.log() =~= Seq::<(EntryKey, AccessType)>::empty());
        u
    }

    /// Ends the unit, handing back its access log and the writes made through it.
    pub fn complete(self) -> (r: (Vec<Access>, Cache))
        ensures
            access_views(r.0@) == self.log(),
            r.1.wf(),
            r.1@ == self.written(),
            covers_writes(access_views(r.0@), r.1@),
    {
        proof {
            use_type_invariant(&self);
        }
        (self.accesses, self.local_cache)
    }

    /// Three-tier read that records nothing.
    fn read_raw(&self, column: &str, key: &[u8]) -> (r: Option<Vec<u8>>)
        ensures
            bytes_opt(r) == lookup(self.contents(), entry_key(column, key@)),
    {
        proof {
            use_type_invariant(self);
            let k = entry_key(column, key@);
            crate::model::lemma_layered_lookup(self.confirmed_state.contents(), self.accumulated_cache@, k);
            crate::model::lemma_layered_lookup(self.frame(), self.local_cache@, k);
        }
        if let Some(v) = self.local_cache.get(column, key) {
            return v;
        }
        if let Some(v) = self.accumulated_cache.get(column, key) {
            return v;
        }
        self.confirmed_state.peek(column, key)
    }

    fn record(&mut self, column: &str, key: &[u8], access_type: AccessType)
        ensures
            final(self).log() == old(self).log().push((entry_key(column, key@), access_type)),
            final(self).accessed() == old(self).accessed().insert(entry_key(column, key@)),
            final(self).written() == old(self).written(),
            final(self).frame() == old(self).frame(),
            final(self).contents() == old(self).contents(),
    {
        proof {
            use_type_invariant(&*self);
        }
        let a = Access::new(column, copy_bytes(key), access_type);
        let ghost a0 = a;
        let mut local = Cache::new();
        std::mem::swap(&mut local, &mut self.local_cache);
        let mut log: Vec<Access> = Vec::new();
        std::mem::swap(&mut log, &mut self.accesses);
        log.push(a);
        self.accesses = log;
        assert(self.log() =~= old(self).log().push((a0.entry_key(), a0.access_type)));
        proof {
            lemma_log_keys_push(old(self).log(), (a0.entry_key(), a0.access_type));
        }
        proof {
            let l0 = old(self).log();
            let l1 = self.log();
            assert forall|k: EntryKey| #[trigger] local@.contains_key(k) implies exists|i: int|
                0 <= i < l1.len() && (#[trigger] l1[i]).0 == k && l1[i].1.modifies() by {
                let i = choose|i: int| 0 <= i < l0.len() && (#[trigger] l0[i]).0 == k && l0[i].1.modifies();
                assert(l1[i] == l0[i]);
            }
        }
        self.local_cache = local;
    }

    fn write(&mut self, column: &str, key: &[u8], value: Option<&[u8]>)
        requires
            exists|i: int|
                0 <= i < old(self).log().len() && (#[trigger] old(self).log()[i]).0 == entry_key(column, key@)
                    && old(self).log()[i].1.modifies(),
        ensures
            final(self).frame() == old(self).frame(),
            final(self).log() == old(self).log(),
            final(self).written() == old(self).written().insert(
                entry_key(column, key@),
                match value {
                    Some(v) => Some(v@),
                    None => None,
                },
            ),
    {
        proof {
            use_type_invariant(&*self);
        }
        let mut local = Cache::new();
        std::mem::swap(&mut local, &mut self.local_cache);
        local.write(column, key, value);
        proof {
            let l = self.log();
            let k0 = entry_key(column, key@);
            assert forall|k: EntryKey| #[trigger] local@.contains_key(k) implies exists|i: int|
                0 <= i < l.len() && (#[trigger] l[i]).0 == k && l[i].1.modifies() by {
                if k != k0 {
                    assert(old(self).local_cache@.contains_key(k));
                }
            }
        }
        self.local_cache = local;
    }
}

impl<'a, S: CRUDState> CRUDState for ParallelExecutionUnit<'a, S> {
    type Frame = Contents;

    closed spec fn contents(&self) -> Contents {
        overlay(overlay(self.confirmed_state.contents(), self.accumulated_cache@), self.local_cache@)
    }

    closed spec fn frame(&self) -> Contents {
        overlay(self.confirmed_state.contents(), self.accumulated_cache@)
    }

    /// The keys of the recorded accesses.
    open spec fn accessed(&self) -> Set<EntryKey> {
        log_keys(self.log())
    }

    /// Looks the value up without recording an access.
    fn peek(&self, column: &str, key: &[u8]) -> (r: Option<Vec<u8>>) {
        self.read_raw(column, key)
    }

    /// Reads the value, recording a read access.
    fn read(&mut self, column: &str, key: &[u8]) -> (r: Option<Vec<u8>>)
        ensures
            final(self).log() == old(self).log().push((entry_key(column, key@), AccessType::Read)),
            final(self).written() == old(self).written(),
    {
        self.record(column, key, AccessType::Read);
        self.read_raw(column, key)
    }

    /// Creates the value if the key holds nothing, recording a write access; when the key
    /// already holds a value, the existence check is recorded as a read access.
    fn create(&mut self, column: &str, key: &[u8], value: &[u8]) -> (created: bool)
        ensures
            created ==> final(self).log() == old(self).log().push(
                (entry_key(column, key@), AccessType::Write),
            ),
            !created ==> final(self).log() == old(self).log().push(
                (entry_key(column, key@), AccessType::Read),
            ),
            final(self).written() == (if created {
                old(self).written().insert(entry_key(column, key@), Some(value@))
            } else {
                old(self).written()
            }),
    {
        if self.read_raw(column, key).is_some() {
            self.record(column, key, AccessType::Read);
            return false;
        }
        self.record(column, key, AccessType::Write);
        assert(self.log()[self.log().len() - 1] == (entry_key(column, key@), AccessType::Write));
        self.write(column, key, Some(value));
        assert(self.contents() =~= old(self).contents().insert(entry_key(column, key@), value@));
        true
    }

    /// Stores the value, recording a write access.
    fn update(&mut self, column: &str, key: &[u8], value: &[u8]) -> (previous: Option<Vec<u8>>)
        ensures
            final(self).log() == old(self).log().push((entry_key(column, key@), AccessType::Write)),
            final(self).written() == old(self).written().insert(entry_key(column, key@), Some(value@)),
    {
        let previous = self.read_raw(column, key);
        self.record(column, key, AccessType::Write);
        assert(self.log()[self.log().len() - 1] == (entry_key(column, key@), AccessType::Write));
        self.write(column, key, Some(value));
        assert(self.contents() =~= old(self).contents().insert(entry_key(column, key@), value@));
        previous
    }

    /// Deletes the value, leaving a tombstone in the unit's layer and recording a delete
    /// access.
    fn delete(&mut self, column: &str, key: &[u8]) -> (previous: Option<Vec<u8>>)
        ensures
            final(self).log() == old(self).log().push((entry_key(column, key@), AccessType::Delete)),
            final(self).written() == old(self).written().insert(entry_key(column, key@), None),
    {
        let previous = self.read_raw(column, key);
        self.record(column, key, AccessType::Delete);
        assert(self.log()[self.log().len() - 1] == (entry_key(column, key@), AccessType::Delete));
        self.write(column, key, None);
        assert(self.contents() =~= old(self).contents().remove(entry_key(column, key@)));
        previous
    }
}

/// An access registered for collision detection: the batch position that made it, the key
/// it touched and how.
pub type AccessEvent = (int, EntryKey, AccessType);

/// The accesses of the request at `position`, as registered events.
pub open spec fn events_of(position: int, log: Seq<(EntryKey, AccessType)>) -> Seq<AccessEvent> {
    log.map_values(|a: (EntryKey, AccessType)| (position, a.0, a.1))
}

/// A key is contended once two registered accesses of different positions touched it and
/// at least one of them modified it.
pub open spec fn contended(ev: Seq<AccessEvent>, k: EntryKey) -> bool {
    exists|i: int, j: int|
        0 <= i < ev.len() && 0 <= j < ev.len() && ev[i].0 != ev[j].0 && #[trigger] ev[i].1 == k
            && #[trigger] ev[j].1 == k && conflicts(ev[i].2, ev[j].2)
}

/// The positions that made an access to `k`.
pub open spec fn positions_on(ev: Seq<AccessEvent>, k: EntryKey) -> Set<int> {
    Set::new(|p: int| exists|i: int| 0 <= i < ev.len() && #[trigger] ev[i].0 == p && ev[i].1 == k)
}

/// The positions that collided: every position that accessed a contended key.
pub open spec fn collided_positions(ev: Seq<AccessEvent>) -> Set<int> {
    Set::new(
        |p: int|
            exists|i: int| 0 <= i < ev.len() && #[trigger] ev[i].0 == p && contended(ev, ev[i].1),
    )
}

/// An access hits the accesses registered before it when one of them, made by another
/// position, touched the same key and the two conflict.
pub open spec fn hits(ev: Seq<AccessEvent>, e: AccessEvent) -> bool {
    exists|i: int| 0 <= i < ev.len() && #[trigger] ev[i].1 == e.1 && ev[i].0 != e.0 && conflicts(ev[i].2, e.2)
}

/// The accesses seen so far for one key (each as the position that made it and its kind),
/// and the positions that made them.
struct KeyRecord {
    column: String,
    key: Vec<u8>,
    seen: Vec<(usize, AccessType)>,
    positions: Vec<usize>,
}

impl KeyRecord {
    spec fn entry_key(&self) -> EntryKey {
        (vstd::utf8::encode_utf8(self.column@), self.key@)
    }

    /// The record summarises exactly the registered accesses to its key.
    spec fn summarises(&self, ev: Seq<AccessEvent>) -> bool {
        let k = self.entry_key();
        &&& exists|i: int| 0 <= i < ev.len() && #[trigger] ev[i].1 == k
        &&& forall|q: usize, t: AccessType|
            self.seen@.contains((q, t)) <==> exists|i: int|
                0 <= i < ev.len() && #[trigger] ev[i].1 == k && ev[i].0 == q as int && ev[i].2 == t
        &&& forall|p: usize|
            self.positions@.contains(p) <==> positions_on(ev, k).contains(p as int)
    }
}

/// The accesses of the requests of one batch, registered position by position, and the
/// positions found to collide.
///
/// Collision rules: a write or a deletion collides with any access of another position to
/// the same `(column, key)`; two reads do not collide, and a request never collides with
/// itself. When an access collides, its position and every position that accessed the key
/// before it are marked.
pub struct CollisionState {
    accessed: Vec<KeyRecord>,
    pub collisions: BTreeSet<usize>,
    events: Ghost<Seq<AccessEvent>>,
}

impl CollisionState {
    /// Every access registered so far, in registration order.
    pub closed spec fn events(&self) -> Seq<AccessEvent> {
        self.events@
    }

    /// The positions marked as collided.
    pub closed spec fn marked(&self) -> Set<usize> {
        self.collisions@
    }

    /// The records summarise the registered accesses, one record per key, and the marked
    /// positions are exactly the collided ones.
    pub closed spec fn wf(&self) -> bool {
        let ev = self.events@;
        let recs = self.accessed@;
        &&& forall|p: usize|
            self.collisions@.contains(p) <==> collided_positions(ev).contains(p as int)
        &&& forall|i: int| 0 <= i < ev.len() ==> 0 <= #[trigger] ev[i].0 <= usize::MAX
        &&& forall|a: int, b: int|
            0 <= a < recs.len() && 0 <= b < recs.len() && a != b ==> recs[a].entry_key()
                != recs[b].entry_key()
        &&& forall|r: int| 0 <= r < recs.len() ==> #[trigger] recs[r].summarises(ev)
        &&& forall|i: int|
            0 <= i < ev.len() ==> exists|r: int|
                0 <= r < recs.len() && #[trigger] recs[r].entry_key() == #[trigger] ev[i].1
    }

    /// Nothing registered, nothing collided.
    pub fn new() -> (s: CollisionState)
        ensures
            s.wf(),
            s.events() == Seq::<AccessEvent>::empty(),
            s.marked() == Set::<usize>::empty(),
    {
        let s = CollisionState {
            accessed: Vec::new(),
            collisions: BTreeSet::new(),
            events: Ghost(Seq::empty()),
        };
        assert(collided_positions(s.events@) =~= Set::<int>::empty());
        s
    }
}

/// A key's contention after one more access: it was contended before, or the new access
/// hits an earlier access to it.
proof fn lemma_contended_push(ev: Seq<AccessEvent>, e: AccessEvent, k: EntryKey)
    ensures
        contended(ev.push(e), k) <==> (contended(ev, k) || (k == e.1 && hits(ev, e))),
{
    let ev2 = ev.push(e);
    let n = ev.len() as int;
    if contended(ev, k) {
        let (i, j) = choose|i: int, j: int|
            0 <= i < ev.len() && 0 <= j < ev.len() && ev[i].0 != ev[j].0 && #[trigger] ev[i].1 == k
                && #[trigger] ev[j].1 == k && conflicts(ev[i].2, ev[j].2);
        assert(ev2[i] == ev[i] && ev2[j] == ev[j]);
    }
    if k == e.1 && hits(ev, e) {
        let i = choose|i: int|
            0 <= i < ev.len() && #[trigger] ev[i].1 == e.1 && ev[i].0 != e.0 && conflicts(ev[i].2, e.2);
        assert(ev2[i] == ev[i] && ev2[n] == e);
    }
    if contended(ev2, k) {
        let (i, j) = choose|i: int, j: int|
            0 <= i < ev2.len() && 0 <= j < ev2.len() && ev2[i].0 != ev2[j].0 && #[trigger] ev2[i].1 == k
                && #[trigger] ev2[j].1 == k && conflicts(ev2[i].2, ev2[j].2);
        if i < n && j < n {
            assert(ev2[i] == ev[i] && ev2[j] == ev[j]);
        } else if j == n {
            assert(ev2[i] == ev[i]);
        } else {
            assert(ev2[j] == ev[j]);
        }
    }
}

/// The collided positions after one more access: those before, plus, when the access hits,
/// every position that accessed its key.
proof fn lemma_collided_push(ev: Seq<AccessEvent>, e: AccessEvent)
    ensures
        collided_positions(ev.push(e)) == collided_positions(ev).union(
            if hits(ev, e) {
                positions_on(ev.push(e), e.1)
            } else {
                Set::<int>::empty()
            },
        ),
{
    let ev2 = ev.push(e);
    let n = ev.len() as int;
    let extra = if hits(ev, e) {
        positions_on(ev2, e.1)
    } else {
        Set::<int>::empty()
    };
    assert forall|p: int| collided_positions(ev2).contains(p) implies collided_positions(ev).union(
        extra,
    ).contains(p) by {
        let i = choose|i: int| 0 <= i < ev2.len() && #[trigger] ev2[i].0 == p && contended(ev2, ev2[i].1);
        lemma_contended_push(ev, e, ev2[i].1);
        if ev2[i].1 == e.1 {
            lemma_contended_push(ev, e, e.1);
            if hits(ev, e) {
                assert(positions_on(ev2, e.1).contains(p));
            } else {
                assert(contended(ev, e.1));
                if i < n {
                    assert(ev2[i] == ev[i]);
                    assert(collided_positions(ev).contains(p));
                } else {
                    let (a, b) = choose|a: int, b: int|
                        0 <= a < ev.len() && 0 <= b < ev.len() && ev[a].0 != ev[b].0 && #[trigger] ev[a].1
                            == e.1 && #[trigger] ev[b].1 == e.1 && conflicts(ev[a].2, ev[b].2);
                    assert(ev2[i] == e);
                    if ev[a].2.modifies() {
                        if ev[a].0 != e.0 {
                            assert(conflicts(ev[a].2, e.2));
                            assert(hits(ev, e));
                        }
                        assert(ev[a].0 == p && contended(ev, ev[a].1));
                    } else {
                        if ev[b].0 != e.0 {
                            assert(conflicts(ev[b].2, e.2));
                            assert(hits(ev, e));
                        }
                        assert(ev[b].0 == p && contended(ev, ev[b].1));
                    }
                    assert(collided_positions(ev).contains(p));
                }
            }
        } else {
            assert(i < n);
            assert(ev2[i] == ev[i]);
            assert(collided_positions(ev).contains(p));
        }
    }
    assert forall|p: int| collided_positions(ev).union(extra).contains(p) implies collided_positions(
        ev2,
    ).contains(p) by {
        if collided_positions(ev).contains(p) {
            let i = choose|i: int| 0 <= i < ev.len() && #[trigger] ev[i].0 == p && contended(ev, ev[i].1);
            lemma_contended_push(ev, e, ev[i].1);
            assert(ev2[i] == ev[i]);
        } else {
            assert(hits(ev, e));
            let i = choose|i: int| 0 <= i < ev2.len() && #[trigger] ev2[i].0 == p && ev2[i].1 == e.1;
            lemma_contended_push(ev, e, e.1);
        }
    }
    assert(collided_positions(ev2) =~= collided_positions(ev).union(extra));
}

/// A record still summarises the accesses after one more access to another key.
proof fn lemma_summarises_push(rec: KeyRecord, ev: Seq<AccessEvent>, e: AccessEvent)
    requires
        rec.summarises(ev),
        rec.entry_key() != e.1,
    ensures
        rec.summarises(ev.push(e)),
{
    let ev2 = ev.push(e);
    let k = rec.entry_key();
    let i0 = choose|i: int| 0 <= i < ev.len() && #[trigger] ev[i].1 == k;
    assert(ev2[i0] == ev[i0]);
    assert forall|q: usize, t: AccessType| rec.seen@.contains((q, t)) <==> exists|i: int|
        0 <= i < ev2.len() && #[trigger] ev2[i].1 == k && ev2[i].0 == q as int && ev2[i].2 == t by {
        if rec.seen@.contains((q, t)) {
            let i = choose|i: int| 0 <= i < ev.len() && #[trigger] ev[i].1 == k && ev[i].0 == q as int && ev[i].2 == t;
            assert(ev2[i] == ev[i]);
        }
        if exists|i: int| 0 <= i < ev2.len() && #[trigger] ev2[i].1 == k && ev2[i].0 == q as int && ev2[i].2 == t {
            let i = choose|i: int| 0 <= i < ev2.len() && #[trigger] ev2[i].1 == k && ev2[i].0 == q as int && ev2[i].2 == t;
            assert(i < ev.len());
            assert(ev2[i] == ev[i]);
        }
    }
    assert forall|p: int| positions_on(ev2, k).contains(p) <==> positions_on(ev, k).contains(p) by {
        if positions_on(ev, k).contains(p) {
            let i = choose|i: int| 0 <= i < ev.len() && #[trigger] ev[i].0 == p && ev[i].1 == k;
            assert(ev2[i] == ev[i]);
        }
        if positions_on(ev2, k).contains(p) {
            let i = choose|i: int| 0 <= i < ev2.len() && #[trigger] ev2[i].0 == p && ev2[i].1 == k;
            assert(i < ev.len());
            assert(ev2[i] == ev[i]);
        }
    }
}

/// Whether `v` holds the access `(p, t)`.
fn holds_access(v: &Vec<(usize, AccessType)>, p: usize, t: AccessType) -> (r: bool)
    ensures
        r == v@.contains((p, t)),
{
    let mut i: usize = 0;
    while i < v.len()
        invariant
            0 <= i <= v@.len(),
            forall|j: int| 0 <= j < i ==> v@[j] != (p, t),
        decreases v@.len() - i,
    {
        if v[i].0 == p && v[i].1 == t {
            assert(v@[i as int] == (p, t));
            return true;
        }
        i = i + 1;
    }
    false
}

/// Whether `v` holds `p`.
fn holds_position(v: &Vec<usize>, p: usize) -> (r: bool)
    ensures
        r == v@.contains(p),
{
    let mut i: usize = 0;
    while i < v.len()
        invariant
            0 <= i <= v@.len(),
            forall|j: int| 0 <= j < i ==> v@[j] != p,
        decreases v@.len() - i,
    {
        if v[i] == p {
            assert(v@[i as int] == p);
            return true;
        }
        i = i + 1;
    }
    false
}

impl CollisionState {
    /// Index of the record for `column`/`key`, if any.
    fn find(&self, column: &str, key: &[u8]) -> (r: Option<usize>)
        ensures
            match r {
                Some(i) => i < self.accessed@.len() && self.accessed@[i as int].entry_key()
                    == entry_key(column, key@),
                None => forall|i: int|
                    0 <= i < self.accessed@.len() ==> self.accessed@[i].entry_key()
                        != entry_key(column, key@),
            },
    {
        let mut i: usize = 0;
        while i < self.accessed.len()
            invariant
                0 <= i <= self.accessed@.len(),
                forall|j: int|
                    0 <= j < i ==> self.accessed@[j].entry_key() != entry_key(column, key@),
            decreases self.accessed@.len() - i,
        {
            let rec = &self.accessed[i];
            let same_column = bytes_equal(rec.column.as_str().as_bytes(), column.as_bytes());
            if same_column && bytes_equal(rec.key.as_slice(), key) {
                return Some(i);
            }
            i = i + 1;
        }
        None
    }

    /// Whether an access of another position already seen in record `r` conflicts with an
    /// access of kind `t` by `position`.
    fn seen_conflict(&self, r: usize, position: usize, t: AccessType) -> (hit: bool)
        requires
            r < self.accessed@.len(),
        ensures
            hit == exists|j: int|
                0 <= j < self.accessed@[r as int].seen@.len() && (#[trigger] self.accessed@[r as int].seen@[j]).0
                    != position && conflicts(self.accessed@[r as int].seen@[j].1, t),
    {
        let seen = &self.accessed[r].seen;
        let mut j: usize = 0;
        while j < seen.len()
            invariant
                0 <= j <= seen@.len(),
                r < self.accessed@.len(),
                seen@ == self.accessed@[r as int].seen@,
                forall|m: int| 0 <= m < j ==> !((#[trigger] seen@[m]).0 != position && conflicts(seen@[m].1, t)),
            decreases seen@.len() - j,
        {
            if seen[j].0 != position && seen[j].1.is_collision(&t) {
                assert(self.accessed@[r as int].seen@[j as int].0 != position && conflicts(
                    self.accessed@[r as int].seen@[j as int].1,
                    t,
                ));
                return true;
            }
            j = j + 1;
        }
        false
    }

}

/// Adds every position of `ps` to `marks`.
fn mark_all(marks: &mut BTreeSet<usize>, ps: &Vec<usize>)
    ensures
        forall|x: usize|
            #[trigger] final(marks)@.contains(x) <==> (old(marks)@.contains(x) || ps@.contains(x)),
{
    let mut m: usize = 0;
    while m < ps.len()
        invariant
            0 <= m <= ps@.len(),
            forall|x: usize|
                #[trigger] marks@.contains(x) <==> (old(marks)@.contains(x) || exists|j: int|
                    0 <= j < m && ps@[j] == x),
        decreases ps@.len() - m,
    {
        let ghost before = marks@;
        marks.insert(ps[m]);
        assert forall|x: usize|
            #[trigger] marks@.contains(x) <==> (old(marks)@.contains(x) || exists|j: int|
                0 <= j < m + 1 && ps@[j] == x) by {
            assert(before.contains(x) <==> (old(marks)@.contains(x) || exists|j: int|
                0 <= j < m && ps@[j] == x));
            if x == ps@[m as int] {
                assert(ps@[m as int] == x);
            } else if exists|j: int| 0 <= j < m + 1 && ps@[j] == x {
                let j = choose|j: int| 0 <= j < m + 1 && ps@[j] == x;
                assert(j < m);
            }
        }
        m = m + 1;
    }
}

/// The positions that accessed `k` after one more access.
proof fn lemma_positions_on_push(ev: Seq<AccessEvent>, e: AccessEvent, k: EntryKey)
    ensures
        positions_on(ev.push(e), k) == (if e.1 == k {
            positions_on(ev, k).insert(e.0)
        } else {
            positions_on(ev, k)
        }),
{
    let ev2 = ev.push(e);
    let n = ev.len() as int;
    let target = if e.1 == k {
        positions_on(ev, k).insert(e.0)
    } else {
        positions_on(ev, k)
    };
    assert forall|p: int| positions_on(ev2, k).contains(p) <==> target.contains(p) by {
        if positions_on(ev2, k).contains(p) {
            let i = choose|i: int| 0 <= i < ev2.len() && #[trigger] ev2[i].0 == p && ev2[i].1 == k;
            if i < n {
                assert(ev2[i] == ev[i]);
            }
        }
        if positions_on(ev, k).contains(p) {
            let i = choose|i: int| 0 <= i < ev.len() && #[trigger] ev[i].0 == p && ev[i].1 == k;
            assert(ev2[i] == ev[i]);
        }
        if e.1 == k && p == e.0 {
            assert(ev2[n] == e);
        }
    }
    assert(positions_on(ev2, k) =~= target);
}

impl CollisionState {
    /// Registers one access made by the request at `position`; returns whether it hit an
    /// earlier access.
    fn register(&mut self, position: usize, access: &Access) -> (hit: bool)
        requires
            old(self).wf(),
        ensures
            final(self).wf(),
            final(self).events() == old(self).events().push(
                (position as int, access.entry_key(), access.access_type),
            ),
            hit == hits(old(self).events(), (position as int, access.entry_key(), access.access_type)),
    {
        let ghost ev = self.events@;
        let ghost e: AccessEvent = (position as int, access.entry_key(), access.access_type);
        let ghost k = access.entry_key();
        let ghost ev2 = ev.push(e);
        let ghost recs0 = self.accessed@;
        let t = access.access_type;
        proof {
            lemma_collided_push(ev, e);
            lemma_positions_on_push(ev, e, k);
            assert(ev2[ev.len() as int] == e);
        }
        match self.find(access.column.as_str(), access.key.as_slice()) {
            Some(r) => {
                let ghost rec0 = recs0[r as int];
                let hit = self.seen_conflict(r, position, t);
                proof {
                    assert(rec0.summarises(ev));
                    if hit {
                        let j = choose|j: int|
                            0 <= j < rec0.seen@.len() && (#[trigger] rec0.seen@[j]).0 != position && conflicts(
                                rec0.seen@[j].1,
                                t,
                            );
                        let q = rec0.seen@[j].0;
                        let t1 = rec0.seen@[j].1;
                        assert(rec0.seen@[j] == (q, t1));
                        assert(rec0.seen@.contains((q, t1)));
                        let i = choose|i: int|
                            0 <= i < ev.len() && #[trigger] ev[i].1 == k && ev[i].0 == q as int && ev[i].2 == t1;
                        assert(hits(ev, e));
                    }
                    if hits(ev, e) {
                        let i = choose|i: int|
                            0 <= i < ev.len() && #[trigger] ev[i].1 == e.1 && ev[i].0 != e.0 && conflicts(ev[i].2, e.2);
                        assert(0 <= ev[i].0 <= usize::MAX);
                        let q = ev[i].0 as usize;
                        assert(ev[i].0 == q as int);
                        assert(rec0.seen@.contains((q, ev[i].2)));
                        let j = choose|j: int| 0 <= j < rec0.seen@.len() && rec0.seen@[j] == (q, ev[i].2);
                        assert(rec0.seen@[j].0 != position && conflicts(rec0.seen@[j].1, t));
                    }
                }
                if hit {
                    self.collisions.insert(position);
                    mark_all(&mut self.collisions, &self.accessed[r].positions);
                }
                if !holds_access(&self.accessed[r].seen, position, t) {
                    self.accessed[r].seen.push((position, t));
                }
                if !holds_position(&self.accessed[r].positions, position) {
                    self.accessed[r].positions.push(position);
                }
                assert(self.accessed@[r as int].seen@ == (if rec0.seen@.contains((position, t)) {
                    rec0.seen@
                } else {
                    rec0.seen@.push((position, t))
                }));
                assert(self.accessed@[r as int].positions@ == (if rec0.positions@.contains(position) {
                    rec0.positions@
                } else {
                    rec0.positions@.push(position)
                }));
                self.events = Ghost(ev2);
                proof {
                    let recs = self.accessed@;
                    let rec = recs[r as int];
                    assert(rec.entry_key() == k);
                    assert forall|p: usize|
                        self.collisions@.contains(p) <==> collided_positions(ev2).contains(p as int) by {
                        if hit {
                            assert(rec0.positions@.contains(p) <==> positions_on(ev, k).contains(p as int));
                        }
                    }
                    assert forall|q: usize, t2: AccessType| rec.seen@.contains((q, t2)) <==> exists|i: int|
                        0 <= i < ev2.len() && #[trigger] ev2[i].1 == k && ev2[i].0 == q as int && ev2[i].2 == t2 by {
                        let n = ev.len() as int;
                        if q == position && t2 == t {
                            assert(ev2[n].1 == k && ev2[n].0 == q as int && ev2[n].2 == t2);
                            if !rec0.seen@.contains((position, t)) {
                                assert(rec.seen@[rec.seen@.len() - 1] == (q, t2));
                            }
                        }
                        if rec.seen@.contains((q, t2)) && !(q == position && t2 == t) {
                            if !rec0.seen@.contains((position, t)) {
                                let j = choose|j: int| 0 <= j < rec.seen@.len() && rec.seen@[j] == (q, t2);
                                assert(j < rec0.seen@.len());
                                assert(rec0.seen@[j] == (q, t2));
                            }
                            assert(rec0.seen@.contains((q, t2)));
                            let i = choose|i: int|
                                0 <= i < ev.len() && #[trigger] ev[i].1 == k && ev[i].0 == q as int && ev[i].2 == t2;
                            assert(ev2[i] == ev[i]);
                        }
                        if exists|i: int| 0 <= i < ev2.len() && #[trigger] ev2[i].1 == k && ev2[i].0 == q as int && ev2[i].2 == t2 {
                            let i = choose|i: int|
                                0 <= i < ev2.len() && #[trigger] ev2[i].1 == k && ev2[i].0 == q as int && ev2[i].2 == t2;
                            if i < n {
                                assert(ev2[i] == ev[i]);
                                assert(rec0.seen@.contains((q, t2)));
                                let j = choose|j: int| 0 <= j < rec0.seen@.len() && rec0.seen@[j] == (q, t2);
                                assert(rec.seen@[j] == (q, t2));
                            }
                        }
                    }
                    assert forall|p: usize|
                        rec.positions@.contains(p) <==> positions_on(ev2, k).contains(p as int) by {
                        assert(rec0.positions@.contains(p) <==> positions_on(ev, k).contains(p as int));
                        if p == position && !rec0.positions@.contains(position) {
                            assert(rec.positions@[rec.positions@.len() - 1] == position);
                        }
                        if rec0.positions@.contains(p) {
                            let j = choose|j: int| 0 <= j < rec0.positions@.len() && rec0.positions@[j] == p;
                            assert(rec.positions@[j] == p);
                        }
                        if rec.positions@.contains(p) && p != position {
                            let j = choose|j: int| 0 <= j < rec.positions@.len() && rec.positions@[j] == p;
                            if !rec0.positions@.contains(position) {
                                assert(j < rec0.positions@.len());
                            }
                            assert(rec0.positions@[j] == p);
                        }
                    }
                    let i0 = choose|i: int| 0 <= i < ev.len() && #[trigger] ev[i].1 == k;
                    assert(ev2[i0] == ev[i0]);
                    assert(rec.summarises(ev2));
                    assert forall|x: int| 0 <= x < recs.len() implies #[trigger] recs[x].summarises(ev2) by {
                        if x != r {
                            assert(recs[x] == recs0[x]);
                            assert(recs0[x].summarises(ev));
                            lemma_summarises_push(recs0[x], ev, e);
                        }
                    }
                    assert forall|i: int| 0 <= i < ev2.len() implies exists|x: int|
                        0 <= x < recs.len() && #[trigger] recs[x].entry_key() == #[trigger] ev2[i].1 by {
                        if i < ev.len() {
                            assert(ev2[i] == ev[i]);
                            let x = choose|x: int| 0 <= x < recs0.len() && #[trigger] recs0[x].entry_key() == #[trigger] ev[i].1;
                            assert(recs[x].entry_key() == recs0[x].entry_key());
                        } else {
                            assert(recs[r as int].entry_key() == ev2[i].1);
                        }
                    }
                    assert forall|a: int, b: int|
                        0 <= a < recs.len() && 0 <= b < recs.len() && a != b implies recs[a].entry_key()
                        != recs[b].entry_key() by {
                        assert(recs[a].entry_key() == recs0[a].entry_key());
                        assert(recs[b].entry_key() == recs0[b].entry_key());
                    }
                    assert forall|i: int| 0 <= i < ev2.len() implies 0 <= #[trigger] ev2[i].0 <= usize::MAX by {
                        if i < ev.len() {
                            assert(ev2[i] == ev[i]);
                        }
                    }
                }
                hit
            },
            None => {
                let mut seen: Vec<(usize, AccessType)> = Vec::new();
                seen.push((position, t));
                let mut positions: Vec<usize> = Vec::new();
                positions.push(position);
                let rec = KeyRecord {
                    column: access.column.clone(),
                    key: copy_bytes(access.key.as_slice()),
                    seen,
                    positions,
                };
                self.accessed.push(rec);
                self.events = Ghost(ev2);
                proof {
                    let recs = self.accessed@;
                    let n = recs0.len() as int;
                    let rec = recs[n];
                    assert(rec.entry_key() == k);
                    assert(!hits(ev, e)) by {
                        if hits(ev, e) {
                            let i = choose|i: int|
                                0 <= i < ev.len() && #[trigger] ev[i].1 == e.1 && ev[i].0 != e.0 && conflicts(ev[i].2, e.2);
                            let x = choose|x: int| 0 <= x < recs0.len() && #[trigger] recs0[x].entry_key() == #[trigger] ev[i].1;
                        }
                    }
                    assert(positions_on(ev, k) =~= Set::<int>::empty()) by {
                        assert forall|p: int| !positions_on(ev, k).contains(p) by {
                            if positions_on(ev, k).contains(p) {
                                let i = choose|i: int| 0 <= i < ev.len() && #[trigger] ev[i].0 == p && ev[i].1 == k;
                                let x = choose|x: int| 0 <= x < recs0.len() && #[trigger] recs0[x].entry_key() == #[trigger] ev[i].1;
                            }
                        }
                    }
                    assert forall|q: usize, t2: AccessType| rec.seen@.contains((q, t2)) <==> exists|i: int|
                        0 <= i < ev2.len() && #[trigger] ev2[i].1 == k && ev2[i].0 == q as int && ev2[i].2 == t2 by {
                        if rec.seen@.contains((q, t2)) {
                            assert(rec.seen@[0] == (q, t2));
                            assert(ev2[ev.len() as int] == e);
                        }
                        if exists|i: int| 0 <= i < ev2.len() && #[trigger] ev2[i].1 == k && ev2[i].0 == q as int && ev2[i].2 == t2 {
                            let i = choose|i: int|
                                0 <= i < ev2.len() && #[trigger] ev2[i].1 == k && ev2[i].0 == q as int && ev2[i].2 == t2;
                            if i < ev.len() {
                                assert(ev2[i] == ev[i]);
                                let x = choose|x: int| 0 <= x < recs0.len() && #[trigger] recs0[x].entry_key() == #[trigger] ev[i].1;
                                assert(false);
                            }
                            assert(rec.seen@[0] == (q, t2));
                        }
                    }
                    assert forall|p: usize|
                        rec.positions@.contains(p) <==> positions_on(ev2, k).contains(p as int) by {
                        if rec.positions@.contains(p) {
                            assert(rec.positions@[0] == p);
                        }
                        if p == position {
                            assert(rec.positions@[0] == p);
                        }
                    }
                    assert(rec.summarises(ev2));
                    assert forall|x: int| 0 <= x < recs.len() implies #[trigger] recs[x].summarises(ev2) by {
                        if x < n {
                            assert(recs[x] == recs0[x]);
                            lemma_summarises_push(recs0[x], ev, e);
                        }
                    }
                    assert forall|i: int| 0 <= i < ev2.len() implies exists|x: int|
                        0 <= x < recs.len() && #[trigger] recs[x].entry_key() == #[trigger] ev2[i].1 by {
                        if i < ev.len() {
                            assert(ev2[i] == ev[i]);
                            let x = choose|x: int| 0 <= x < recs0.len() && #[trigger] recs0[x].entry_key() == #[trigger] ev[i].1;
                            assert(recs[x] == recs0[x]);
                        } else {
                            assert(recs[n].entry_key() == ev2[i].1);
                        }
                    }
                    assert forall|a: int, b: int|
                        0 <= a < recs.len() && 0 <= b < recs.len() && a != b implies recs[a].entry_key()
                        != recs[b].entry_key() by {
                        if a < n {
                            assert(recs[a] == recs0[a]);
                        }
                        if b < n {
                            assert(recs[b] == recs0[b]);
                        }
                    }
                    assert forall|i: int| 0 <= i < ev2.len() implies 0 <= #[trigger] ev2[i].0 <= usize::MAX by {
                        if i < ev.len() {
                            assert(ev2[i] == ev[i]);
                        }
                    }
                    assert forall|p: usize|
                        self.collisions@.contains(p) <==> collided_positions(ev2).contains(p as int) by {
                    }
                }
                false
            },
        }
    }
}

/// Registers, in order, the accesses recorded by the unit that executed the request at
/// `position`. Returns whether any of them hit an earlier access (one of this unit or of a
/// unit registered before it).
pub fn progress_collision_state(state: &mut CollisionState, position: usize, accesses: &[Access]) -> (collided: bool)
    requires
        old(state).wf(),
    ensures
        final(state).wf(),
        final(state).events() == old(state).events() + events_of(
            position as int,
            access_views(accesses@),
        ),
        forall|p: usize|
            final(state).marked().contains(p) <==> collided_positions(final(state).events()).contains(
                p as int,
            ),
        collided == exists|j: int|
            0 <= j < accesses@.len() && hits(
                old(state).events() + events_of(position as int, access_views(accesses@)).take(j),
                #[trigger] events_of(position as int, access_views(accesses@))[j],
            ),
{
    let ghost ev0 = state.events();
    let ghost new_ev = events_of(position as int, access_views(accesses@));
    let mut collided = false;
    let mut i: usize = 0;
    proof {
        assert(new_ev.take(0) =~= Seq::<AccessEvent>::empty());
        assert(ev0 + new_ev.take(0) =~= ev0);
    }
    while i < accesses.len()
        invariant
            0 <= i <= accesses@.len(),
            new_ev == events_of(position as int, access_views(accesses@)),
            new_ev.len() == accesses@.len(),
            state.wf(),
            state.events() == ev0 + new_ev.take(i as int),
            collided == exists|j: int|
                0 <= j < i && hits(ev0 + new_ev.take(j), #[trigger] new_ev[j]),
        decreases accesses@.len() - i,
    {
        let ghost before = state.events();
        let hit = state.register(position, &accesses[i]);
        proof {
            assert(new_ev[i as int] == (position as int, accesses@[i as int].entry_key(), accesses@[i as int].access_type));
            assert(new_ev.take(i + 1) =~= new_ev.take(i as int).push(new_ev[i as int]));
            assert(state.events() =~= ev0 + new_ev.take(i + 1));
            assert(before =~= ev0 + new_ev.take(i as int));
        }
        if hit {
            collided = true;
        }
        i = i + 1;
    }
    proof {
        assert(new_ev.take(accesses@.len() as int) =~= new_ev);
        state.lemma_marked();
    }
    collided
}

impl CollisionState {
    /// Whether `position` is marked as collided.
    pub fn is_marked(&self, position: usize) -> (b: bool)
        ensures
            b == self.marked().contains(position),
    {
        self.collisions.contains(&position)
    }

    /// The marked positions are exactly the collided ones.
    pub proof fn lemma_marked(&self)
        requires
            self.wf(),
        ensures
            forall|p: usize|
                self.marked().contains(p) <==> collided_positions(self.events()).contains(p as int),
    {
    }
}

/// Reads never collide: when every registered access is a read, no position is marked.
pub proof fn lemma_reads_never_collide(ev: Seq<AccessEvent>)
    requires
        forall|i: int| 0 <= i < ev.len() ==> (#[trigger] ev[i]).2 == AccessType::Read,
    ensures
        collided_positions(ev) == Set::<int>::empty(),
{
    assert forall|p: int| !collided_positions(ev).contains(p) by {
        if collided_positions(ev).contains(p) {
            let i = choose|i: int| 0 <= i < ev.len() && #[trigger] ev[i].0 == p && contended(ev, ev[i].1);
            let k = ev[i].1;
            let (a, b) = choose|a: int, b: int|
                0 <= a < ev.len() && 0 <= b < ev.len() && ev[a].0 != ev[b].0 && #[trigger] ev[a].1 == k
                    && #[trigger] ev[b].1 == k && conflicts(ev[a].2, ev[b].2);
            assert(ev[a].2 == AccessType::Read && ev[b].2 == AccessType::Read);
        }
    }
    assert(collided_positions(ev) =~= Set::<int>::empty());
}

/// A request never collides with itself: when every registered access was made by one
/// position, no position is marked.
pub proof fn lemma_one_position_never_collides(ev: Seq<AccessEvent>, p: int)
    requires
        forall|i: int| 0 <= i < ev.len() ==> (#[trigger] ev[i]).0 == p,
    ensures
        collided_positions(ev) == Set::<int>::empty(),
{
    assert forall|x: int| !collided_positions(ev).contains(x) by {
        if collided_positions(ev).contains(x) {
            let i = choose|i: int| 0 <= i < ev.len() && #[trigger] ev[i].0 == x && contended(ev, ev[i].1);
            let k = ev[i].1;
            let (a, b) = choose|a: int, b: int|
                0 <= a < ev.len() && 0 <= b < ev.len() && ev[a].0 != ev[b].0 && #[trigger] ev[a].1 == k
                    && #[trigger] ev[b].1 == k && conflicts(ev[a].2, ev[b].2);
            assert(ev[a].0 == p && ev[b].0 == p);
        }
    }
    assert(collided_positions(ev) =~= Set::<int>::empty());
}

/// A write or deletion collides with every access of another position to its key: two
/// different positions that accessed one key, at least one of them modifying it, are both
/// marked.
pub proof fn lemma_modification_collides(ev: Seq<AccessEvent>, a: int, b: int)
    requires
        0 <= a < ev.len(),
        0 <= b < ev.len(),
        ev[a].0 != ev[b].0,
        ev[a].1 == ev[b].1,
        ev[a].2.modifies() || ev[b].2.modifies(),
    ensures
        collided_positions(ev).contains(ev[a].0),
        collided_positions(ev).contains(ev[b].0),
{
    assert(contended(ev, ev[a].1));
    assert(contended(ev, ev[b].1));
}

} // verus!
