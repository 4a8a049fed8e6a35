//! The write-through cache: memory first, then the backend.
use dashmap::DashMap;
use vstd::prelude::*;

use crate::error::PersistentError;
use crate::memory::{
    cache_clear, cache_contains_key, cache_contents, cache_get, cache_insert, cache_is_empty,
    cache_len, cache_new, cache_remove,
};
use crate::snapshot::{lookup, opt_view, pair_views, pairs_map, KeyValues, Snapshot};

verus! {

/// A write that the backend is to perform after memory has changed.
pub enum BackendOp {
    /// Upsert one entry.
    Save { key: String, value: String },
    /// Delete one entry.
    Delete { key: String },
    /// Force buffered state to stable storage.
    Flush,
}

impl BackendOp {
    /// What a durable medium holds after it has performed this write,
    /// starting from `medium`.
    pub open spec fn applied_to(self, medium: KeyValues) -> KeyValues {
        match self {
            BackendOp::Save { key, value } => medium.insert(key@, value@),
            BackendOp::Delete { key } => medium.remove(key@),
            BackendOp::Flush => medium,
        }
    }
}

/// A mutation that memory has already taken, with the write it hands on to
/// the backend.
pub struct PendingWrite {
    /// The value the key had in memory before the mutation.
    pub previous: Option<String>,
    /// The write the backend is to perform; none when there is nothing to
    /// persist.
    pub op: Option<BackendOp>,
}

impl PendingWrite {
    /// What a durable medium holds after it has performed this write (if
    /// any), starting from `medium`.
    pub open spec fn medium_after(self, medium: KeyValues) -> KeyValues {
        match self.op {
            Some(op) => op.applied_to(medium),
            None => medium,
        }
    }

    /// What the caller of the mutation receives once the backend has
    /// reported `outcome` for the write: the previous value, or the
    /// backend's error. A mutation with no write succeeds whatever `outcome`
    /// says. Memory is not rolled back on an error.
    pub fn finish(self, outcome: Result<(), PersistentError>) -> (r: Result<
        Option<String>,
        PersistentError,
    >)
        ensures
            self.op is None ==> r == Ok::<Option<String>, PersistentError>(self.previous),
            self.op is Some ==> r == match outcome {
                Ok(()) => Ok::<Option<String>, PersistentError>(self.previous),
                Err(e) => Err(e),
            },
    {
        match self.op {
            None => Ok(self.previous),
            Some(_) => match outcome {
                Ok(()) => Ok(self.previous),
                Err(e) => Err(e),
            },
        }
    }
}

/// An in-memory map of string keys to string values, bound to one backend
/// that every mutation is written through to.
///
/// Reads are served from memory alone. A mutation changes memory and hands
/// out the [`BackendOp`] that the backend must perform; the caller runs it
/// and passes its outcome to [`PendingWrite::finish`].
pub struct PersistentMap<B> {
    map: DashMap<String, String>,
    backend: B,
}

impl<B> View for PersistentMap<B> {
    type V = KeyValues;

    closed spec fn view(&self) -> KeyValues {
        cache_contents(self.map)
    }
}

impl<B> PersistentMap<B> {
    /// The backend this map is bound to.
    pub closed spec fn spec_backend(&self) -> B {
        self.backend
    }

    /// Binds `backend` to a new map filled from `loaded`, what the backend's
    /// `load_all` returned. When that failed, so does construction, and no
    /// map exists.
    pub fn new(backend: B, loaded: Result<Snapshot, PersistentError>) -> (r: Result<
        Self,
        PersistentError,
    >)
        ensures
            match loaded {
                Ok(s) => r matches Ok(m) && m@ == s@ && m.spec_backend() == backend,
                Err(e) => r == Err::<Self, PersistentError>(e),
            },
    {
        match loaded {
            Ok(s) => {
                let mut m = PersistentMap { map: cache_new(), backend };
                m.merge(&s);
                assert(m@ =~= s@);
                Ok(m)
            },
            Err(e) => Err(e),
        }
    }

    /// Inserts every entry of `s` into memory, overwriting what memory held
    /// for its key.
    fn merge(&mut self, s: &Snapshot)
        ensures
            final(self)@ == old(self)@.union_prefer_right(s@),
            final(self).backend == old(self).backend,
    {
        let entries = s.entries();
        let ghost start = self@;
        let ghost all = pair_views(entries@);
        let n = entries.len();
        let mut i: usize = 0;
        while i < n
            invariant
                n == entries@.len(),
                all == pair_views(entries@),
                pairs_map(all) == s@,
                i <= n,
                self@ == start.union_prefer_right(pairs_map(all.take(i as int))),
                self.backend == old(self).backend,
            decreases n - i,
        {
            let key = entries[i].0.clone();
            let value = entries[i].1.clone();
            assert(all.take(i + 1).drop_last() =~= all.take(i as int));
            cache_insert(&mut self.map, key, value);
            assert(self@ =~= start.union_prefer_right(pairs_map(all.take(i + 1))));
            i = i + 1;
        }
        assert(all.take(n as int) =~= all);
    }

    /// Merges `loaded`, what the backend's `load_all` returned, into memory:
    /// each loaded entry overwrites memory's entry for its key, and keys
    /// found only in memory stay. When loading failed, memory is unchanged
    /// and the error is returned.
    pub fn load(&mut self, loaded: Result<Snapshot, PersistentError>) -> (r: Result<
        (),
        PersistentError,
    >)
        ensures
            match loaded {
                Ok(s) => r is Ok && final(self)@ == old(self)@.union_prefer_right(s@),
                Err(e) => r == Err::<(), PersistentError>(e) && final(self)@ == old(self)@,
            },
            final(self).spec_backend() == old(self).spec_backend(),
    {
        match loaded {
            Ok(s) => {
                self.merge(&s);
                Ok(())
            },
            Err(e) => Err(e),
        }
    }

    /// Sets `key` to `value` in memory and hands out the save that persists
    /// it, with the value the key had before.
    pub fn insert(&mut self, key: String, value: String) -> (r: PendingWrite)
        ensures
            final(self)@ == old(self)@.insert(key@, value@),
            opt_view(r.previous) == lookup(old(self)@, key@),
            r.op matches Some(BackendOp::Save { key: k, value: v }) && k@ == key@ && v@ == value@,
            r.medium_after(old(self)@) == final(self)@,
            final(self).spec_backend() == old(self).spec_backend(),
    {
        let op = BackendOp::Save { key: key.clone(), value: value.clone() };
        let previous = cache_insert(&mut self.map, key, value);
        PendingWrite { previous, op: Some(op) }
    }

    /// A copy of the value that memory holds for `key`.
    pub fn get(&self, key: &String) -> (r: Option<String>)
        ensures
            opt_view(r) == lookup(self@, key@),
    {
        cache_get(&self.map, key)
    }

    /// Takes `key` out of memory. When it was there, hands out the delete
    /// that persists its removal, with the value it had; when it was not,
    /// hands out no write at all.
    pub fn remove(&mut self, key: &String) -> (r: PendingWrite)
        ensures
            final(self)@ == old(self)@.remove(key@),
            opt_view(r.previous) == lookup(old(self)@, key@),
            !old(self)@.contains_key(key@) ==> r.op is None,
            old(self)@.contains_key(key@) ==> (r.op matches Some(BackendOp::Delete { key: k })
                && k@ == key@),
            r.medium_after(old(self)@) == final(self)@,
            final(self).spec_backend() == old(self).spec_backend(),
    {
        let previous = cache_remove(&mut self.map, key);
        let op = if previous.is_some() {
            Some(BackendOp::Delete { key: key.clone() })
        } else {
            assert(old(self)@.remove(key@) =~= old(self)@);
            None
        };
        PendingWrite { previous, op }
    }

    /// The number of entries in memory.
    pub fn len(&self) -> (r: usize)
        ensures
            r == self@.len(),
    {
        cache_len(&self.map)
    }

    /// Whether memory holds no entry.
    pub fn is_empty(&self) -> (r: bool)
        ensures
            r == (self@.len() == 0),
    {
        cache_is_empty(&self.map)
    }

    /// Whether memory holds an entry for `key`.
    pub fn contains_key(&self, key: &String) -> (r: bool)
        ensures
            r == self@.contains_key(key@),
    {
        cache_contains_key(&self.map, key)
    }

    /// Empties memory. The backend is not asked to delete anything, so what
    /// it persisted stays there.
    pub fn clear(&mut self)
        ensures
            final(self)@ == KeyValues::empty(),
            final(self).spec_backend() == old(self).spec_backend(),
    {
        cache_clear(&mut self.map)
    }

    /// The write that forces the backend's buffered state to stable storage.
    /// Memory is not touched.
    pub fn flush(&self) -> (r: BackendOp)
        ensures
            r is Flush,
    {
        BackendOp::Flush
    }

    /// The backend this map is bound to.
    pub fn backend(&self) -> (r: &B)
        ensures
            *r == self.spec_backend(),
    {
        &self.backend
    }
}

/// After `insert(k, v)`, `get(k)` returns `v` and `contains_key(k)` holds,
/// whatever memory held before.
pub proof fn lemma_get_after_insert(before: KeyValues, k: Seq<char>, v: Seq<char>)
    ensures
        lookup(before.insert(k, v), k) == Some(v),
        before.insert(k, v).contains_key(k),
{
}

/// Inserting `v1` and then `v2` under one key: the second insert hands back
/// `v1` as the previous value, and `get` then returns `v2`.
pub proof fn lemma_second_insert_returns_first(
    before: KeyValues,
    k: Seq<char>,
    v1: Seq<char>,
    v2: Seq<char>,
)
    ensures
        lookup(before.insert(k, v1), k) == Some(v1),
        lookup(before.insert(k, v1).insert(k, v2), k) == Some(v2),
{
}

/// What a durable medium holds after it has performed `writes` in turn,
/// starting from `medium`.
pub open spec fn replay(medium: KeyValues, writes: Seq<PendingWrite>) -> KeyValues
    decreases writes.len(),
{
    if writes.len() == 0 {
        medium
    } else {
        writes.last().medium_after(replay(medium, writes.drop_last()))
    }
}

/// Reopening a durable medium. A map constructed over a medium starts out
/// holding what the medium holds. Suppose mutations then take its memory
/// through `states`, handing out `writes`, and the medium performs each of
/// them. Then the medium ends up holding exactly what memory holds, so a map
/// constructed over it again holds every key that was inserted and not
/// removed since, with its last-written value.
pub proof fn lemma_reopen_sees_last_writes(states: Seq<KeyValues>, writes: Seq<PendingWrite>)
    requires
        states.len() == writes.len() + 1,
        forall|i: int|
            0 <= i < writes.len() ==> #[trigger] writes[i].medium_after(states[i]) == states[i
                + 1],
    ensures
        replay(states[0], writes) == states.last(),
    decreases writes.len(),
{
    if writes.len() > 0 {
        let n = writes.len() - 1;
        assert(writes[n].medium_after(states[n]) == states[n + 1]);
        lemma_reopen_sees_last_writes(states.drop_last(), writes.drop_last());
    }
}

/// Flushing twice: a flush leaves memory alone, as it takes the map by
/// shared reference, and the write it hands out leaves a durable medium as
/// it was; so a second flush right after the first changes nothing.
pub proof fn lemma_flush_twice_changes_nothing(medium: KeyValues)
    ensures
        BackendOp::Flush.applied_to(medium) == medium,
        BackendOp::Flush.applied_to(BackendOp::Flush.applied_to(medium)) == BackendOp::Flush.applied_to(
            medium,
        ),
{
}

/// After `clear`, a `load` of what the backend persisted leaves memory
/// holding exactly that.
pub proof fn lemma_load_after_clear(persisted: KeyValues)
    ensures
        KeyValues::empty().union_prefer_right(persisted) == persisted,
{
    assert(KeyValues::empty().union_prefer_right(persisted) =~= persisted);
}

} // verus!
