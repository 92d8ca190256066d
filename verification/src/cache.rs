use vstd::prelude::*;

use crate::cache_model::{
    after_get, after_put, has_key, keys_distinct, lookup, Entries,
};
use crate::cache_model::{lemma_get_preserves_wf, lemma_put_preserves_wf};
use crate::lru_store::{lru_capacity, lru_entries, lru_get, lru_len, lru_new, lru_put, Store};

verus! {

/// The bounded, least-recently-used result cache: a key→byte-buffer store.
/// Rather than a hidden process-wide singleton that locks internally, one
/// explicitly constructed instance is injected into the request-handling
/// layer at startup and wrapped in a single lock there, so every mutation
/// is still serialized and goes through `get`, `put` and `reinitialize`
/// alone — and tests can hold isolated instances of their own.
pub struct ResultCache {
    store: Store,
}

impl ResultCache {
    /// The entries, most recently used first.
    pub closed spec fn entries(&self) -> Entries {
        lru_entries(self.store)
    }

    /// The configured capacity.
    pub closed spec fn capacity(&self) -> nat {
        lru_capacity(self.store)
    }

    /// The cache never holds two entries for one key, never holds more
    /// entries than its capacity, and its capacity is positive.
    pub open spec fn wf(&self) -> bool {
        keys_distinct(self.entries()) && self.entries().len() <= self.capacity() && 1
            <= self.capacity()
    }

    /// Creates an empty cache of the given capacity.
    pub fn new(capacity: usize) -> (c: ResultCache)
        requires
            1 <= capacity,
        ensures
            c.wf(),
            c.entries() == Seq::<(Seq<char>, Seq<u8>)>::empty(),
            c.capacity() == capacity,
    {
        ResultCache { store: lru_new(capacity) }
    }

    /// Looks a key up; a hit returns an independent copy of the stored bytes
    /// and marks the entry most recently used.
    pub fn get(&mut self, k: &String) -> (r: Option<Vec<u8>>)
        requires
            old(self).wf(),
        ensures
            final(self).wf(),
            final(self).capacity() == old(self).capacity(),
            final(self).entries() == after_get(old(self).entries(), k@),
            match r {
                Some(v) => lookup(old(self).entries(), k@) == Some(v@),
                None => lookup(old(self).entries(), k@) is None,
            },
    {
        proof {
            lemma_get_preserves_wf(self.entries(), k@);
        }
        lru_get(&mut self.store, k)
    }

    /// Inserts or overwrites, marking the entry most recently used; when an
    /// insertion would push the entry count over the capacity, the least
    /// recently used entry is evicted — exactly one per overflow insertion.
    pub fn put(&mut self, k: String, v: Vec<u8>)
        requires
            old(self).wf(),
        ensures
            final(self).wf(),
            final(self).capacity() == old(self).capacity(),
            final(self).entries() == after_put(
                old(self).entries(),
                old(self).capacity(),
                k@,
                v@,
            ),
    {
        proof {
            lemma_put_preserves_wf(self.entries(), self.capacity(), k@, v@);
        }
        lru_put(&mut self.store, k, v)
    }

    /// The number of entries currently held.
    pub fn len(&self) -> (n: usize)
        ensures
            n == self.entries().len(),
    {
        lru_len(&self.store)
    }

    /// Atomically replaces contents and capacity: everything present is
    /// discarded, equivalent to a cold start at the new capacity.
    pub fn reinitialize(&mut self, capacity: usize)
        requires
            1 <= capacity,
        ensures
            final(self).wf(),
            final(self).entries() == Seq::<(Seq<char>, Seq<u8>)>::empty(),
            final(self).capacity() == capacity,
    {
        self.store = lru_new(capacity);
    }

    /// Whether a key is present, without touching recency.
    pub open spec fn spec_contains(&self, k: Seq<char>) -> bool {
        has_key(self.entries(), k)
    }
}

/// The one initialization entry point: called once at startup, before any
/// traffic, with the operator-supplied capacity.
pub fn initialize_cache(capacity: usize) -> (c: ResultCache)
    requires
        1 <= capacity,
    ensures
        c.wf(),
        c.entries() == Seq::<(Seq<char>, Seq<u8>)>::empty(),
        c.capacity() == capacity,
{
    ResultCache::new(capacity)
}

} // verus!
