use vstd::prelude::*;

use crate::cache_model::{after_get, after_put, has_key, lookup, Entries};

verus! {

#[verifier::external_type_specification]
#[verifier::external_body]
#[verifier::reject_recursive_types(K)]
#[verifier::reject_recursive_types(V)]
#[verifier::reject_recursive_types(S)]
pub struct ExLruCache<K, V, S>(lru::LruCache<K, V, S>);

/// The store behind the result cache, keyed by the hex fingerprint string,
/// hashed with the standard library's default hasher.
pub type Store = lru::LruCache<String, Vec<u8>, std::collections::hash_map::RandomState>;

/// The entries an lru::LruCache holds, as (key, value) pairs ordered from
/// most recently used to least recently used.
pub uninterp spec fn lru_entries(c: Store) -> Entries;

/// The capacity an lru::LruCache was created with.
pub uninterp spec fn lru_capacity(c: Store) -> nat;

/// Relies on lru::LruCache::with_hasher: the cache starts empty, with the
/// given capacity.
#[verifier::external_body]
pub(crate) fn lru_new(cap: usize) -> (c: Store)
    requires
        1 <= cap,
    ensures
        lru_entries(c) == Seq::<(Seq<char>, Seq<u8>)>::empty(),
        lru_capacity(c) == cap,
{
    lru::LruCache::with_hasher(
        std::num::NonZeroUsize::new(cap).unwrap(),
        std::collections::hash_map::RandomState::new(),
    )
}

/// Relies on lru::LruCache::get: a hit returns the stored value and moves
/// its entry to the most-recently-used position; a miss changes nothing.
/// The returned bytes are an independent copy of the cached ones.
#[verifier::external_body]
pub(crate) fn lru_get(c: &mut Store, k: &String) -> (r: Option<Vec<u8>>)
    ensures
        lru_capacity(*final(c)) == lru_capacity(*old(c)),
        lru_entries(*final(c)) == after_get(lru_entries(*old(c)), k@),
        match r {
            Some(v) => lookup(lru_entries(*old(c)), k@) == Some(v@),
            None => lookup(lru_entries(*old(c)), k@) is None,
        },
{
    c.get(k).cloned()
}

/// Relies on lru::LruCache::put: inserts at the most-recently-used position,
/// replacing the old value when the key is already present, and otherwise
/// evicting the least-recently-used entry when the cache is full.
#[verifier::external_body]
pub(crate) fn lru_put(c: &mut Store, k: String, v: Vec<u8>)
    ensures
        lru_capacity(*final(c)) == lru_capacity(*old(c)),
        lru_entries(*final(c)) == after_put(
            lru_entries(*old(c)),
            lru_capacity(*old(c)),
            k@,
            v@,
        ),
{
    let _ = c.put(k, v);
}

/// Relies on lru::LruCache::len: the number of entries currently held.
#[verifier::external_body]
pub(crate) fn lru_len(c: &Store) -> (n: usize)
    ensures
        n == lru_entries(*c).len(),
{
    c.len()
}

} // verus!
