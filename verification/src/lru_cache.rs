//! The bounded least-recently-used caches of the `lru` crate, as the
//! deduplication and replay defences use them: keys only, no values.
use vstd::prelude::*;
use lru::LruCache;
use std::num::NonZeroUsize;

verus! {

/// `lru::LruCache`, opaque; what a cache holds is given by the names below.
#[verifier::external_type_specification]
#[verifier::external_body]
#[verifier::reject_recursive_types(K)]
#[verifier::reject_recursive_types(V)]
#[verifier::reject_recursive_types(S)]
pub struct ExLruCache<K, V, S>(LruCache<K, V, S>);

/// `lru::DefaultHasher`, the cache's default hasher, opaque.
#[verifier::external_type_specification]
#[verifier::external_body]
pub struct ExLruDefaultHasher(lru::DefaultHasher);

/// The keys of an identifier cache, least recently used first.
pub uninterp spec fn id_cache_keys(c: LruCache<u128, ()>) -> Seq<u128>;

/// The capacity an identifier cache was made with.
pub uninterp spec fn id_cache_cap(c: LruCache<u128, ()>) -> nat;

/// The keys of a digest cache, least recently used first.
pub uninterp spec fn digest_cache_keys(c: LruCache<[u8; 32], ()>) -> Seq<[u8; 32]>;

/// The capacity a digest cache was made with.
pub uninterp spec fn digest_cache_cap(c: LruCache<[u8; 32], ()>) -> nat;

/// The keys after `put` of a key into an LRU cache with keys `keys` and
/// capacity `cap`: a present key moves to the most recent end; an absent key
/// is appended there, after the least recent key is evicted if the cache is
/// full.
pub open spec fn lru_put<K>(keys: Seq<K>, cap: nat, k: K) -> Seq<K> {
    if keys.contains(k) {
        keys.remove(keys.index_of(k)).push(k)
    } else if keys.len() >= cap {
        keys.drop_first().push(k)
    } else {
        keys.push(k)
    }
}

/// `LruCache::new` with a non-zero capacity, for identifier keys: an empty
/// cache of that capacity.
#[verifier::external_body]
pub(crate) fn id_cache_new(cap: usize) -> (c: LruCache<u128, ()>)
    requires
        cap > 0,
    ensures
        id_cache_keys(c) == Seq::<u128>::empty(),
        id_cache_cap(c) == cap,
{
    LruCache::new(NonZeroUsize::new(cap).unwrap())
}

/// `LruCache::contains`, for identifier keys: membership, without touching
/// the recency order.
#[verifier::external_body]
pub(crate) fn id_cache_contains(c: &LruCache<u128, ()>, k: u128) -> (r: bool)
    ensures
        r == id_cache_keys(*c).contains(k),
{
    c.contains(&k)
}

/// `LruCache::put`, for identifier keys; see `lru_put`. The capacity stays.
#[verifier::external_body]
pub(crate) fn id_cache_put(c: &mut LruCache<u128, ()>, k: u128)
    ensures
        id_cache_keys(*final(c)) == lru_put(id_cache_keys(*old(c)), id_cache_cap(*old(c)), k),
        id_cache_cap(*final(c)) == id_cache_cap(*old(c)),
{
    c.put(k, ());
}

/// `LruCache::new` with a non-zero capacity, for digest keys: an empty cache
/// of that capacity.
#[verifier::external_body]
pub(crate) fn digest_cache_new(cap: usize) -> (c: LruCache<[u8; 32], ()>)
    requires
        cap > 0,
    ensures
        digest_cache_keys(c) == Seq::<[u8; 32]>::empty(),
        digest_cache_cap(c) == cap,
{
    LruCache::new(NonZeroUsize::new(cap).unwrap())
}

/// `LruCache::contains`, for digest keys: membership, without touching the
/// recency order.
#[verifier::external_body]
pub(crate) fn digest_cache_contains(c: &LruCache<[u8; 32], ()>, k: &[u8; 32]) -> (r: bool)
    ensures
        r == digest_cache_keys(*c).contains(*k),
{
    c.contains(k)
}

/// `LruCache::put`, for digest keys; see `lru_put`. The capacity stays.
#[verifier::external_body]
pub(crate) fn digest_cache_put(c: &mut LruCache<[u8; 32], ()>, k: [u8; 32])
    ensures
        digest_cache_keys(*final(c)) == lru_put(digest_cache_keys(*old(c)), digest_cache_cap(*old(c)), k),
        digest_cache_cap(*final(c)) == digest_cache_cap(*old(c)),
{
    c.put(k, ());
}

} // verus!
