//! Identifier-based duplicate suppression for received envelopes.
use vstd::prelude::*;
use lru::LruCache;
use crate::lru_cache::{id_cache_new, id_cache_contains, id_cache_put, id_cache_keys, id_cache_cap, lru_put};

verus! {

/// Remembers the most recently seen message identifiers, up to a capacity.
pub struct DedupCache {
    cache: LruCache<u128, ()>,
}

/// What a deduplication cache remembers: identifiers, least recently
/// inserted first, and its capacity.
pub struct DedupView {
    pub ids: Seq<u128>,
    pub cap: nat,
}

impl DedupView {
    /// The cache has room for at least one identifier, remembers each at
    /// most once and no more than its capacity.
    pub open spec fn wf(self) -> bool {
        &&& self.cap > 0
        &&& self.ids.no_duplicates()
        &&& self.ids.len() <= self.cap
    }
}

impl View for DedupCache {
    type V = DedupView;

    closed spec fn view(&self) -> DedupView {
        DedupView { ids: id_cache_keys(self.cache), cap: id_cache_cap(self.cache) }
    }
}

/// Appending an absent key to a duplicate-free bounded sequence, evicting the
/// oldest key when full, keeps it duplicate-free and bounded, and the key is
/// then present.
pub proof fn lemma_lru_put_absent<K>(keys: Seq<K>, cap: nat, k: K)
    requires
        cap > 0,
        keys.no_duplicates(),
        keys.len() <= cap,
        !keys.contains(k),
    ensures
        lru_put(keys, cap, k).no_duplicates(),
        lru_put(keys, cap, k).len() <= cap,
        lru_put(keys, cap, k).contains(k),
        lru_put(keys, cap, k).last() == k,
        forall|x: K| #[trigger] lru_put(keys, cap, k).contains(x) ==> x == k || keys.contains(x),
{
    let r = lru_put(keys, cap, k);
    if keys.len() >= cap {
        let d = keys.drop_first();
        assert(d.no_duplicates());
        assert forall|x: K| #[trigger] d.contains(x) implies keys.contains(x) by {
            let i = choose|i: int| 0 <= i < d.len() && d[i] == x;
            assert(keys[i + 1] == x);
        }
        assert(r == d.push(k));
    } else {
        assert(r == keys.push(k));
    }
    assert(r[r.len() - 1] == k);
}

impl DedupCache {
    /// An empty cache for up to `cap` identifiers; the capacity must be
    /// non-zero.
    pub fn new(cap: usize) -> (d: DedupCache)
        requires
            cap > 0,
        ensures
            d@.ids == Seq::<u128>::empty(),
            d@.cap == cap,
            d@.wf(),
    {
        DedupCache { cache: id_cache_new(cap) }
    }

    /// Reports whether `id` was seen before; if it was not, remembers it
    /// (evicting the least recently remembered identifier when full).
    pub fn seen(&mut self, id: u128) -> (r: bool)
        requires
            old(self)@.wf(),
        ensures
            r == old(self)@.ids.contains(id),
            final(self)@.cap == old(self)@.cap,
            final(self)@.ids == if r { old(self)@.ids } else { lru_put(old(self)@.ids, old(self)@.cap, id) },
            final(self)@.wf(),
            final(self)@.ids.contains(id),
    {
        if id_cache_contains(&self.cache, id) {
            return true;
        }
        proof {
            lemma_lru_put_absent(self@.ids, self@.cap, id);
        }
        id_cache_put(&mut self.cache, id);
        false
    }
}

/// Once an identifier has been reported unseen, the next lookup of the same
/// identifier reports it seen: a duplicate is never let through twice in a
/// row.
pub proof fn lemma_second_sighting_is_duplicate(d: DedupView, id: u128)
    requires
        d.wf(),
        !d.ids.contains(id),
    ensures
        lru_put(d.ids, d.cap, id).contains(id),
        (DedupView { ids: lru_put(d.ids, d.cap, id), cap: d.cap }).wf(),
{
    lemma_lru_put_absent(d.ids, d.cap, id);
}

} // verus!
