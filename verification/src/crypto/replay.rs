//! Replay defence: remembers the SHA-256 digests of recently accepted
//! signed material.
use vstd::prelude::*;
use lru::LruCache;
use sha2::Digest;
use crate::lru_cache::{
    digest_cache_new, digest_cache_contains, digest_cache_put, digest_cache_keys,
    digest_cache_cap, lru_put,
};
use crate::dedup::lemma_lru_put_absent;

verus! {

/// The SHA-256 digest of `data`.
pub uninterp spec fn sha256_digest(data: Seq<u8>) -> Seq<u8>;

/// `Sha256::new()`, `update(data)`, `finalize()`: the 32-byte digest.
#[verifier::external_body]
fn sha256(data: &[u8]) -> (d: [u8; 32])
    ensures
        d@ == sha256_digest(data@),
{
    let mut h = sha2::Sha256::new();
    h.update(data);
    h.finalize().into()
}

/// Remembers the digests of recently accepted messages, up to a capacity.
pub struct ReplayGuard {
    seen: LruCache<[u8; 32], ()>,
}

/// What a replay guard remembers: digests, least recently inserted first,
/// and its capacity.
pub struct ReplayView {
    pub digests: Seq<Seq<u8>>,
    pub cap: nat,
}

impl ReplayView {
    /// The guard has room for at least one digest, remembers each at most
    /// once and no more than its capacity.
    pub open spec fn wf(self) -> bool {
        &&& self.cap > 0
        &&& self.digests.no_duplicates()
        &&& self.digests.len() <= self.cap
    }
}

/// The byte strings of a sequence of digests.
pub open spec fn digest_views(keys: Seq<[u8; 32]>) -> Seq<Seq<u8>> {
    keys.map_values(|k: [u8; 32]| k@)
}

impl View for ReplayGuard {
    type V = ReplayView;

    closed spec fn view(&self) -> ReplayView {
        ReplayView { digests: digest_views(digest_cache_keys(self.seen)), cap: digest_cache_cap(self.seen) }
    }
}

/// A sequence of digest arrays holds an array exactly when its byte strings
/// hold the array's bytes.
proof fn lemma_digest_views_contains(keys: Seq<[u8; 32]>, k: [u8; 32])
    ensures
        keys.contains(k) <==> digest_views(keys).contains(k@),
{
    if digest_views(keys).contains(k@) {
        let i = choose|i: int| 0 <= i < digest_views(keys).len() && digest_views(keys)[i] == k@;
        assert(keys[i]@ == k@);
        assert(keys[i] =~= k);
    }
    if keys.contains(k) {
        let i = choose|i: int| 0 <= i < keys.len() && keys[i] == k;
        assert(digest_views(keys)[i] == k@);
    }
}

/// Byte strings of arrays are duplicate-free exactly when the arrays are.
proof fn lemma_digest_views_no_duplicates(keys: Seq<[u8; 32]>)
    ensures
        keys.no_duplicates() <==> digest_views(keys).no_duplicates(),
{
    let v = digest_views(keys);
    if keys.no_duplicates() {
        assert forall|i: int, j: int| 0 <= i < v.len() && 0 <= j < v.len() && i != j implies v[i] != v[j] by {
            if v[i] == v[j] {
                assert(keys[i] =~= keys[j]);
            }
        }
    }
    if v.no_duplicates() {
        assert forall|i: int, j: int| 0 <= i < keys.len() && 0 <= j < keys.len() && i != j implies keys[i] != keys[j] by {
            if keys[i] == keys[j] {
                assert(v[i] == v[j]);
            }
        }
    }
}

/// Putting an absent digest commutes with taking byte strings.
proof fn lemma_digest_views_put(keys: Seq<[u8; 32]>, cap: nat, k: [u8; 32])
    requires
        !keys.contains(k),
        cap > 0,
    ensures
        digest_views(lru_put(keys, cap, k)) == lru_put(digest_views(keys), cap, k@),
{
    lemma_digest_views_contains(keys, k);
    if keys.len() >= cap {
        assert(digest_views(keys.drop_first().push(k)) =~= digest_views(keys).drop_first().push(k@));
    } else {
        assert(digest_views(keys.push(k)) =~= digest_views(keys).push(k@));
    }
}

impl ReplayGuard {
    /// An empty guard for up to `cap` digests; the capacity must be non-zero.
    pub fn new(cap: usize) -> (g: ReplayGuard)
        requires
            cap > 0,
        ensures
            g@.digests == Seq::<Seq<u8>>::empty(),
            g@.cap == cap,
            g@.wf(),
    {
        let g = ReplayGuard { seen: digest_cache_new(cap) };
        assert(g@.digests =~= Seq::<Seq<u8>>::empty());
        g
    }

    /// The SHA-256 digest of `data`.
    pub fn digest(data: &[u8]) -> (d: [u8; 32])
        ensures
            d@ == sha256_digest(data@),
    {
        sha256(data)
    }

    /// True, and the digest of `data` is remembered, when the digest was not
    /// remembered yet; false (a replay) when it was.
    pub fn check_and_insert(&mut self, data: &[u8]) -> (fresh: bool)
        requires
            old(self)@.wf(),
        ensures
            fresh == !old(self)@.digests.contains(sha256_digest(data@)),
            final(self)@.cap == old(self)@.cap,
            final(self)@.digests == if fresh {
                lru_put(old(self)@.digests, old(self)@.cap, sha256_digest(data@))
            } else {
                old(self)@.digests
            },
            final(self)@.wf(),
            final(self)@.digests.contains(sha256_digest(data@)),
    {
        let id = Self::digest(data);
        let ghost keys = digest_cache_keys(self.seen);
        proof {
            lemma_digest_views_contains(keys, id);
            lemma_digest_views_no_duplicates(keys);
        }
        if digest_cache_contains(&self.seen, &id) {
            false
        } else {
            proof {
                lemma_lru_put_absent(keys, digest_cache_cap(self.seen), id);
                lemma_digest_views_put(keys, digest_cache_cap(self.seen), id);
                lemma_digest_views_no_duplicates(lru_put(keys, digest_cache_cap(self.seen), id));
                lemma_digest_views_contains(lru_put(keys, digest_cache_cap(self.seen), id), id);
                assert(keys.len() == digest_views(keys).len());
            }
            digest_cache_put(&mut self.seen, id);
            true
        }
    }
}

/// Once data has been accepted as fresh, the next check of the same data
/// reports a replay: the guard then remembers its digest.
pub proof fn lemma_replay_detected(g: ReplayView, data: Seq<u8>)
    requires
        g.wf(),
        !g.digests.contains(sha256_digest(data)),
    ensures
        lru_put(g.digests, g.cap, sha256_digest(data)).contains(sha256_digest(data)),
        (ReplayView { digests: lru_put(g.digests, g.cap, sha256_digest(data)), cap: g.cap }).wf(),
{
    lemma_lru_put_absent(g.digests, g.cap, sha256_digest(data));
}

} // verus!
