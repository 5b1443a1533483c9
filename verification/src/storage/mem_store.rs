//! A store that keeps everything in memory.
use vstd::prelude::*;
use crate::storage::traits::Store;

verus! {

/// An in-memory store: key–value pairs, each key at most once.
pub struct MemStore {
    inner: Vec<(Vec<u8>, Vec<u8>)>,
}

/// The contents of a list of stored pairs.
pub open spec fn pairs_view(v: Seq<(Vec<u8>, Vec<u8>)>) -> Seq<(Seq<u8>, Seq<u8>)> {
    v.map_values(|p: (Vec<u8>, Vec<u8>)| (p.0@, p.1@))
}

/// The keys of a list of stored pairs.
pub open spec fn pair_keys(v: Seq<(Seq<u8>, Seq<u8>)>) -> Seq<Seq<u8>> {
    v.map_values(|p: (Seq<u8>, Seq<u8>)| p.0)
}

/// The pairs after storing `val` under `key`: the pair with that key is
/// replaced in place, or the pair appended.
pub open spec fn spec_persist(v: Seq<(Seq<u8>, Seq<u8>)>, key: Seq<u8>, val: Seq<u8>) -> Seq<(Seq<u8>, Seq<u8>)> {
    match pair_keys(v).index_of_first(key) {
        Some(i) => v.update(i, (key, val)),
        None => v.push((key, val)),
    }
}

/// The pairs after removing `key`.
pub open spec fn spec_remove(v: Seq<(Seq<u8>, Seq<u8>)>, key: Seq<u8>) -> Seq<(Seq<u8>, Seq<u8>)> {
    match pair_keys(v).index_of_first(key) {
        Some(i) => v.remove(i),
        None => v,
    }
}

/// Whether two byte strings are equal.
pub fn bytes_equal(a: &[u8], b: &[u8]) -> (r: bool)
    ensures
        r == (a@ == b@),
{
    if a.len() != b.len() {
        return false;
    }
    let mut j: usize = 0;
    while j < a.len()
        invariant
            0 <= j <= a@.len(),
            a@.len() == b@.len(),
            forall|k: int| 0 <= k < j ==> a@[k] == b@[k],
        decreases a@.len() - j,
    {
        if a[j] != b[j] {
            return false;
        }
        j = j + 1;
    }
    assert(a@ =~= b@);
    true
}

impl View for MemStore {
    type V = Seq<(Seq<u8>, Seq<u8>)>;

    closed spec fn view(&self) -> Seq<(Seq<u8>, Seq<u8>)> {
        pairs_view(self.inner@)
    }
}

impl MemStore {
    /// An empty store.
    pub fn new() -> (s: MemStore)
        ensures
            s@ == Seq::<(Seq<u8>, Seq<u8>)>::empty(),
    {
        let s = MemStore { inner: Vec::new() };
        assert(s@ =~= Seq::<(Seq<u8>, Seq<u8>)>::empty());
        s
    }

    /// The position of `key`, if stored.
    fn position(&self, key: &Vec<u8>) -> (r: Option<usize>)
        ensures
            r matches Some(j) ==> pair_keys(self@).index_of_first(key@) == Some(j as int) && j < self.inner@.len(),
            r is None ==> pair_keys(self@).index_of_first(key@) is None,
    {
        let ghost ks = pair_keys(self@);
        let mut j: usize = 0;
        while j < self.inner.len()
            invariant
                0 <= j <= self.inner@.len(),
                ks == pair_keys(self@),
                ks.len() == self.inner@.len(),
                forall|k: int| 0 <= k < j ==> ks[k] != key@,
            decreases self.inner@.len() - j,
        {
            if bytes_equal(self.inner[j].0.as_slice(), key.as_slice()) {
                proof {
                    assert(ks[j as int] == key@);
                    ks.index_of_first_ensures(key@);
                    let f = ks.index_of_first(key@).unwrap();
                    if f < j {
                        assert(ks[f] != key@);
                    }
                    if f > j {
                        assert(ks[j as int] != key@);
                    }
                }
                return Some(j);
            }
            assert(ks[j as int] == self.inner@[j as int].0@);
            j = j + 1;
        }
        proof {
            ks.index_of_first_ensures(key@);
            if ks.contains(key@) {
                let k = choose|k: int| 0 <= k < ks.len() && ks[k] == key@;
                assert(ks[k] != key@);
            }
        }
        None
    }
}

impl Store for MemStore {
    fn persist(&mut self, key: Vec<u8>, val: Vec<u8>)
        ensures
            final(self)@ == spec_persist(old(self)@, key@, val@),
    {
        let ghost before = self.inner@;
        let ghost kv = (key@, val@);
        match self.position(&key) {
            Some(j) => {
                self.inner.set(j, (key, val));
                assert(pairs_view(self.inner@) =~= pairs_view(before).update(j as int, kv));
            },
            None => {
                self.inner.push((key, val));
                assert(pairs_view(self.inner@) =~= pairs_view(before).push(kv));
            },
        }
    }

    fn load_all(&self) -> (r: Vec<Vec<u8>>)
        ensures
            r@.map_values(|v: Vec<u8>| v@) == self@.map_values(|p: (Seq<u8>, Seq<u8>)| p.1),
    {
        let mut r: Vec<Vec<u8>> = Vec::new();
        let mut j: usize = 0;
        while j < self.inner.len()
            invariant
                0 <= j <= self.inner@.len(),
                r@.map_values(|v: Vec<u8>| v@) == self@.take(j as int).map_values(|p: (Seq<u8>, Seq<u8>)| p.1),
            decreases self.inner@.len() - j,
        {
            let v = self.inner[j].1.clone();
            assert(v@ =~= self.inner@[j as int].1@);
            let ghost prev = r@;
            r.push(v);
            proof {
                assert(r@.map_values(|v: Vec<u8>| v@) =~= prev.map_values(|v: Vec<u8>| v@).push(v@));
                assert(self@.take(j + 1).map_values(|p: (Seq<u8>, Seq<u8>)| p.1) =~= self@.take(j as int).map_values(|p: (Seq<u8>, Seq<u8>)| p.1).push(self@[j as int].1));
                assert(self@[j as int].1 == self.inner@[j as int].1@);
            }
            j = j + 1;
        }
        assert(self@.take(self@.len() as int) =~= self@);
        r
    }

    fn remove(&mut self, key: Vec<u8>)
        ensures
            final(self)@ == spec_remove(old(self)@, key@),
    {
        let ghost before = self.inner@;
        match self.position(&key) {
            Some(j) => {
                let _ = self.inner.remove(j);
                assert(pairs_view(self.inner@) =~= pairs_view(before).remove(j as int));
            },
            None => {},
        }
    }
}

/// Storing a value under a key and then looking the key up finds the value.
pub proof fn lemma_persist_then_lookup(v: Seq<(Seq<u8>, Seq<u8>)>, key: Seq<u8>, val: Seq<u8>)
    ensures
        pair_keys(spec_persist(v, key, val)).index_of_first(key) matches Some(i)
            && spec_persist(v, key, val)[i] == (key, val),
{
    let after = spec_persist(v, key, val);
    pair_keys(v).index_of_first_ensures(key);
    match pair_keys(v).index_of_first(key) {
        Some(f) => {
            assert(pair_keys(after) =~= pair_keys(v).update(f, key));
            assert(pair_keys(after)[f] == key);
            assert(pair_keys(after).contains(key));
            pair_keys(after).index_of_first_ensures(key);
            let g = pair_keys(after).index_of_first(key).unwrap();
            if g < f {
                assert(pair_keys(v)[g] == pair_keys(after)[g]);
                assert(pair_keys(v)[g] == key);
            }
            if g > f {
                assert(pair_keys(after)[f] == key);
            }
        },
        None => {
            assert(pair_keys(after) =~= pair_keys(v).push(key));
            assert(pair_keys(after)[v.len() as int] == key);
            assert(pair_keys(after).contains(key));
            pair_keys(after).index_of_first_ensures(key);
            let g = pair_keys(after).index_of_first(key).unwrap();
            if g < v.len() {
                assert(pair_keys(v)[g] == pair_keys(after)[g]);
                assert(pair_keys(v).contains(key));
            }
        },
    }
}

} // verus!
