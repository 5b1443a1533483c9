//! Last-writer-wins merging of versioned records.
use vstd::prelude::*;
use std::collections::HashMap;

verus! {

broadcast use vstd::std_specs::hash::group_hash_axioms;

/// A record with an identifier and a version number.
#[derive(Debug)]
pub struct Versioned {
    pub id: u128,
    pub version: u32,
    pub data: Vec<u8>,
}

/// The latest version of each record seen so far.
pub struct ConflictIndex {
    map: HashMap<u128, Versioned>,
}

impl View for ConflictIndex {
    type V = Map<u128, Versioned>;

    closed spec fn view(&self) -> Map<u128, Versioned> {
        self.map@
    }
}

/// Whether merging `incoming` into the records `m` replaces what is stored:
/// it does when no record with its identifier is stored or the stored one
/// has a lower version.
pub open spec fn spec_merge_wins(m: Map<u128, Versioned>, incoming: Versioned) -> bool {
    !m.contains_key(incoming.id) || incoming.version > m[incoming.id].version
}

impl ConflictIndex {
    /// An index with no records.
    pub fn new() -> (c: ConflictIndex)
        ensures
            c@ == Map::<u128, Versioned>::empty(),
    {
        ConflictIndex { map: HashMap::new() }
    }

    /// Stores `incoming` if it is newer than the stored record with its
    /// identifier, or if there is none; reports whether it was stored.
    pub fn merge(&mut self, incoming: Versioned) -> (accepted: bool)
        ensures
            accepted == spec_merge_wins(old(self)@, incoming),
            final(self)@ == if accepted { old(self)@.insert(incoming.id, incoming) } else { old(self)@ },
    {
        let newer = match self.map.get(&incoming.id) {
            Some(existing) => incoming.version > existing.version,
            None => true,
        };
        if newer {
            self.map.insert(incoming.id, incoming);
            true
        } else {
            false
        }
    }

    /// The stored record with identifier `id`, if any.
    pub fn get(&self, id: u128) -> (r: Option<&Versioned>)
        ensures
            r matches Some(v) ==> self@.contains_key(id) && *v == self@[id],
            r is None ==> !self@.contains_key(id),
    {
        self.map.get(&id)
    }
}

/// Merging never lowers the version stored for a record; afterwards the
/// stored version is at least the incoming one; other records are untouched.
pub proof fn lemma_merge_monotone(m: Map<u128, Versioned>, incoming: Versioned)
    ensures
        ({
            let after = if spec_merge_wins(m, incoming) { m.insert(incoming.id, incoming) } else { m };
            &&& after.contains_key(incoming.id)
            &&& m.contains_key(incoming.id) ==> after[incoming.id].version >= m[incoming.id].version
            &&& after[incoming.id].version >= incoming.version
            &&& forall|k: u128| k != incoming.id ==> #[trigger] after.contains_key(k) == m.contains_key(k)
        }),
{
}

} // verus!
