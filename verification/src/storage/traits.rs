//! The interface of an envelope store.
use vstd::prelude::*;

verus! {

/// A keyed store of serialized envelopes.
pub trait Store {
    /// Stores `val` under `key`, replacing what was there.
    fn persist(&mut self, key: Vec<u8>, val: Vec<u8>);

    /// All stored values.
    fn load_all(&self) -> Vec<Vec<u8>>;

    /// Removes what is stored under `key`.
    fn remove(&mut self, key: Vec<u8>);
}

} // verus!
