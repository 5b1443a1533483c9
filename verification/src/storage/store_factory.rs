//! Making stores by kind.
use vstd::prelude::*;
use crate::error::MeshResult;
use crate::storage::mem_store::MemStore;

verus! {

/// The kinds of store.
#[derive(Debug, Clone, Copy, PartialEq, Eq, Structural)]
pub enum StoreType {
    Memory,
}

/// Makes stores.
pub struct StoreFactory;

impl StoreFactory {
    /// A new, empty store of the given kind.
    pub fn create(store_type: StoreType) -> (r: MeshResult<MemStore>)
        ensures
            r matches Ok(s) && s@.len() == 0,
    {
        match store_type {
            StoreType::Memory => Ok(MemStore::new()),
        }
    }

    /// A new, empty in-memory store.
    pub fn create_default() -> (r: MeshResult<MemStore>)
        ensures
            r matches Ok(s) && s@.len() == 0,
    {
        Self::create(StoreType::Memory)
    }
}

} // verus!
