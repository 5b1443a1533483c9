//! Stores for envelopes held while no peer is reachable.
pub mod traits;
pub mod mem_store;
pub mod store_factory;
