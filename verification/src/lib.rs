//! Argus Mesh core: secure store-carry-forward alert routing for offline
//! device meshes.
pub mod clock;
pub mod ids;
pub mod envelope;
pub mod propagation;
pub mod priority_queue;
pub mod lru_cache;
pub mod dedup;
pub mod crypto;
pub mod router;
pub mod transport;
pub mod conflict;
pub mod types;
pub mod error;
pub mod api;
pub mod alert_index;
pub mod runtime;
pub mod storage;
pub mod repository;
pub mod services;
pub mod sim;
pub mod node;
pub mod builder;
pub mod factory;
