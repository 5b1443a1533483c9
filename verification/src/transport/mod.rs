//! Transport-level logic: BLE fragmentation, reassembly, acknowledgements
//! and connection bookkeeping, and the transport error type.
pub mod error;
pub mod fragment;
pub mod reassembly;
pub mod messaging;
pub mod connection;
pub mod link;
pub mod discovery;
