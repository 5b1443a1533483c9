//! Node identity, payload sealing, signatures and replay defence.
pub mod random;
pub mod encrypt;
pub mod sign;
pub mod keys;
pub mod replay;
pub mod keystore;
