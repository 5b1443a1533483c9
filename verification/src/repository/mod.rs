//! Data access behind a repository interface.
pub mod traits;
pub mod alert_repository;
