//! Factories that assemble mesh components.
pub mod router_factory;
