//! Step-by-step construction of routers and nodes.
pub mod router_builder;
pub mod node_builder;
