//! Services that coordinate the alert index, the runtime state and the
//! router for the user interface.
pub mod alert_service;
pub mod mesh_service;
