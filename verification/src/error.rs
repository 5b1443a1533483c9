//! Error types of the mesh core.
use vstd::prelude::*;

verus! {

/// Why a mesh operation failed, with a description.
#[derive(Debug, PartialEq, Eq)]
pub enum MeshError {
    Storage(String),
    Transport(String),
    Crypto(String),
    Routing(String),
    Serialization(String),
    Configuration(String),
    Runtime(String),
    InvalidInput(String),
}

/// Result of a mesh operation.
pub type MeshResult<T> = Result<T, MeshError>;

/// Why an alert could not be made.
#[derive(Debug, PartialEq, Eq, Structural)]
pub enum AlertError {
    InvalidCoordinates,
}

} // verus!
