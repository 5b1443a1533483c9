//! Errors of the transport layer.
use vstd::prelude::*;

verus! {

/// Why a transport operation failed.
#[derive(Debug)]
pub enum TransportError {
    NotConnected,
    Timeout,
    IoError,
    FragmentError,
    Internal(String),
}

} // verus!
