//! A mesh node: a router and the transport it talks through. The event
//! loop that drives it lives with the caller.
use vstd::prelude::*;

verus! {

/// A node's router handle and transport handle.
pub struct Node<R, T> {
    pub router: R,
    pub transport: T,
}

impl<R, T> Node<R, T> {
    /// A node of `router` and `transport`.
    pub fn new(router: R, transport: T) -> (n: Self)
        ensures
            n.router == router,
            n.transport == transport,
    {
        Node { router, transport }
    }
}

} // verus!
