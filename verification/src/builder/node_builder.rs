//! A builder for mesh nodes.
use vstd::prelude::*;
use std::time::Duration;
use crate::node::Node;

verus! {

/// Collects a node's router, its transport and a tick interval (recorded
/// for later use; a node does not read it).
pub struct NodeBuilder<R, T> {
    pub router: Option<R>,
    pub transport: Option<T>,
    pub tick_interval: Option<Duration>,
}

impl<R, T> NodeBuilder<R, T> {
    /// A builder with nothing set.
    pub fn new() -> (b: Self)
        ensures
            b.router is None,
            b.transport is None,
            b.tick_interval is None,
    {
        NodeBuilder { router: None, transport: None, tick_interval: None }
    }

    /// Sets the router.
    pub fn with_router(self, router: R) -> (b: Self)
        ensures
            b == (NodeBuilder { router: Some(router), ..self }),
    {
        NodeBuilder { router: Some(router), ..self }
    }

    /// Sets the transport.
    pub fn with_transport(self, transport: T) -> (b: Self)
        ensures
            b == (NodeBuilder { transport: Some(transport), ..self }),
    {
        NodeBuilder { transport: Some(transport), ..self }
    }

    /// Sets the tick interval.
    pub fn with_tick_interval(self, interval: Duration) -> (b: Self)
        ensures
            b == (NodeBuilder { tick_interval: Some(interval), ..self }),
    {
        NodeBuilder { tick_interval: Some(interval), ..self }
    }

    /// The node with the given router and transport. Fails when no router,
    /// or else no transport, was set.
    pub fn build(self) -> (r: Result<Node<R, T>, String>)
        ensures
            self.router is None ==> (r matches Err(e) && e@ == "Router is required"@),
            self.router is Some && self.transport is None ==> (r matches Err(e) && e@ == "Transport is required"@),
            self.router is Some && self.transport is Some ==> (r matches Ok(n) && Some(n.router) == self.router
                && Some(n.transport) == self.transport),
    {
        let router = match self.router {
            Some(r) => r,
            None => return Err("Router is required".to_string()),
        };
        let transport = match self.transport {
            Some(t) => t,
            None => return Err("Transport is required".to_string()),
        };
        Ok(Node::new(router, transport))
    }
}

} // verus!
