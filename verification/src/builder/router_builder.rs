//! A builder that gathers what a router is wired to and its identity.
use vstd::prelude::*;
use crate::crypto::encrypt::SymKey;
use crate::crypto::keys::NodeKeys;
use crate::crypto::random::fill_random;
use crate::crypto::sign::ed_public_key;
use crate::router::{Router, DEDUP_CAPACITY, REPLAY_CAPACITY};

verus! {

/// The configured cache size, or `default` where none or zero was given.
pub open spec fn size_or_default(size: Option<usize>, default: usize) -> usize {
    match size {
        Some(n) => if n > 0 { n } else { default },
        None => default,
    }
}

/// Collects a transport, a store, a key pair, a shared key and cache sizes
/// for a router.
pub struct RouterBuilder<T, S> {
    pub transport: Option<T>,
    pub store: Option<S>,
    pub keys: Option<NodeKeys>,
    pub sym_key: Option<SymKey>,
    pub dedup_size: Option<usize>,
    pub replay_size: Option<usize>,
}

impl<T, S> RouterBuilder<T, S> {
    /// A builder with nothing set.
    pub fn new() -> (b: Self)
        ensures
            b.transport is None,
            b.store is None,
            b.keys is None,
            b.sym_key is None,
            b.dedup_size is None,
            b.replay_size is None,
    {
        RouterBuilder {
            transport: None,
            store: None,
            keys: None,
            sym_key: None,
            dedup_size: None,
            replay_size: None,
        }
    }

    /// Sets the transport.
    pub fn with_transport(self, transport: T) -> (b: Self)
        ensures
            b == (RouterBuilder { transport: Some(transport), ..self }),
    {
        RouterBuilder { transport: Some(transport), ..self }
    }

    /// Sets the store.
    pub fn with_store(self, store: S) -> (b: Self)
        ensures
            b == (RouterBuilder { store: Some(store), ..self }),
    {
        RouterBuilder { store: Some(store), ..self }
    }

    /// Sets the key pair.
    pub fn with_keys(self, keys: NodeKeys) -> (b: Self)
        ensures
            b == (RouterBuilder { keys: Some(keys), ..self }),
    {
        RouterBuilder { keys: Some(keys), ..self }
    }

    /// Sets the shared key.
    pub fn with_sym_key(self, sym_key: SymKey) -> (b: Self)
        ensures
            b == (RouterBuilder { sym_key: Some(sym_key), ..self }),
    {
        RouterBuilder { sym_key: Some(sym_key), ..self }
    }

    /// Sets the deduplication cache size.
    pub fn with_dedup_size(self, size: usize) -> (b: Self)
        ensures
            b == (RouterBuilder { dedup_size: Some(size), ..self }),
    {
        RouterBuilder { dedup_size: Some(size), ..self }
    }

    /// Sets the replay guard size.
    pub fn with_replay_size(self, size: usize) -> (b: Self)
        ensures
            b == (RouterBuilder { replay_size: Some(size), ..self }),
    {
        RouterBuilder { replay_size: Some(size), ..self }
    }

    /// The transport and store, and a router with the given key pair (a
    /// fresh one if none was given), shared key (a random one if none was
    /// given) and cache sizes (50 000 each where none, or zero, was given).
    /// Fails when no transport, or else no store, was set.
    pub fn build(self) -> (r: Result<(T, S, Router), String>)
        ensures
            self.transport is None ==> (r matches Err(e) && e@ == "Transport is required"@),
            self.transport is Some && self.store is None ==> (r matches Err(e) && e@ == "Store is required"@),
            self.transport is Some && self.store is Some ==> (r matches Ok((t, s, rt)) && {
                &&& Some(t) == self.transport
                &&& Some(s) == self.store
                &&& rt@.wf()
                &&& rt@.public == ed_public_key(rt@.secret)
                &&& (self.keys matches Some(k) ==> rt@.secret == k.secret() && rt@.public == k.public())
                &&& rt@.secret.len() == 32
                &&& (self.sym_key matches Some(key) ==> rt@.sym_key == key@)
                &&& rt@.sym_key.len() == 32
                &&& rt@.dedup.ids.len() == 0
                &&& rt@.dedup.cap == size_or_default(self.dedup_size, DEDUP_CAPACITY)
                &&& rt@.replay.digests.len() == 0
                &&& rt@.replay.cap == size_or_default(self.replay_size, REPLAY_CAPACITY)
                &&& rt@.queue.is_empty()
            }),
    {
        let transport = match self.transport {
            Some(t) => t,
            None => return Err("Transport is required".to_string()),
        };
        let store = match self.store {
            Some(s) => s,
            None => return Err("Store is required".to_string()),
        };
        let keys = match self.keys {
            Some(k) => k,
            None => NodeKeys::generate(),
        };
        let sym_key = match self.sym_key {
            Some(key) => key,
            None => {
                let mut key: SymKey = [0u8; 32];
                fill_random(&mut key);
                key
            },
        };
        proof {
            keys.lemma_secret_len();
        }
        let dedup_cap = match self.dedup_size {
            Some(n) if n > 0 => n,
            _ => DEDUP_CAPACITY,
        };
        let replay_cap = match self.replay_size {
            Some(n) if n > 0 => n,
            _ => REPLAY_CAPACITY,
        };
        let router = Router::with_capacities(keys, sym_key, dedup_cap, replay_cap);
        Ok((transport, store, router))
    }
}

} // verus!
