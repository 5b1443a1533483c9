//! Making routers with a fresh or a given identity.
use vstd::prelude::*;
use crate::crypto::encrypt::SymKey;
use crate::crypto::keys::NodeKeys;
use crate::crypto::random::fill_random;
use crate::crypto::sign::ed_public_key;
use crate::router::{Router, DEDUP_CAPACITY, REPLAY_CAPACITY};

verus! {

/// Makes routers.
pub struct RouterFactory;

impl RouterFactory {
    /// A router with a freshly generated key pair and a random shared key.
    pub fn create() -> (r: Router)
        ensures
            r@.wf(),
            r@.secret.len() == 32,
            r@.public == ed_public_key(r@.secret),
            r@.sym_key.len() == 32,
            r@.dedup.ids.len() == 0,
            r@.dedup.cap == DEDUP_CAPACITY,
            r@.replay.digests.len() == 0,
            r@.replay.cap == REPLAY_CAPACITY,
            r@.queue.is_empty(),
    {
        let keys = NodeKeys::generate();
        let mut sym_key: SymKey = [0u8; 32];
        fill_random(&mut sym_key);
        Router::new(keys, sym_key)
    }

    /// A router with the given key pair and shared key.
    pub fn create_with_keys(keys: NodeKeys, sym_key: SymKey) -> (r: Router)
        ensures
            r@.wf(),
            r@.secret == keys.secret(),
            r@.public == keys.public(),
            r@.sym_key == sym_key@,
            r@.dedup.ids.len() == 0,
            r@.dedup.cap == DEDUP_CAPACITY,
            r@.replay.digests.len() == 0,
            r@.replay.cap == REPLAY_CAPACITY,
            r@.queue.is_empty(),
    {
        Router::new(keys, sym_key)
    }
}

} // verus!
