//! The persistent form of a node's key pair: 64 bytes, the secret key then
//! the public key.
use vstd::prelude::*;
use zeroize::Zeroize;
use crate::crypto::keys::NodeKeys;
use crate::crypto::sign::ed_public_key;

verus! {

/// The database key under which the node's key pair is stored.
pub const NODE_KEYPAIR_KEY: &'static str = "node_keypair";

/// A key pair as separate byte strings. The holder is to call `wipe` when
/// done, which erases the secret half.
pub struct StoredKeypair {
    pub secret: Vec<u8>,
    pub public: Vec<u8>,
}

/// `Zeroize::zeroize` on a byte vector: overwrites its bytes with zeros and
/// then empties it.
#[verifier::external_body]
fn zeroize_vec(v: &mut Vec<u8>)
    ensures
        final(v)@.len() == 0,
{
    v.zeroize();
}

impl StoredKeypair {
    /// A stored key pair from its two halves.
    pub fn new(secret: Vec<u8>, public: Vec<u8>) -> (k: StoredKeypair)
        ensures
            k.secret@ == secret@,
            k.public@ == public@,
    {
        StoredKeypair { secret, public }
    }

    /// Wipes the secret half.
    pub fn wipe(&mut self)
        ensures
            final(self).secret@.len() == 0,
            final(self).public@ == old(self).public@,
    {
        zeroize_vec(&mut self.secret);
    }
}

/// The 64-byte record of a key pair: secret key, then public key.
pub fn keypair_bytes(keys: &NodeKeys) -> (buf: [u8; 64])
    ensures
        buf@ == keys.secret() + keys.public(),
{
    let secret = keys.secret_bytes();
    let public = keys.public_bytes();
    let mut buf = [0u8; 64];
    let mut i: usize = 0;
    while i < 32
        invariant
            0 <= i <= 32,
            secret@.len() == 32,
            public@.len() == 32,
            forall|j: int| 0 <= j < i ==> buf@[j] == secret@[j],
            forall|j: int| 32 <= j < 32 + i ==> buf@[j] == public@[j - 32],
        decreases 32 - i,
    {
        buf[i] = secret[i];
        buf[32 + i] = public[i];
        i = i + 1;
    }
    assert(buf@ =~= secret@ + public@);
    buf
}

/// The key pair of a 64-byte record: the secret key from its first 32
/// bytes (the public key is derived again); `None` for any other length.
pub fn keys_from_keypair_bytes(buf: &[u8]) -> (k: Option<NodeKeys>)
    ensures
        k is Some <==> buf@.len() == 64,
        k matches Some(keys) ==> keys.secret() == buf@.subrange(0, 32) && keys.public() == ed_public_key(buf@.subrange(0, 32)),
{
    if buf.len() != 64 {
        return None;
    }
    let mut secret = [0u8; 32];
    let mut i: usize = 0;
    while i < 32
        invariant
            0 <= i <= 32,
            buf@.len() == 64,
            forall|j: int| 0 <= j < i ==> secret@[j] == buf@[j],
        decreases 32 - i,
    {
        secret[i] = buf[i];
        i = i + 1;
    }
    assert(secret@ =~= buf@.subrange(0, 32));
    let keys = NodeKeys::from_secret_bytes(&secret);
    Some(keys)
}

/// Storing a key pair and loading it back gives the same key pair.
pub proof fn lemma_keypair_roundtrip(secret: Seq<u8>, public: Seq<u8>)
    requires
        secret.len() == 32,
        public.len() == 32,
        public == ed_public_key(secret),
    ensures
        (secret + public).len() == 64,
        (secret + public).subrange(0, 32) == secret,
        ed_public_key((secret + public).subrange(0, 32)) == public,
{
    assert((secret + public).subrange(0, 32) =~= secret);
}

} // verus!
