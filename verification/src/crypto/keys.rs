//! A node's Ed25519 identity.
use vstd::prelude::*;
use crate::crypto::random::fill_random;
use crate::crypto::sign::{ed_derive_public, ed_public_key};

verus! {

/// A node's key pair: the 32-byte secret key and the public key derived
/// from it.
pub struct NodeKeys {
    signing: [u8; 32],
    verify: [u8; 32],
}

impl NodeKeys {
    /// The public half is the one derived from the secret half.
    #[verifier::type_invariant]
    pub(crate) open spec fn wf(self) -> bool {
        self.public() == ed_public_key(self.secret())
    }

    /// The secret key.
    pub closed spec fn secret(self) -> Seq<u8> {
        self.signing@
    }

    /// The public key.
    pub closed spec fn public(self) -> Seq<u8> {
        self.verify@
    }

    /// A secret key has 32 bytes.
    pub proof fn lemma_secret_len(&self)
        ensures
            self.secret().len() == 32,
    {
    }

    /// A fresh key pair from 32 random bytes.
    pub fn generate() -> (k: NodeKeys)
        ensures
            k.public() == ed_public_key(k.secret()),
            k.secret().len() == 32,
    {
        let mut bytes = [0u8; 32];
        fill_random(&mut bytes);
        Self::from_secret_bytes(&bytes)
    }

    /// The secret signing key.
    pub fn signing_key(&self) -> (sk: &[u8; 32])
        ensures
            sk@ == self.secret(),
    {
        &self.signing
    }

    /// The public verifying key.
    pub fn verifying_key(&self) -> (pk: &[u8; 32])
        ensures
            pk@ == self.public(),
            self.public() == ed_public_key(self.secret()),
    {
        proof {
            use_type_invariant(self);
        }
        &self.verify
    }

    /// The 32 bytes of the public key.
    pub fn public_bytes(&self) -> (b: [u8; 32])
        ensures
            b@ == self.public(),
            self.public() == ed_public_key(self.secret()),
    {
        proof {
            use_type_invariant(self);
        }
        self.verify
    }

    /// The 32 bytes of the secret key, for persistence; the caller is to wipe
    /// them when done.
    pub fn secret_bytes(&self) -> (b: [u8; 32])
        ensures
            b@ == self.secret(),
    {
        self.signing
    }

    /// The key pair of a persisted secret key.
    pub fn from_secret_bytes(bytes: &[u8; 32]) -> (k: NodeKeys)
        ensures
            k.secret() == bytes@,
            k.public() == ed_public_key(bytes@),
    {
        let verify = ed_derive_public(bytes);
        NodeKeys { signing: *bytes, verify }
    }

    /// A new key pair to replace the current one.
    pub fn rotate() -> (k: NodeKeys)
        ensures
            k.public() == ed_public_key(k.secret()),
            k.secret().len() == 32,
    {
        Self::generate()
    }
}

} // verus!
