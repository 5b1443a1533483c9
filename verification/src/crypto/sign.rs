//! Ed25519 signatures over byte strings.
use vstd::prelude::*;
use ed25519_dalek::{Signer, Verifier};

verus! {

/// The Ed25519 public key that belongs to the 32-byte secret key `secret`.
pub uninterp spec fn ed_public_key(secret: Seq<u8>) -> Seq<u8>;

/// The Ed25519 signature of `msg` by the secret key `secret`.
pub uninterp spec fn ed_signature(secret: Seq<u8>, msg: Seq<u8>) -> Seq<u8>;

/// Whether `sig` is a valid Ed25519 signature of `msg` under the public key
/// `public` (false when `public` is not a valid point).
pub uninterp spec fn ed_verifies(public: Seq<u8>, msg: Seq<u8>, sig: Seq<u8>) -> bool;

/// `SigningKey::from_bytes(secret).verifying_key().to_bytes()`.
#[verifier::external_body]
pub(crate) fn ed_derive_public(secret: &[u8; 32]) -> (public: [u8; 32])
    ensures
        public@ == ed_public_key(secret@),
{
    ed25519_dalek::SigningKey::from_bytes(secret).verifying_key().to_bytes()
}

/// `SigningKey::from_bytes(secret).sign(msg).to_bytes()`: the signature,
/// which verifies under the public key of the same secret key.
#[verifier::external_body]
fn ed_sign(secret: &[u8; 32], msg: &[u8]) -> (sig: [u8; 64])
    ensures
        sig@ == ed_signature(secret@, msg@),
        ed_verifies(ed_public_key(secret@), msg@, sig@),
{
    ed25519_dalek::SigningKey::from_bytes(secret).sign(msg).to_bytes()
}

/// `VerifyingKey::from_bytes(public)` then `verify(msg, sig)`: whether the
/// signature verifies; false when the key bytes are not a valid point.
#[verifier::external_body]
fn ed_verify(public: &[u8; 32], msg: &[u8], sig: &[u8; 64]) -> (ok: bool)
    ensures
        ok == ed_verifies(public@, msg@, sig@),
{
    match ed25519_dalek::VerifyingKey::from_bytes(public) {
        Ok(k) => k.verify(msg, &ed25519_dalek::Signature::from_bytes(sig)).is_ok(),
        Err(_) => false,
    }
}

/// An Ed25519 signature in its 64-byte form.
#[derive(Clone, Copy, Debug)]
pub struct Signature {
    pub bytes: [u8; 64],
}

/// Signs `msg` with the secret key `sk`.
pub fn sign_message(sk: &[u8; 32], msg: &[u8]) -> (sig: Signature)
    ensures
        sig.bytes@ == ed_signature(sk@, msg@),
        ed_verifies(ed_public_key(sk@), msg@, sig.bytes@),
{
    Signature { bytes: ed_sign(sk, msg) }
}

/// Whether `sig` is a valid signature of `msg` under the public key `pk`.
pub fn verify_message(pk: &[u8; 32], msg: &[u8], sig: &Signature) -> (ok: bool)
    ensures
        ok == ed_verifies(pk@, msg@, sig.bytes@),
{
    ed_verify(pk, msg, &sig.bytes)
}

/// The 64 bytes of a signature.
pub fn signature_to_bytes(sig: &Signature) -> (b: [u8; 64])
    ensures
        b == sig.bytes,
{
    sig.bytes
}

/// The signature whose 64 bytes are `b`.
pub fn signature_from_bytes(b: &[u8; 64]) -> (sig: Signature)
    ensures
        sig.bytes == *b,
{
    Signature { bytes: *b }
}

} // verus!
