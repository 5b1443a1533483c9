//! Authenticated encryption of payloads with ChaCha20-Poly1305.
use vstd::prelude::*;
use chacha20poly1305::aead::{Aead, KeyInit};
use crate::crypto::random::fill_random;

verus! {

/// A 256-bit symmetric key.
pub type SymKey = [u8; 32];

/// A 96-bit nonce.
pub type NonceBytes = [u8; 12];

/// Length of the authentication tag that sealing appends.
pub const TAG_LEN: usize = 16;

/// Largest plaintext, in bytes, that ChaCha20-Poly1305 seals: fewer than
/// `u32::MAX` blocks of 64 bytes.
pub open spec fn sealable(len: nat) -> bool {
    len / 64 < 0xffff_ffff
}

/// The ciphertext (with its tag) that ChaCha20-Poly1305 produces for
/// `plaintext` under `key` and `nonce`, with empty associated data.
pub uninterp spec fn aead_seal(key: Seq<u8>, nonce: Seq<u8>, plaintext: Seq<u8>) -> Seq<u8>;

/// What ChaCha20-Poly1305 decryption of `ciphertext` under `key` and `nonce`
/// gives: the plaintext when the tag authenticates, `None` otherwise.
pub uninterp spec fn aead_open(key: Seq<u8>, nonce: Seq<u8>, ciphertext: Seq<u8>) -> Option<Seq<u8>>;

/// `ChaCha20Poly1305::encrypt` with empty associated data. It succeeds
/// exactly for sealable lengths; the result is the plaintext's length plus
/// the tag, and decryption under the same key and nonce gives the plaintext
/// back.
#[verifier::external_body]
fn chacha_seal(key: &SymKey, nonce: &NonceBytes, plaintext: &[u8]) -> (r: Result<Vec<u8>, ()>)
    ensures
        r is Ok <==> sealable(plaintext@.len()),
        r matches Ok(ct) ==> {
            &&& ct@ == aead_seal(key@, nonce@, plaintext@)
            &&& ct@.len() == plaintext@.len() + TAG_LEN
            &&& aead_open(key@, nonce@, ct@) == Some(plaintext@)
        },
{
    let cipher = chacha20poly1305::ChaCha20Poly1305::new(chacha20poly1305::Key::from_slice(key));
    cipher.encrypt(chacha20poly1305::Nonce::from_slice(nonce), plaintext).map_err(|_| ())
}

/// `ChaCha20Poly1305::decrypt` with empty associated data: the plaintext
/// when the tag authenticates, an error otherwise.
#[verifier::external_body]
fn chacha_open(key: &SymKey, nonce: &NonceBytes, ciphertext: &[u8]) -> (r: Result<Vec<u8>, ()>)
    ensures
        match r {
            Ok(p) => aead_open(key@, nonce@, ciphertext@) == Some(p@),
            Err(_) => aead_open(key@, nonce@, ciphertext@) is None,
        },
{
    let cipher = chacha20poly1305::ChaCha20Poly1305::new(chacha20poly1305::Key::from_slice(key));
    cipher.decrypt(chacha20poly1305::Nonce::from_slice(nonce), ciphertext).map_err(|_| ())
}

/// Seals `plaintext` under `key` with a fresh random nonce; returns the
/// ciphertext (the plaintext's length plus the tag) and the nonce. Fails only for plaintexts too long to seal.
pub fn encrypt(key: &SymKey, plaintext: &[u8]) -> (r: Result<(Vec<u8>, NonceBytes), ()>)
    ensures
        r is Ok <==> sealable(plaintext@.len()),
        r matches Ok((ct, nonce)) ==> {
            &&& ct@ == aead_seal(key@, nonce@, plaintext@)
            &&& ct@.len() == plaintext@.len() + TAG_LEN
            &&& aead_open(key@, nonce@, ct@) == Some(plaintext@)
        },
{
    let mut nonce = [0u8; 12];
    fill_random(&mut nonce);
    let ciphertext = chacha_seal(key, &nonce, plaintext)?;
    Ok((ciphertext, nonce))
}

/// Opens `ciphertext` under `key` and `nonce`; an error when it does not
/// authenticate.
pub fn decrypt(key: &SymKey, nonce: &NonceBytes, ciphertext: &[u8]) -> (r: Result<Vec<u8>, ()>)
    ensures
        match r {
            Ok(p) => aead_open(key@, nonce@, ciphertext@) == Some(p@),
            Err(_) => aead_open(key@, nonce@, ciphertext@) is None,
        },
{
    chacha_open(key, nonce, ciphertext)
}

} // verus!
