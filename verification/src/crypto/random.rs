//! Randomness from the operating system's generator.
use vstd::prelude::*;
use rand::RngCore;

verus! {

/// `rand::thread_rng().fill_bytes`: overwrites `buf` with random bytes.
/// Nothing is promised of the bytes.
#[verifier::external_body]
pub(crate) fn fill_random(buf: &mut [u8])
    ensures
        final(buf)@.len() == old(buf)@.len(),
{
    rand::thread_rng().fill_bytes(buf)
}

} // verus!
