//! The forwarding rule of store–carry–forward routing.
use vstd::prelude::*;
use crate::clock::{Timestamp, now_timestamp, spec_elapsed_secs};
use crate::envelope::{Envelope, EnvelopeView};

verus! {

/// An envelope is forwarded while it is neither expired at `now` nor at its
/// hop limit.
pub open spec fn spec_should_forward_at(env: EnvelopeView, now: Timestamp) -> bool {
    !env.expired_at(now) && env.hop_count < env.max_hops
}

/// The forwarding rule: an envelope is forwarded at `now` exactly when no
/// more whole seconds than its time-to-live have passed since its creation
/// and it has made fewer hops than its limit. In particular a fresh,
/// unexhausted envelope is forwarded for its whole lifetime.
pub proof fn lemma_forward_rule(env: EnvelopeView, now: Timestamp)
    ensures
        spec_should_forward_at(env, now) <==> (spec_elapsed_secs(env.created_at, now) <= env.ttl_secs
            && env.hop_count < env.max_hops),
{
}

/// Whether `env` may still be forwarded at time `now`.
pub fn should_forward_at(env: &Envelope, now: Timestamp) -> (r: bool)
    requires
        env.created_at.wf(),
        now.wf(),
    ensures
        r == spec_should_forward_at(env@, now),
{
    if env.expired_at(now) {
        return false;
    }
    if env.hop_count >= env.max_hops {
        return false;
    }
    true
}

/// Whether `env` may still be forwarded now, by the system clock.
pub fn should_forward(env: &Envelope) -> (r: bool)
    requires
        env.created_at.wf(),
    ensures
        exists|now: Timestamp| now.wf() && r == spec_should_forward_at(env@, now),
        env.hop_count >= env.max_hops ==> !r,
{
    let now = now_timestamp();
    should_forward_at(env, now)
}

} // verus!
