//! The values exchanged with the user interface: alert input, node state and
//! alert summaries.
use vstd::prelude::*;
use crate::envelope::{Envelope, EnvelopeView, Priority};

verus! {

/// An alert as the user interface submits it.
#[derive(Debug)]
pub struct AlertInput {
    pub sender: String,
    pub priority: Priority,
    pub payload: String,
}

/// The node's status as the user interface shows it.
#[derive(Debug)]
pub struct NodeState {
    pub status: String,
}

/// A known alert as the user interface lists it.
#[derive(Debug)]
pub struct AlertSummary {
    pub msg_id: String,
    pub sender_id: String,
    pub priority: Priority,
    pub hop_count: u8,
    pub created_secs: u64,
}

/// The lowercase hexadecimal digit of a value below 16.
pub open spec fn hex_digit(n: u128) -> char {
    seq!['0', '1', '2', '3', '4', '5', '6', '7', '8', '9', 'a', 'b', 'c', 'd', 'e', 'f'][n as int]
}

/// Hexadecimal digit `k` (0 = most significant) of a 128-bit value.
pub open spec fn nibble(id: u128, k: int) -> u128 {
    (id >> ((4 * (31 - k)) as u128)) & 0xfu128
}

/// The hyphenated lowercase text of a UUID: 32 hexadecimal digits, most
/// significant first, grouped 8-4-4-4-12 by hyphens.
pub open spec fn uuid_text(id: u128) -> Seq<char> {
    Seq::new(36, |t: int|
        if t == 8 || t == 13 || t == 18 || t == 23 {
            '-'
        } else {
            let k = if t < 8 { t } else if t < 13 { t - 1 } else if t < 18 { t - 2 } else if t < 23 { t - 3 } else { t - 4 };
            hex_digit(nibble(id, k))
        })
}

/// `Uuid::to_string`: the hyphenated lowercase text of the UUID.
#[verifier::external_body]
pub(crate) fn uuid_to_string(id: u128) -> (s: String)
    ensures
        s@ == uuid_text(id),
{
    uuid::Uuid::from_u128(id).to_string()
}

/// Whether `s` summarises the envelope `e`.
pub open spec fn summarises(s: AlertSummary, e: EnvelopeView) -> bool {
    &&& s.msg_id@ == uuid_text(e.msg_id)
    &&& s.sender_id@ == e.sender_id
    &&& s.priority == e.priority
    &&& s.hop_count == e.hop_count
    &&& s.created_secs == e.created_at.secs
}

impl AlertSummary {
    /// The summary of `env`.
    pub fn from_envelope(env: &Envelope) -> (s: AlertSummary)
        ensures
            summarises(s, env@),
    {
        AlertSummary {
            msg_id: uuid_to_string(env.msg_id),
            sender_id: env.sender_id.clone(),
            priority: env.priority,
            hop_count: env.hop_count,
            created_secs: env.created_at.secs,
        }
    }
}

} // verus!
