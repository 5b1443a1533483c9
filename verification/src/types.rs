//! Alert classification.
use vstd::prelude::*;

verus! {

/// What an alert reports.
#[derive(Clone, Copy, Debug, PartialEq, Eq, Structural)]
pub enum AlertType {
    Intrusion,
    Drone,
    Movement,
}

/// How severe an alert is, from least to most.
#[derive(Clone, Copy, Debug, PartialEq, Eq, Structural, PartialOrd, Ord)]
pub enum Severity {
    Low,
    Medium,
    High,
    Critical,
}

/// Hops an alert may travel.
pub const DEFAULT_TTL: u8 = 8;

/// An alert's hop budget after one more hop: one less, but never below zero.
pub fn decremented_ttl(ttl: u8) -> (r: u8)
    ensures
        r == if ttl > 0 { ttl - 1 } else { 0 },
{
    if ttl > 0 {
        ttl - 1
    } else {
        0
    }
}

/// Whether an alert with this hop budget may travel no further.
pub fn ttl_exhausted(ttl: u8) -> (r: bool)
    ensures
        r == (ttl == 0),
{
    ttl == 0
}

} // verus!
