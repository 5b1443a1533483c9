//! Wall-clock timestamps as plain values, and the elapsed-time arithmetic
//! that expiry decisions are made from.
use vstd::prelude::*;

verus! {

/// Nanoseconds in one second.
pub const NANOS_PER_SEC: u32 = 1_000_000_000;

/// A point in time, as whole seconds and sub-second nanoseconds since the
/// Unix epoch.
#[derive(Clone, Copy, Debug, PartialEq, Eq)]
pub struct Timestamp {
    pub secs: u64,
    pub nanos: u32,
}

impl Timestamp {
    /// A timestamp is well formed when its sub-second part is below one second.
    pub open spec fn wf(self) -> bool {
        self.nanos < NANOS_PER_SEC
    }

    /// The instant as a count of nanoseconds since the epoch.
    pub open spec fn total_nanos(self) -> int {
        self.secs as int * NANOS_PER_SEC as int + self.nanos as int
    }
}

/// Whole seconds elapsed from `earlier` to `now`; zero when `now` lies before
/// `earlier` (the clock went backwards).
pub open spec fn spec_elapsed_secs(earlier: Timestamp, now: Timestamp) -> int {
    if now.total_nanos() < earlier.total_nanos() {
        0
    } else {
        (now.total_nanos() - earlier.total_nanos()) / NANOS_PER_SEC as int
    }
}

/// `SystemTime::now()`, measured from the Unix epoch (a clock set before
/// the epoch reads as the epoch). Only that the result is well formed is
/// promised: the value is the machine's clock.
#[verifier::external_body]
pub(crate) fn now_timestamp() -> (t: Timestamp)
    ensures
        t.wf(),
{
    let d = std::time::SystemTime::now()
        .duration_since(std::time::UNIX_EPOCH)
        .unwrap_or_default();
    Timestamp { secs: d.as_secs(), nanos: d.subsec_nanos() }
}

/// Whole seconds elapsed from `earlier` to `now`, saturating at zero.
pub fn elapsed_secs(earlier: Timestamp, now: Timestamp) -> (r: u64)
    requires
        earlier.wf(),
        now.wf(),
    ensures
        r == spec_elapsed_secs(earlier, now),
{
    if now.secs < earlier.secs || (now.secs == earlier.secs && now.nanos < earlier.nanos) {
        proof {
            assert(now.total_nanos() < earlier.total_nanos()) by (nonlinear_arith)
                requires
                    now.secs < earlier.secs || (now.secs == earlier.secs && now.nanos < earlier.nanos),
                    now.nanos < 1_000_000_000,
                    earlier.nanos < 1_000_000_000,
                    now.total_nanos() == now.secs * 1_000_000_000 + now.nanos,
                    earlier.total_nanos() == earlier.secs * 1_000_000_000 + earlier.nanos,
            ;
        }
        0
    } else if now.nanos >= earlier.nanos {
        let r = now.secs - earlier.secs;
        proof {
            let d = now.total_nanos() - earlier.total_nanos();
            assert(d == r * 1_000_000_000 + (now.nanos - earlier.nanos)) by (nonlinear_arith)
                requires
                    r == now.secs - earlier.secs,
                    d == now.total_nanos() - earlier.total_nanos(),
                    now.total_nanos() == now.secs * 1_000_000_000 + now.nanos,
                    earlier.total_nanos() == earlier.secs * 1_000_000_000 + earlier.nanos,
            ;
            vstd::arithmetic::div_mod::lemma_fundamental_div_mod_converse(
                d, 1_000_000_000, r as int, (now.nanos - earlier.nanos) as int);
        }
        r
    } else {
        let r = now.secs - earlier.secs - 1;
        proof {
            let d = now.total_nanos() - earlier.total_nanos();
            assert(d == r * 1_000_000_000 + (1_000_000_000 + now.nanos - earlier.nanos)) by (nonlinear_arith)
                requires
                    r == now.secs - earlier.secs - 1,
                    d == now.total_nanos() - earlier.total_nanos(),
                    now.total_nanos() == now.secs * 1_000_000_000 + now.nanos,
                    earlier.total_nanos() == earlier.secs * 1_000_000_000 + earlier.nanos,
            ;
            vstd::arithmetic::div_mod::lemma_fundamental_div_mod_converse(
                d, 1_000_000_000, r as int, (1_000_000_000 + now.nanos - earlier.nanos) as int);
        }
        r
    }
}

} // verus!
