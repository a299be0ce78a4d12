//! The monotonic clock source: a nanosecond reading of the process's
//! monotonic clock, used for the tracer start anchor, the relative
//! timestamps, and the absolute end timestamps of scoped events.

use vstd::prelude::*;
use crate::event::NANOS_PER_SEC;

verus! {

/// The nanosecond count a clock reading of `sec` seconds and `nsec`
/// sub-second nanoseconds stands for: seconds times a billion plus the
/// remainder. A negative seconds part (which a monotonic clock never
/// produces) counts as zero seconds.
pub open spec fn spec_nanos_of_parts(sec: i64, nsec: i64) -> u128 {
    let sec_part: u128 = if sec < 0 {
        0u128
    } else {
        sec as u128
    };
    (sec_part * (NANOS_PER_SEC as u128) + (nsec as u128)) as u128
}

/// Relies on `nix::time::clock_gettime` with `CLOCK_MONOTONIC`: the
/// reading is normalized, so the nanosecond part lies in
/// [0, 1_000_000_000). Reading the monotonic clock cannot fail on a
/// platform that offers it, so the error arm is unreachable.
#[verifier::external_body]
fn clock_monotonic_parts() -> (r: (i64, i64))
    ensures
        0 <= r.1 < NANOS_PER_SEC,
{
    let ts = nix::time::clock_gettime(nix::time::ClockId::CLOCK_MONOTONIC).unwrap();
    (ts.tv_sec(), ts.tv_nsec())
}

/// Composes a clock reading's parts into its nanosecond count.
pub fn nanos_of_parts(sec: i64, nsec: i64) -> (r: u128)
    requires
        0 <= nsec < NANOS_PER_SEC,
    ensures
        r == spec_nanos_of_parts(sec, nsec),
{
    let sec_part: u128 = if sec < 0 {
        0
    } else {
        sec as u128
    };
    proof {
        assert(sec_part <= i64::MAX as u128);
    }
    sec_part * (NANOS_PER_SEC as u128) + (nsec as u128)
}

/// The current monotonic clock in nanoseconds: the composition of the
/// parts of one reading. Which reading comes back is the machine's
/// affair; that successive readings never decrease is the operating
/// system's guarantee and is not modelled here.
pub fn monotonic_clock() -> (r: u128)
    ensures
        exists|sec: i64, nsec: i64|
            0 <= nsec < NANOS_PER_SEC && r == spec_nanos_of_parts(sec, nsec),
{
    let (sec, nsec) = clock_monotonic_parts();
    let r = nanos_of_parts(sec, nsec);
    proof {
        assert(0 <= nsec < NANOS_PER_SEC && r == spec_nanos_of_parts(sec, nsec));
    }
    r
}

} // verus!
