//! Rates in whole bytes per second.
use vstd::prelude::*;

verus! {

/// Nanoseconds in a second.
pub const NANOS_PER_SEC: u64 = 1_000_000_000;

/// Nanoseconds in a millisecond.
pub const NANOS_PER_MILLI: u64 = 1_000_000;

/// Whole bytes per second at which `bytes` are moved in `nanos`; at most what a number holds.
pub open spec fn spec_bytes_per_second(bytes: u64, nanos: u64) -> u64 {
    let rate = bytes * NANOS_PER_SEC / (nanos as int);
    if rate > u64::MAX {
        u64::MAX
    } else {
        rate as u64
    }
}

/// Whole bytes per second at which `bytes` are moved in `nanos`; at most what a number holds.
pub fn bytes_per_second(bytes: u64, nanos: u64) -> (r: u64)
    requires
        nanos > 0,
    ensures
        r == spec_bytes_per_second(bytes, nanos),
{
    let rate: u128 = bytes as u128 * NANOS_PER_SEC as u128 / nanos as u128;
    if rate > u64::MAX as u128 {
        u64::MAX
    } else {
        rate as u64
    }
}

/// The sum of `part` thousandths of `next` and the rest of `prev`, in thousandths.
pub open spec fn weighted(prev: u64, next: u64, part: int) -> int {
    part * next + (1000 - part) * prev
}

/// A weighted mean lies between what it is taken of.
pub proof fn a_mean_lies_between(prev: u64, next: u64, part: int)
    requires
        0 <= part <= 1000,
    ensures
        prev <= next ==> 1000 * prev <= weighted(prev, next, part) <= 1000 * next,
        next <= prev ==> 1000 * next <= weighted(prev, next, part) <= 1000 * prev,
{
    let p = prev as int;
    let n = next as int;
    assert(p <= n ==> 1000 * p <= part * n + (1000 - part) * p <= 1000 * n) by (nonlinear_arith)
        requires
            0 <= part <= 1000,
            0 <= p,
            0 <= n,
    ;
    assert(n <= p ==> 1000 * n <= part * n + (1000 - part) * p <= 1000 * p) by (nonlinear_arith)
        requires
            0 <= part <= 1000,
            0 <= p,
            0 <= n,
    ;
}

/// A rate is the most whole bytes per second that were moved in the time; a second at that
/// rate moves no more than a second's share.
pub proof fn rates_are_bytes_over_time(bytes: u64, nanos: u64)
    requires
        nanos > 0,
        spec_bytes_per_second(bytes, nanos) < u64::MAX,
    ensures
        spec_bytes_per_second(bytes, nanos) * nanos <= bytes * 1_000_000_000 < (
        spec_bytes_per_second(bytes, nanos) + 1) * nanos,
        spec_bytes_per_second(bytes, 1_000_000_000) == bytes,
{
    let n = nanos as int;
    let b = bytes * NANOS_PER_SEC;
    let rate = b / n;
    assert(rate * n <= b < (rate + 1) * n) by (nonlinear_arith)
        requires
            n > 0,
            rate == b / n,
    ;
    assert(rate >= 0) by (nonlinear_arith)
        requires
            b >= 0,
            n > 0,
            rate == b / n,
    ;
}

/// A mean with the whole weight on one side is that side, and each thousandth moves it by the
/// same step.
pub proof fn means_follow_their_weight(prev: u64, next: u64, part: int)
    ensures
        weighted(prev, next, 0) == 1000 * prev,
        weighted(prev, next, 1000) == 1000 * next,
        weighted(prev, next, part + 1) - weighted(prev, next, part) == next - prev,
{
    let p = prev as int;
    let n = next as int;
    assert((part + 1) * n + (1000 - (part + 1)) * p - (part * n + (1000 - part) * p) == n - p)
        by (nonlinear_arith);
}

} // verus!
