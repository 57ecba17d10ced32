use vstd::prelude::*;

verus! {

/// Events per second when `delta` events took `elapsed` nanoseconds: the
/// quotient rounded down, and `u64::MAX` where it does not fit. With no time
/// elapsed the rate of no events is zero and that of any events is
/// `u64::MAX`. Timestamps are in nanoseconds, so the quotient is scaled by
/// one thousand million.
pub open spec fn rate_per_second(delta: u64, elapsed: u64) -> u64 {
    if elapsed == 0 {
        if delta == 0 {
            0
        } else {
            u64::MAX
        }
    } else if delta * 1_000_000_000 / (elapsed as int) > u64::MAX {
        u64::MAX
    } else {
        (delta * 1_000_000_000 / (elapsed as int)) as u64
    }
}

/// Computes `rate_per_second`.
pub fn rate(delta: u64, elapsed: u64) -> (r: u64)
    ensures
        r == rate_per_second(delta, elapsed),
{
    if elapsed == 0 {
        if delta == 0 {
            0
        } else {
            u64::MAX
        }
    } else {
        let scaled: u128 = (delta as u128) * 1_000_000_000u128;
        let quotient: u128 = scaled / (elapsed as u128);
        if quotient > u64::MAX as u128 {
            u64::MAX
        } else {
            quotient as u64
        }
    }
}

} // verus!
