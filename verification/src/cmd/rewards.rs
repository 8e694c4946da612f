//! The length of a rewards report in days.
use vstd::prelude::*;

verus! {

/// The number of days that a signed day count covers.
pub open spec fn day_count(days: i64) -> nat {
    if days < 0 {
        (-days) as nat
    } else {
        days as nat
    }
}

/// The number of days that a signed day count covers, in either direction.
pub fn abs_days(days: i64) -> (r: u64)
    ensures
        r == day_count(days),
{
    if days < 0 {
        (-(days as i128)) as u64
    } else {
        days as u64
    }
}

/// The divisor for a daily average: the number of days where the report
/// covers more than one, `None` where it covers one day or none and its
/// amounts stand as they are.
pub fn average_over(days: i64) -> (r: Option<u64>)
    ensures
        r == if day_count(days) > 1 {
            Some(day_count(days) as u64)
        } else {
            None
        },
{
    let n: u64 = abs_days(days);
    if n > 1 {
        Some(n)
    } else {
        None
    }
}

} // verus!
