//! The span of time behind a balance at a date.
use vstd::prelude::*;
use crate::instant::Date;
use crate::timespan::TimeSpan;

verus! {

/// The span that a balance at the start of `end` is read from: the day
/// before `end`, from its midnight to the midnight of `end`.
pub open spec fn balance_span(end: Date) -> TimeSpan {
    TimeSpan::between(end.plus_days(-1).midnight(), end.midnight())
}

/// The span for a balance at the start of `end`, or `None` where the day
/// before `end` has no day number.
pub fn timespan(end: Date) -> (r: Option<TimeSpan>)
    ensures
        r.is_some() == end.can_add_days(-1),
        r.is_some() ==> r.unwrap() == balance_span(end) && r.unwrap().high == end.midnight()
            && r.unwrap().low == end.plus_days(-1).midnight(),
{
    match end.checked_add_days(-1) {
        Some(start) => Some(TimeSpan::for_date_range(start, end)),
        None => None,
    }
}

} // verus!
