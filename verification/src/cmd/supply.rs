//! The span of time behind the running supply at a date.
use vstd::prelude::*;
use crate::instant::{Date, Instant};
use crate::timespan::TimeSpan;

verus! {

/// The span that the supply at the start of `end` is read from: everything
/// between 1970-01-01 and the midnight of `end`.
pub open spec fn supply_span(end: Date) -> TimeSpan {
    TimeSpan::between(Instant { secs: 0, nanos: 0 }, end.midnight())
}

/// The span for the supply at the start of `end`.
pub fn timespan(end: Date) -> (r: TimeSpan)
    ensures
        r == supply_span(end),
        r.wf(),
        end.days_from_ce >= 719_163 ==> r.low == (Instant { secs: 0, nanos: 0 }) && r.high == end.midnight(),
{
    TimeSpan::for_date_range(Date::unix_epoch(), end)
}

} // verus!
