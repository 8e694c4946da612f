//! Ordered pairs of instants, built from date-like values.
use vstd::prelude::*;
use crate::instant::{Date, Instant};

verus! {

/// A value that stands for one instant in UTC: a calendar day stands for its
/// midnight, an instant for itself.
pub trait ToDateTimeUtc: Sized {
    /// The instant that the value stands for.
    spec fn instant(self) -> Instant;

    fn to_datetime(self) -> (r: Instant)
        ensures
            r == self.instant(),
    ;
}

impl ToDateTimeUtc for Date {
    open spec fn instant(self) -> Instant {
        self.midnight()
    }

    fn to_datetime(self) -> (r: Instant) {
        let days: i64 = self.days_from_ce as i64 - 719_163i64;
        Instant { secs: days * 86_400i64, nanos: 0 }
    }
}

impl ToDateTimeUtc for Instant {
    open spec fn instant(self) -> Instant {
        self
    }

    fn to_datetime(self) -> (r: Instant) {
        self
    }
}

/// Reads the system clock through `chrono::Utc::now` and gives the day
/// number of the current UTC day (`date_naive`, `num_days_from_ce`). The
/// result depends on the clock, so nothing is promised of it. chrono does
/// not return from `now` where the clock stands before 1970.
#[verifier::external_body]
fn current_day_number() -> (r: i32) {
    chrono::Datelike::num_days_from_ce(&chrono::Utc::now().date_naive())
}

/// A span of time between two instants, the earlier one first.
#[derive(Clone, Copy, Debug, PartialEq, Eq, Structural)]
pub struct TimeSpan {
    pub low: Instant,
    pub high: Instant,
}

impl TimeSpan {
    /// The bounds are in order.
    pub open spec fn wf(self) -> bool {
        self.low.le(self.high)
    }

    /// The span between two instants, given in either order.
    pub open spec fn between(a: Instant, b: Instant) -> TimeSpan {
        TimeSpan { low: a.spec_min(b), high: a.spec_max(b) }
    }

    /// The span between an instant and the instant a signed number of days
    /// away from it.
    pub open spec fn starting(start: Instant, days: int) -> TimeSpan {
        TimeSpan::between(start, start.plus_days(days))
    }

    /// The span of one day that starts at the midnight of the given day.
    pub fn day_of(date: Date) -> (r: TimeSpan)
        ensures
            r == TimeSpan::starting(date.midnight(), 1),
            r.low == date.midnight(),
            r.wf(),
    {
        TimeSpan::new(date, 1)
    }

    /// The current UTC day, from its midnight to the next.
    pub fn today() -> (r: TimeSpan)
        ensures
            exists|date: Date| r == TimeSpan::starting(#[trigger] date.midnight(), 1),
            r.wf(),
    {
        let date = Date::from_num_days_from_ce(current_day_number());
        TimeSpan::day_of(date)
    }

    /// The span between `start` and the instant `days` days away from it;
    /// a negative `days` gives the span that ends at `start`.
    pub fn new<S: ToDateTimeUtc>(start: S, days: i64) -> (r: TimeSpan)
        requires
            start.instant().can_add_days(days as int),
        ensures
            r == TimeSpan::starting(start.instant(), days as int),
            r.wf(),
    {
        let start: Instant = start.to_datetime();
        let end: Instant = Instant {
            secs: ((start.secs as i128) + (days as i128) * 86_400i128) as i64,
            nanos: start.nanos,
        };
        TimeSpan::for_date_range(start, end)
    }

    /// As `new`, for any day count: `None` where the instant `days` days
    /// from `start` cannot be represented.
    pub fn checked_new<S: ToDateTimeUtc>(start: S, days: i64) -> (r: Option<TimeSpan>)
        ensures
            r.is_some() == start.instant().can_add_days(days as int),
            r.is_some() ==> r.unwrap() == TimeSpan::starting(start.instant(), days as int) && r.unwrap().wf(),
    {
        let start: Instant = start.to_datetime();
        match start.checked_add_days(days) {
            Some(end) => Some(TimeSpan::for_date_range(start, end)),
            None => None,
        }
    }

    /// The span between two date-like values, given in either order.
    pub fn for_date_range<S: ToDateTimeUtc, E: ToDateTimeUtc>(start: S, end: E) -> (r: TimeSpan)
        ensures
            r == TimeSpan::between(start.instant(), end.instant()),
            r.wf(),
    {
        let start: Instant = start.to_datetime();
        let end: Instant = end.to_datetime();
        if start.is_at_or_before(&end) {
            TimeSpan { low: start, high: end }
        } else {
            TimeSpan { low: end, high: start }
        }
    }

    /// Whether an instant lies in the span, bounds included.
    pub open spec fn contains(self, at: Instant) -> bool {
        self.low.le(at) && at.le(self.high)
    }
}

/// The bounds of a span are in order whatever the order of its endpoints,
/// and the span does not depend on that order.
pub proof fn lemma_between_is_ordered_and_symmetric(a: Instant, b: Instant)
    ensures
        TimeSpan::between(a, b).wf(),
        TimeSpan::between(a, b) == TimeSpan::between(b, a),
        TimeSpan::between(a, b).contains(a),
        TimeSpan::between(a, b).contains(b),
{
}

/// The spans of `days` and of `-days` around one start are mirror images:
/// they share the bound at the start, one ends there and the other begins
/// there, and their far bounds lie equally far from it.
pub proof fn lemma_opposite_days_mirror(start: Instant, days: int)
    requires
        start.can_add_days(days),
        start.can_add_days(-days),
    ensures
        TimeSpan::starting(start, days).wf(),
        TimeSpan::starting(start, -days).wf(),
        days >= 0 ==> TimeSpan::starting(start, days).low == start && TimeSpan::starting(
            start,
            -days,
        ).high == start,
        days <= 0 ==> TimeSpan::starting(start, days).high == start && TimeSpan::starting(
            start,
            -days,
        ).low == start,
        TimeSpan::starting(start, days).high.secs - start.secs == start.secs - TimeSpan::starting(
            start,
            -days,
        ).low.secs,
        TimeSpan::starting(start, days).low.secs - start.secs == start.secs - TimeSpan::starting(
            start,
            -days,
        ).high.secs,
        TimeSpan::starting(start, days).low.nanos == start.nanos,
        TimeSpan::starting(start, days).high.nanos == start.nanos,
        TimeSpan::starting(start, -days).low.nanos == start.nanos,
        TimeSpan::starting(start, -days).high.nanos == start.nanos,
{
}

} // verus!
