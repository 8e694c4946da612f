//! Points on the UTC time line and calendar days, as plain integers.
use vstd::prelude::*;

verus! {

/// Seconds in one civil day.
pub const SECONDS_PER_DAY: i64 = 86_400;

/// The day number of 1970-01-01 when 0001-01-01 is day 1.
pub const UNIX_EPOCH_DAY: i32 = 719_163;

/// An instant in UTC: whole seconds since 1970-01-01T00:00:00Z and the
/// nanoseconds past that second.
///
/// Instants are ordered by `secs`, then by `nanos`.
#[derive(Clone, Copy, Debug, PartialEq, Eq, Structural)]
pub struct Instant {
    pub secs: i64,
    pub nanos: u32,
}

impl Instant {
    /// `self` is not later than `other`.
    pub open spec fn le(self, other: Instant) -> bool {
        self.secs < other.secs || (self.secs == other.secs && self.nanos <= other.nanos)
    }

    /// The earlier of two instants.
    pub open spec fn spec_min(self, other: Instant) -> Instant {
        if self.le(other) {
            self
        } else {
            other
        }
    }

    /// The later of two instants.
    pub open spec fn spec_max(self, other: Instant) -> Instant {
        if self.le(other) {
            other
        } else {
            self
        }
    }

    /// The second count of the instant `days` days away, as a mathematical integer.
    pub open spec fn shifted_secs(self, days: int) -> int {
        self.secs + days * 86_400
    }

    /// Whether the instant `days` days away can be represented.
    pub open spec fn can_add_days(self, days: int) -> bool {
        i64::MIN <= self.shifted_secs(days) <= i64::MAX
    }

    /// The instant `days` days away; meaningful where `can_add_days` holds.
    pub open spec fn plus_days(self, days: int) -> Instant {
        Instant { secs: self.shifted_secs(days) as i64, nanos: self.nanos }
    }

    pub fn new(secs: i64, nanos: u32) -> (r: Instant)
        ensures
            r.secs == secs,
            r.nanos == nanos,
    {
        Instant { secs, nanos }
    }

    /// Whether `self` is at or before `other`.
    pub fn is_at_or_before(&self, other: &Instant) -> (r: bool)
        ensures
            r == self.le(*other),
    {
        self.secs < other.secs || (self.secs == other.secs && self.nanos <= other.nanos)
    }

    /// Moves the instant by a signed number of whole days, or gives `None`
    /// where the result does not fit.
    pub fn checked_add_days(&self, days: i64) -> (r: Option<Instant>)
        ensures
            r.is_some() == self.can_add_days(days as int),
            r.is_some() ==> r.unwrap() == self.plus_days(days as int),
    {
        let total: i128 = (self.secs as i128) + (days as i128) * 86_400i128;
        if total < i64::MIN as i128 || total > i64::MAX as i128 {
            None
        } else {
            Some(Instant { secs: total as i64, nanos: self.nanos })
        }
    }
}

/// The order of instants is total: of two instants one is at or before the other.
pub proof fn lemma_instant_order_total(a: Instant, b: Instant)
    ensures
        a.le(b) || b.le(a),
        a.le(b) && b.le(a) ==> a == b,
        a.le(a),
{
}

/// The order of instants is transitive.
pub proof fn lemma_instant_order_transitive(a: Instant, b: Instant, c: Instant)
    requires
        a.le(b),
        b.le(c),
    ensures
        a.le(c),
{
}

/// What `chrono::NaiveDate::from_ymd_opt` followed by `num_days_from_ce` gives
/// for a year, a month and a day of the month: the day's number in the
/// proleptic Gregorian calendar, or `None` for a day that does not exist or
/// lies outside the years the calendar type covers.
pub uninterp spec fn gregorian_day_number(year: i32, month: u32, day: u32) -> Option<i32>;

/// Calls `chrono::NaiveDate::from_ymd_opt` and, on a date, `num_days_from_ce`.
/// Both depend on their arguments alone; the contract names the outcome and
/// says nothing more of it.
#[verifier::external_body]
fn day_number_of(year: i32, month: u32, day: u32) -> (r: Option<i32>)
    ensures
        r == gregorian_day_number(year, month, day),
{
    match chrono::NaiveDate::from_ymd_opt(year, month, day) {
        Some(date) => Some(chrono::Datelike::num_days_from_ce(&date)),
        None => None,
    }
}

/// A calendar day in UTC, held as its day number in the proleptic Gregorian
/// calendar (0001-01-01 is day 1).
#[derive(Clone, Copy, Debug, PartialEq, Eq, Structural)]
pub struct Date {
    pub days_from_ce: i32,
}

impl Date {
    /// Midnight at the start of this day.
    pub open spec fn midnight(self) -> Instant {
        Instant { secs: ((self.days_from_ce - 719_163) * 86_400) as i64, nanos: 0 }
    }

    /// Whether the day `days` days away has a day number that fits.
    pub open spec fn can_add_days(self, days: int) -> bool {
        i32::MIN <= self.days_from_ce + days <= i32::MAX
    }

    /// The day `days` days away; meaningful where `can_add_days` holds.
    pub open spec fn plus_days(self, days: int) -> Date {
        Date { days_from_ce: (self.days_from_ce + days) as i32 }
    }

    /// The day with the given day number.
    pub fn from_num_days_from_ce(days: i32) -> (r: Date)
        ensures
            r.days_from_ce == days,
    {
        Date { days_from_ce: days }
    }

    /// 1970-01-01, the day on which the second count of instants starts.
    pub fn unix_epoch() -> (r: Date)
        ensures
            r.days_from_ce == UNIX_EPOCH_DAY,
            r.midnight() == (Instant { secs: 0, nanos: 0 }),
    {
        Date { days_from_ce: UNIX_EPOCH_DAY }
    }

    /// The day with the given year, month and day of the month, or `None`
    /// where the calendar has no such day.
    pub fn from_ymd(year: i32, month: u32, day: u32) -> (r: Option<Date>)
        ensures
            r == Date::of_day_number(gregorian_day_number(year, month, day)),
    {
        Date::from_day_number(day_number_of(year, month, day))
    }

    /// The date that a looked-up day number stands for.
    pub open spec fn of_day_number(number: Option<i32>) -> Option<Date> {
        match number {
            Some(days) => Some(Date { days_from_ce: days }),
            None => None,
        }
    }

    /// Turns the outcome of a calendar lookup into a date.
    pub fn from_day_number(number: Option<i32>) -> (r: Option<Date>)
        ensures
            r == Date::of_day_number(number),
    {
        match number {
            Some(days) => Some(Date { days_from_ce: days }),
            None => None,
        }
    }

    pub fn num_days_from_ce(&self) -> (r: i32)
        ensures
            r == self.days_from_ce,
    {
        self.days_from_ce
    }

    /// Moves the day by a signed number of days, or gives `None` where the
    /// day number does not fit.
    pub fn checked_add_days(&self, days: i64) -> (r: Option<Date>)
        ensures
            r.is_some() == self.can_add_days(days as int),
            r.is_some() ==> r.unwrap() == self.plus_days(days as int),
    {
        let total: i128 = (self.days_from_ce as i128) + (days as i128);
        if total < i32::MIN as i128 || total > i32::MAX as i128 {
            None
        } else {
            Some(Date { days_from_ce: total as i32 })
        }
    }
}

/// Moving a day and then taking midnight is the same as taking midnight and
/// moving the instant by as many days.
pub proof fn lemma_midnight_commutes_with_days(date: Date, days: int)
    requires
        date.can_add_days(days),
    ensures
        date.midnight().can_add_days(days),
        date.plus_days(days).midnight() == date.midnight().plus_days(days),
{
}

} // verus!
