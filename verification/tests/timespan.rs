use etl_exporter::instant::{Date, Instant};
use etl_exporter::timespan::{TimeSpan, ToDateTimeUtc};

fn day(year: i32, month: u32, day: u32) -> Date {
    Date::from_ymd(year, month, day).unwrap()
}

#[test]
fn date_from_ymd_gives_the_day_number() {
    assert_eq!(day(1970, 1, 1).num_days_from_ce(), 719_163);
    assert_eq!(day(1, 1, 1).num_days_from_ce(), 1);
    assert_eq!(day(2, 1, 1).num_days_from_ce(), 366);
    assert_eq!(day(0, 1, 1).num_days_from_ce(), -365);
    assert_eq!(day(2023, 3, 14).num_days_from_ce(), 738_593);
}

#[test]
fn date_from_ymd_refuses_days_that_do_not_exist() {
    assert_eq!(Date::from_ymd(2015, 2, 29), None);
    assert_eq!(Date::from_ymd(2015, 0, 14), None);
    assert_eq!(Date::from_ymd(2023, 4, 31), None);
    assert_eq!(Date::from_ymd(400_000, 1, 1), None);
    assert!(Date::from_ymd(-4, 2, 29).is_some());
}

#[test]
fn date_agrees_with_chrono() {
    let date = chrono::NaiveDate::from_ymd_opt(2015, 5, 15).unwrap();
    let midnight = date.and_hms_opt(0, 0, 0).unwrap().and_utc();
    let ours = day(2015, 5, 15).to_datetime();
    assert_eq!(ours.secs, midnight.timestamp());
    assert_eq!(ours.nanos, midnight.timestamp_subsec_nanos());
    assert_eq!(ours.secs, 1_431_648_000);
}

#[test]
fn date_stands_for_its_midnight() {
    assert_eq!(day(1970, 1, 1).to_datetime(), Instant::new(0, 0));
    assert_eq!(day(1970, 1, 2).to_datetime(), Instant::new(86_400, 0));
    assert_eq!(day(1969, 12, 31).to_datetime(), Instant::new(-86_400, 0));
    assert_eq!(Date::unix_epoch(), day(1970, 1, 1));
}

#[test]
fn instant_stands_for_itself() {
    let at = Instant::new(1_700_000_000, 250);
    assert_eq!(at.to_datetime(), at);
}

#[test]
fn instants_are_ordered_by_seconds_then_nanoseconds() {
    assert!(Instant::new(1, 999).is_at_or_before(&Instant::new(2, 0)));
    assert!(Instant::new(2, 0).is_at_or_before(&Instant::new(2, 0)));
    assert!(Instant::new(2, 0).is_at_or_before(&Instant::new(2, 1)));
    assert!(!Instant::new(2, 1).is_at_or_before(&Instant::new(2, 0)));
    assert!(!Instant::new(-1, 0).is_at_or_before(&Instant::new(-2, 999_999_999)));
}

#[test]
fn instant_add_days_is_exact_and_checked() {
    let at = Instant::new(1_000, 7);
    assert_eq!(at.checked_add_days(2), Some(Instant::new(1_000 + 172_800, 7)));
    assert_eq!(at.checked_add_days(-1), Some(Instant::new(1_000 - 86_400, 7)));
    assert_eq!(at.checked_add_days(0), Some(at));
    assert_eq!(at.checked_add_days(i64::MAX), None);
    assert_eq!(at.checked_add_days(i64::MIN), None);
    assert_eq!(Instant::new(i64::MAX, 0).checked_add_days(1), None);
    assert_eq!(Instant::new(i64::MAX - 86_400, 0).checked_add_days(1), Some(Instant::new(i64::MAX, 0)));
}

#[test]
fn date_add_days_is_exact_and_checked() {
    assert_eq!(day(2023, 3, 1).checked_add_days(-1), Some(day(2023, 2, 28)));
    assert_eq!(day(2024, 3, 1).checked_add_days(-1), Some(day(2024, 2, 29)));
    assert_eq!(day(2023, 12, 31).checked_add_days(1), Some(day(2024, 1, 1)));
    assert_eq!(Date::from_num_days_from_ce(i32::MAX).checked_add_days(1), None);
    assert_eq!(Date::from_num_days_from_ce(i32::MIN).checked_add_days(-1), None);
}

#[test]
fn timespan_new_forward() {
    let span = TimeSpan::new(day(2023, 1, 10), 3);
    assert_eq!(span.low, day(2023, 1, 10).to_datetime());
    assert_eq!(span.high, day(2023, 1, 13).to_datetime());
}

#[test]
fn timespan_new_backward() {
    let span = TimeSpan::new(day(2023, 1, 10), -1);
    assert_eq!(span.low, day(2023, 1, 9).to_datetime());
    assert_eq!(span.high, day(2023, 1, 10).to_datetime());
}

#[test]
fn timespan_new_zero_days_is_a_point() {
    let at = Instant::new(500, 5);
    let span = TimeSpan::new(at, 0);
    assert_eq!(span.low, at);
    assert_eq!(span.high, at);
}

#[test]
fn timespan_bounds_are_ordered() {
    let starts = [Instant::new(-5, 0), Instant::new(0, 0), Instant::new(1_700_000_000, 999_999_999)];
    let counts: [i64; 7] = [-400, -7, -1, 0, 1, 7, 400];
    for start in starts {
        for days in counts {
            let span = TimeSpan::new(start, days);
            assert!(span.low.is_at_or_before(&span.high));
        }
    }
}

#[test]
fn timespan_opposite_days_are_mirror_images() {
    let start = Instant::new(1_000_000, 42);
    for days in [1i64, 2, 30, 365] {
        let ahead = TimeSpan::new(start, days);
        let back = TimeSpan::new(start, -days);
        assert_eq!(ahead.low, start);
        assert_eq!(back.high, start);
        assert_eq!(ahead.high.secs - start.secs, start.secs - back.low.secs);
        assert_eq!(ahead.high.secs - start.secs, days * 86_400);
        assert_eq!(ahead.high.nanos, 42);
        assert_eq!(back.low.nanos, 42);
    }
}

#[test]
fn timespan_for_date_range_ignores_order() {
    let a = day(2023, 5, 1);
    let b = day(2023, 6, 1);
    assert_eq!(TimeSpan::for_date_range(a, b), TimeSpan::for_date_range(b, a));
    let span = TimeSpan::for_date_range(b, a);
    assert_eq!(span.low, a.to_datetime());
    assert_eq!(span.high, b.to_datetime());
    let x = Instant::new(10, 5);
    let y = Instant::new(10, 4);
    assert_eq!(TimeSpan::for_date_range(x, y), TimeSpan::for_date_range(y, x));
    assert_eq!(TimeSpan::for_date_range(x, y).low, y);
}

#[test]
fn timespan_for_date_range_mixes_dates_and_instants() {
    let span = TimeSpan::for_date_range(Instant::new(86_400 * 3 + 1, 0), day(1970, 1, 2));
    assert_eq!(span.low, Instant::new(86_400, 0));
    assert_eq!(span.high, Instant::new(86_400 * 3 + 1, 0));
}

#[test]
fn timespan_day_of_covers_one_day() {
    let span = TimeSpan::day_of(day(2023, 2, 28));
    assert_eq!(span.low, day(2023, 2, 28).to_datetime());
    assert_eq!(span.high, day(2023, 3, 1).to_datetime());
}

#[test]
fn timespan_today_is_the_current_utc_day() {
    let before = chrono::Utc::now().timestamp();
    let span = TimeSpan::today();
    let after = chrono::Utc::now().timestamp();
    assert_eq!(span.high.secs - span.low.secs, 86_400);
    assert_eq!(span.low.secs.rem_euclid(86_400), 0);
    assert_eq!(span.low.nanos, 0);
    assert_eq!(span.high.nanos, 0);
    assert!(span.low.secs <= after);
    assert!(before < span.high.secs + 86_400);
}

#[test]
fn timespan_checked_new_refuses_what_does_not_fit() {
    let start = Instant::new(0, 0);
    assert_eq!(TimeSpan::checked_new(start, 2), Some(TimeSpan::new(start, 2)));
    assert_eq!(TimeSpan::checked_new(start, -2), Some(TimeSpan::new(start, -2)));
    assert_eq!(TimeSpan::checked_new(start, i64::MAX / 86_400 + 1), None);
    assert_eq!(TimeSpan::checked_new(start, i64::MIN), None);
    let last = i64::MAX / 86_400;
    assert_eq!(TimeSpan::checked_new(start, last).unwrap().high, Instant::new(last * 86_400, 0));
}
