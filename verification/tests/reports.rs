use etl_exporter::cmd::hotspots::{same_text, HotspotMode, HotspotStatus};
use etl_exporter::cmd::{balance, rewards, supply};
use etl_exporter::instant::{Date, Instant};
use etl_exporter::timespan::ToDateTimeUtc;

fn day(year: i32, month: u32, day: u32) -> Date {
    Date::from_ymd(year, month, day).unwrap()
}

#[test]
fn balance_span_is_the_day_before() {
    let span = balance::timespan(day(2023, 3, 1)).unwrap();
    assert_eq!(span.low, day(2023, 2, 28).to_datetime());
    assert_eq!(span.high, day(2023, 3, 1).to_datetime());
    assert_eq!(span.high.secs - span.low.secs, 86_400);
}

#[test]
fn balance_span_needs_a_day_before() {
    assert_eq!(balance::timespan(Date::from_num_days_from_ce(i32::MIN)), None);
    assert!(balance::timespan(Date::from_num_days_from_ce(i32::MIN + 1)).is_some());
}

#[test]
fn supply_span_starts_at_the_epoch() {
    let span = supply::timespan(day(2023, 3, 1));
    assert_eq!(span.low, Instant::new(0, 0));
    assert_eq!(span.high, day(2023, 3, 1).to_datetime());
}

#[test]
fn supply_span_before_the_epoch_ends_there() {
    let span = supply::timespan(day(1969, 12, 31));
    assert_eq!(span.low, Instant::new(-86_400, 0));
    assert_eq!(span.high, Instant::new(0, 0));
}

#[test]
fn reward_days_count_in_either_direction() {
    assert_eq!(rewards::abs_days(-1), 1);
    assert_eq!(rewards::abs_days(0), 0);
    assert_eq!(rewards::abs_days(30), 30);
    assert_eq!(rewards::abs_days(i64::MIN), 1u64 << 63);
    assert_eq!(rewards::abs_days(i64::MAX), i64::MAX as u64);
}

#[test]
fn reward_average_is_taken_over_more_than_one_day() {
    assert_eq!(rewards::average_over(-1), None);
    assert_eq!(rewards::average_over(0), None);
    assert_eq!(rewards::average_over(1), None);
    assert_eq!(rewards::average_over(2), Some(2));
    assert_eq!(rewards::average_over(-7), Some(7));
}

#[test]
fn hotspot_names_are_in_small_letters() {
    assert_eq!(HotspotStatus::Online.as_str(), "online");
    assert_eq!(HotspotStatus::Offline.as_str(), "offline");
    assert_eq!(HotspotMode::Dataonly.as_str(), "dataonly");
    assert_eq!(HotspotMode::Full.as_str(), "full");
    assert_eq!(HotspotMode::Light.as_str(), "light");
}

#[test]
fn hotspot_names_read_back() {
    for status in [HotspotStatus::Online, HotspotStatus::Offline] {
        assert_eq!(HotspotStatus::from_name(status.as_str()), Some(status));
    }
    for mode in [HotspotMode::Dataonly, HotspotMode::Full, HotspotMode::Light] {
        assert_eq!(HotspotMode::from_name(mode.as_str()), Some(mode));
    }
}

#[test]
fn hotspot_names_are_read_exactly() {
    assert_eq!(HotspotStatus::from_name("Online"), None);
    assert_eq!(HotspotStatus::from_name("on"), None);
    assert_eq!(HotspotStatus::from_name(""), None);
    assert_eq!(HotspotMode::from_name("FULL"), None);
    assert_eq!(HotspotMode::from_name("light "), None);
    assert_eq!(HotspotMode::from_name("online"), None);
}

#[test]
fn same_text_compares_characters() {
    assert!(same_text("", ""));
    assert!(same_text("héllo", "héllo"));
    assert!(!same_text("héllo", "hello"));
    assert!(!same_text("ab", "abc"));
    assert!(!same_text("abc", "abd"));
}
