use std::time::Duration;

use format_time::format_time::{unit_factor, unit_name_str, TimeFormatter, TimeUnit};
use format_time::text::{join_list, push_decimal, unit_phrase};

const SECOND: u64 = 1;
const MINUTE: u64 = SECOND * 60;
const HOUR: u64 = MINUTE * 60;
const DAY: u64 = HOUR * 24;

#[test]
fn nanosec() {
    let test_time = Duration::from_nanos(1);
    let result = "1 nanosecond";
    assert_eq!(TimeFormatter::new().format(test_time.as_nanos()), result);
}

#[test]
fn millisec() {
    let test_time = Duration::from_millis(1);
    let result = "1 millisecond";
    assert_eq!(TimeFormatter::new().format(test_time.as_nanos()), result);
}

#[test]
fn microsec() {
    let test_time = Duration::from_micros(1);
    let result = "1 microsecond";
    assert_eq!(TimeFormatter::new().format(test_time.as_nanos()), result);
}

#[test]
fn second() {
    let test_time = Duration::from_secs(1);
    let result = "1 second";
    assert_eq!(TimeFormatter::new().format(test_time.as_nanos()), result);
}

#[test]
fn minute() {
    let test_time = Duration::from_secs(60);
    let result = "1 minute";
    assert_eq!(TimeFormatter::new().format(test_time.as_nanos()), result);
}

#[test]
fn one_and_a_half_minutes() {
    let test_time = Duration::from_secs(90);
    let result = "1 minute and 30 seconds";
    assert_eq!(TimeFormatter::new().format(test_time.as_nanos()), result);
}

#[test]
fn one_hour_one_minute_and_thirty_seconds() {
    let test_time = Duration::from_secs(HOUR) + Duration::from_secs(MINUTE) + Duration::from_secs(30 * SECOND);
    let result = "1 hour, 1 minute, and 30 seconds";
    assert_eq!(TimeFormatter::new().format(test_time.as_nanos()), result);
}

#[test]
fn three_days_two_hours_one_minute_and_thirty_seconds() {
    let test_time = Duration::from_secs(3 * DAY)
        + Duration::from_secs(2 * HOUR)
        + Duration::from_secs(MINUTE)
        + Duration::from_secs(30 * SECOND);
    let result = "3 days, 2 hours, 1 minute, and 30 seconds";
    assert_eq!(
        TimeFormatter::from(TimeUnit::Day, TimeUnit::Nanosecond).format(test_time.as_nanos()),
        result
    );
}

#[test]
fn zero_duration_is_zero_of_the_smallest_unit() {
    assert_eq!(TimeFormatter::new().format(0), "0 milliseconds");
    let f = TimeFormatter::from(TimeUnit::Day, TimeUnit::Nanosecond);
    assert_eq!(f.format(0), "0 nanoseconds");
}

#[test]
fn plural_for_every_value_but_one() {
    let f = TimeFormatter::new();
    assert_eq!(f.format(2_000_000_000), "2 seconds");
    assert_eq!(f.format(1_000_000_000), "1 second");
    assert_eq!(f.format(11_000_000), "11 milliseconds");
}

#[test]
fn interior_zero_units_are_left_out() {
    let f = TimeFormatter::new();
    assert_eq!(f.format(3_600_000_000_000 + 30_000_000_000), "1 hour and 30 seconds");
    assert_eq!(f.format(3_600_000_000_000), "1 hour");
}

#[test]
fn units_below_the_minimum_are_dropped() {
    let f = TimeFormatter::new();
    assert_eq!(f.format(1_000_000_000 + 500), "1 second");
    assert_eq!(f.format(2_500_000), "2 milliseconds");
}

#[test]
fn units_above_the_maximum_fold_into_it() {
    let f = TimeFormatter::new();
    assert_eq!(f.format(2 * 86_400_000_000_000), "48 hours");
    let g = TimeFormatter::from(TimeUnit::Second, TimeUnit::Second);
    assert_eq!(g.format(90_000_000_000), "90 seconds");
}

#[test]
fn serial_comma_with_many_units() {
    let f = TimeFormatter::from(TimeUnit::Day, TimeUnit::Nanosecond);
    let d: u128 = 86_400_000_000_000 + 3_600_000_000_000 + 60_000_000_000 + 1_000_000_000 + 1_000_000 + 1_000 + 1;
    assert_eq!(
        f.format(d),
        "1 day, 1 hour, 1 minute, 1 second, 1 millisecond, 1 microsecond, and 1 nanosecond"
    );
}

#[test]
fn largest_duration() {
    let f = TimeFormatter::from(TimeUnit::Day, TimeUnit::Day);
    assert_eq!(
        f.format(u128::MAX),
        format!("{} days", u128::MAX / 86_400_000_000_000)
    );
}

#[test]
fn from_swaps_bounds_given_out_of_order() {
    let f = TimeFormatter::from(TimeUnit::Second, TimeUnit::Hour);
    assert_eq!(f.format(3_690_000_000_000), "1 hour, 1 minute, and 30 seconds");
    assert_eq!(f.format(1_500_000_000), "1 second");
}

#[test]
fn set_max_accepts_only_units_above_the_minimum() {
    let mut f = TimeFormatter::new();
    let d: u128 = 2 * 86_400_000_000_000;
    assert!(!f.set_max(TimeUnit::Millisecond));
    assert!(!f.set_max(TimeUnit::Nanosecond));
    assert_eq!(f.format(d), "48 hours");
    assert!(f.set_max(TimeUnit::Day));
    assert_eq!(f.format(d), "2 days");
}

#[test]
fn set_min_accepts_only_units_below_the_maximum() {
    let mut f = TimeFormatter::new();
    let d: u128 = 1_000_000_000 + 5;
    assert!(!f.set_min(TimeUnit::Hour));
    assert!(!f.set_min(TimeUnit::Day));
    assert_eq!(f.format(d), "1 second");
    assert!(f.set_min(TimeUnit::Nanosecond));
    assert_eq!(f.format(d), "1 second and 5 nanoseconds");
}

#[test]
fn unit_ladder_helpers() {
    assert_eq!(TimeUnit::Day.index(), 6);
    assert_eq!(TimeUnit::Nanosecond.index(), 0);
    assert_eq!(TimeUnit::Hour.lowered(2), TimeUnit::Second);
    assert_eq!(TimeUnit::Microsecond.lowered(3), TimeUnit::Nanosecond);
    let mut u = TimeUnit::Minute;
    u -= 1;
    assert_eq!(u, TimeUnit::Second);
    let mut w = TimeUnit::Day;
    w -= 3;
    assert_eq!(w, TimeUnit::Second);
    w -= 3;
    assert_eq!(w, TimeUnit::Nanosecond);
    assert_eq!(unit_factor(4), 60_000_000_000);
    assert_eq!(unit_factor(6), 86_400_000_000_000);
    assert_eq!(unit_name_str(5), "hour");
}

#[test]
fn rendering_helpers() {
    let mut s = String::from("n=");
    push_decimal(&mut s, 1234567890);
    assert_eq!(s, "n=1234567890");
    assert_eq!(unit_phrase(0, "hour"), "0 hours");
    assert_eq!(unit_phrase(1, "hour"), "1 hour");
    let items: Vec<String> = vec!["a".to_string(), "b".to_string(), "c".to_string()];
    assert_eq!(join_list(&items), "a, b, and c");
    assert_eq!(join_list(&items[..2].to_vec()), "a and b");
    assert_eq!(join_list(&items[..1].to_vec()), "a");
    assert_eq!(join_list(&Vec::new()), "");
}
