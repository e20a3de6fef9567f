use nice_duration::builder::format_window_built;
use nice_duration::fmt::{build_table, custom_format, decimal_string, format_window, Value};
use nice_duration::to_microseconds::micros_units;
use nice_duration::to_milliseconds::millis_units;

#[test]
fn test_custom_format() {

}

#[test]
fn custom_format_short_units_into_string() {
    let units: Vec<(i64, &str, &str)> = vec![(60000, " minute", "m"), (1000, " second", "s"), (1, " millisecond", "ms")];
    let mut out = String::new();
    custom_format(&mut out, units.as_slice(), true, 63234i64);
    assert_eq!(out, "1m 3s 234ms");
}

#[test]
fn custom_format_appends_after_existing_text() {
    let units: Vec<(i64, &str, &str)> = vec![(1000, " second", "s"), (1, " millisecond", "ms")];
    let mut out = String::from("took");
    custom_format(&mut out, units.as_slice(), false, 2001i64);
    assert_eq!(out, "took 2 seconds");
}

#[test]
fn custom_format_long_units_pluralize() {
    let units: Vec<(i64, &str, &str)> = vec![(60000, " minute", "m"), (1000, " second", "s"), (1, " millisecond", "ms")];
    let mut out = String::new();
    custom_format(&mut out, units.as_slice(), false, 61002i64);
    assert_eq!(out, "1 minute 1 second 2 milliseconds");
}

#[test]
fn custom_format_into_builder() {
    let units: Vec<(u128, &str, &str)> = vec![(60000, " minute", "m"), (1000, " second", "s"), (1, " millisecond", "ms")];
    let mut b = string_builder::Builder::new(32);
    custom_format(&mut b, units.as_slice(), true, 63234u128);
    assert_eq!(b.string().unwrap(), "1m 3s 234ms");
}

#[test]
fn format_window_built_matches_string_backend() {
    let table = millis_units();
    for v in [1i64, 999, 1000, 1001, 63234, 90061001, 1209600001] {
        for from in 0..6usize {
            for short in [true, false] {
                assert_eq!(
                    format_window_built(&table, from, short, v, 32),
                    format_window(&table, from, short, v)
                );
            }
        }
    }
    assert_eq!(format_window_built(&table, 0, true, 63234i64, 32), "1m 3s 234ms");
}

#[test]
fn build_table_is_cumulative() {
    let steps: Vec<(i64, &'static str, &'static str)> = vec![(1, "a", "a"), (10, "b", "b"), (6, "c", "c")];
    let table = build_table(steps.as_slice(), 1i64);
    assert_eq!(table, vec![(1, "a", "a"), (10, "b", "b"), (60, "c", "c")]);
}

#[test]
fn millis_table_multipliers() {
    let t: Vec<i64> = millis_units().iter().map(|u| u.0).collect();
    assert_eq!(t, vec![1, 1000, 60000, 3600000, 86400000, 604800000]);
    let names: Vec<&str> = millis_units().iter().map(|u| u.2).collect();
    assert_eq!(names, vec!["ms", "s", "m", "h", "d", "w"]);
}

#[test]
fn micros_table_multipliers() {
    let t: Vec<u128> = micros_units().iter().map(|u| u.0).collect();
    assert_eq!(t, vec![1, 1000, 1000000, 60000000, 3600000000, 86400000000, 604800000000]);
}

#[test]
fn decimal_string_values() {
    assert_eq!(decimal_string(0), "0");
    assert_eq!(decimal_string(7), "7");
    assert_eq!(decimal_string(1234567890), "1234567890");
    assert_eq!(decimal_string(u128::MAX), u128::MAX.to_string());
}

#[test]
fn value_operations() {
    assert!(7i64.more(3));
    assert!(!3i64.more(3));
    assert_eq!(7i64.divide(2), 3);
    assert_eq!(7i64.minus(2), 5);
    assert_eq!(7i64.mul(2), 14);
    assert!(1i64.is_one());
    assert!(!2u128.is_one());
    assert_eq!(12u128.divide(5), 2);
    assert_eq!(42i64.to_decimal(), "42");
    assert_eq!(42u128.to_decimal(), "42");
}
