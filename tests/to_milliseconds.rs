use nice_duration::to_milliseconds::{format_millis, Precision, ToMilliseconds};

#[test]
fn test_millis() {
    assert_eq!(format_millis((10.0f64 * 1000.0) as i64, Default::default(), true), "10s");
    assert_eq!(format_millis((63.234f64 * 1000.0) as i64, Default::default(), true), "1m 3s 234ms");
    assert_eq!(format_millis((63.234f64 * 1000.0) as i64, Default::default(), true), "1m 3s 234ms");
}

#[test]
fn zero_reads_0s_for_every_precision_and_naming() {
    let all = [
        Precision::Milliseconds,
        Precision::Seconds,
        Precision::Minutes,
        Precision::Hours,
        Precision::Days,
        Precision::Weeks,
    ];
    for p in all {
        assert_eq!(format_millis(0, p, true), "0s");
        assert_eq!(format_millis(0, p, false), "0s");
    }
}

#[test]
fn exactly_one_unit_is_not_taken_at_that_unit() {
    assert_eq!(format_millis(1000, Precision::Milliseconds, true), "1000ms");
    assert_eq!(format_millis(1000, Precision::Milliseconds, false), "1000 milliseconds");
    assert_eq!(format_millis(60000, Precision::Milliseconds, true), "60s");
}

#[test]
fn one_past_a_unit_leaves_one_behind() {
    assert_eq!(format_millis(1001, Precision::Milliseconds, true), "1s");
    assert_eq!(format_millis(1, Precision::Milliseconds, true), "");
    assert_eq!(format_millis(2, Precision::Milliseconds, true), "2ms");
}

#[test]
fn long_names_pluralize() {
    assert_eq!(format_millis(63234, Precision::Milliseconds, false), "1 minute 3 seconds 234 milliseconds");
    assert_eq!(format_millis(90061002, Precision::Milliseconds, false), "1 day 1 hour 1 minute 1 second 2 milliseconds");
    assert_eq!(format_millis(1209600001, Precision::Milliseconds, false), "2 weeks");
}

#[test]
fn short_names_never_pluralize() {
    assert_eq!(format_millis(1209600001, Precision::Milliseconds, true), "2w");
    assert_eq!(format_millis(7384000, Precision::Milliseconds, true), "2h 3m 4s");
}

#[test]
fn coarser_precision_keeps_a_prefix() {
    assert_eq!(format_millis(63234, Precision::Seconds, true), "1m 3s");
    assert_eq!(format_millis(63234, Precision::Minutes, true), "1m");
    assert_eq!(format_millis(63234, Precision::Hours, true), "");
    let fine = format_millis(90061002, Precision::Milliseconds, true);
    let coarse = format_millis(90061002, Precision::Hours, true);
    assert!(fine.starts_with(&coarse));
    assert_eq!(coarse, "1d 1h");
}

#[test]
fn same_inputs_same_text() {
    let a = format_millis(123456789, Precision::Seconds, false);
    let b = format_millis(123456789, Precision::Seconds, false);
    assert_eq!(a, b);
}

#[test]
fn default_precision_is_milliseconds() {
    assert_eq!(Precision::default(), Precision::Milliseconds);
    assert_eq!(Precision::Weeks.index(), 5);
}

#[test]
fn std_duration_nice_duration() {
    let d = std::time::Duration::from_millis(63234);
    assert_eq!(d.to_milliseconds(), 63234);
    assert_eq!(d.nice_duration(Precision::Milliseconds, true), "1m 3s 234ms");
    assert_eq!((&d).nice_duration(Precision::Seconds, false), "1 minute 3 seconds");
    assert_eq!(std::time::Duration::from_secs(10).nice_duration(Default::default(), true), "10s");
}

#[test]
fn chrono_delta_nice_duration() {
    let d = chrono::TimeDelta::milliseconds(63234);
    assert_eq!(d.to_milliseconds(), 63234);
    assert_eq!(d.nice_duration(Precision::Milliseconds, true), "1m 3s 234ms");
    assert_eq!((&d).nice_duration(Precision::Minutes, true), "1m");
    assert_eq!(chrono::TimeDelta::zero().nice_duration(Precision::Milliseconds, false), "0s");
}
