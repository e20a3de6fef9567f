use nice_duration::to_microseconds::{
    format_micros, micros_of_count, timedelta_nice_duration_micro, timedelta_to_microseconds,
    PrecisionMicro, ToMicroseconds,
};

#[test]
fn micros_short_units() {
    assert_eq!(format_micros(3235386, PrecisionMicro::default(), true), "3s 235ms 386\u{b5}s");
    assert_eq!(format_micros(3235386, PrecisionMicro::Milliseconds, true), "3s 235ms");
    assert_eq!(format_micros(0, PrecisionMicro::Weeks, false), "0s");
}

#[test]
fn micros_long_units() {
    assert_eq!(format_micros(3235386, PrecisionMicro::Microseconds, false), "3seconds 235milliseconds 386microseconds");
    assert_eq!(format_micros(61000001, PrecisionMicro::Microseconds, false), "1minute 1second");
}

#[test]
fn micros_precision_index() {
    assert_eq!(PrecisionMicro::Weeks.index(), 6);
    assert_eq!(PrecisionMicro::default(), PrecisionMicro::Microseconds);
}

#[test]
fn std_duration_micros() {
    let d = std::time::Duration::from_micros(3235386);
    assert_eq!(d.to_microseconds(), 3235386);
    assert_eq!(d.nice_duration(PrecisionMicro::Microseconds, true), "3s 235ms 386\u{b5}s");
    assert_eq!((&d).nice_duration(PrecisionMicro::Seconds, true), "3s");
}

#[test]
fn micros_of_count_cases() {
    assert_eq!(micros_of_count(Some(42)), Some(42));
    assert_eq!(micros_of_count(Some(-1)), None);
    assert_eq!(micros_of_count(None), None);
}

#[test]
fn chrono_delta_micros() {
    assert_eq!(timedelta_to_microseconds(&chrono::TimeDelta::microseconds(3235386)), Some(3235386));
    assert_eq!(timedelta_to_microseconds(&chrono::TimeDelta::microseconds(-5)), None);
    assert_eq!(timedelta_to_microseconds(&chrono::TimeDelta::MAX), None);
}

#[test]
fn chrono_delta_nice_duration_micro() {
    let d = chrono::TimeDelta::microseconds(3235386);
    assert_eq!(timedelta_nice_duration_micro(&d, PrecisionMicro::Microseconds, true), Some("3s 235ms 386\u{b5}s".to_string()));
    assert_eq!(timedelta_nice_duration_micro(&d, PrecisionMicro::Seconds, false), Some("3seconds".to_string()));
    assert_eq!(timedelta_nice_duration_micro(&chrono::TimeDelta::zero(), PrecisionMicro::Microseconds, true), Some("0s".to_string()));
    assert_eq!(timedelta_nice_duration_micro(&chrono::TimeDelta::microseconds(-5), PrecisionMicro::Microseconds, true), None);
    assert_eq!(timedelta_nice_duration_micro(&chrono::TimeDelta::MAX, PrecisionMicro::Microseconds, true), None);
}

#[test]
fn micros_leftover_of_one_is_dropped() {
    assert_eq!(format_micros(1001, PrecisionMicro::Microseconds, true), "1ms");
    assert_eq!(format_micros(1002, PrecisionMicro::Microseconds, true), "1ms 2\u{b5}s");
}
