//! Format durations as human-readable strings made of time units, from the
//! largest unit down to the smallest, skipping units with a zero quantity.
//! The `fmt` module holds the unit-decomposition engine, `custom_format`,
//! which formats any quantity given its units and their multipliers.
pub mod fmt;
pub mod to_milliseconds;
pub mod to_microseconds;
pub mod seconds;
pub mod builder;
