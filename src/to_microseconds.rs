//! Get the microseconds value out of some value representing a duration.
//! The `nice_duration` function formats the duration into a string, skipping
//! zeros and starting with the largest possible unit.
//! Precision chooses the smallest unit to format into, and `short_units`
//! switches between full unit names and their short forms.
use crate::fmt::{
    build_table, cumulate, duration_text, format_window, leftover, lemma_decomposition_exact,
    lemma_leftover_exact,
    lemma_precision_prefix, lemma_render_is_quantities, join_tokens, quantities, unit_specs,
    weighted_sum, window, UnitSpec, Value,
};
use vstd::prelude::*;

verus! {

/// Minimum precision to format a duration held in microseconds.
#[derive(Clone, Copy, Debug, PartialEq, Eq, Structural)]
pub enum PrecisionMicro {
    Microseconds,
    Milliseconds,
    Seconds,
    Minutes,
    Hours,
    Days,
    Weeks,
}

impl PrecisionMicro {
    /// The index in the unit table of the finest unit kept.
    pub open spec fn level(self) -> int {
        match self {
            PrecisionMicro::Microseconds => 0,
            PrecisionMicro::Milliseconds => 1,
            PrecisionMicro::Seconds => 2,
            PrecisionMicro::Minutes => 3,
            PrecisionMicro::Hours => 4,
            PrecisionMicro::Days => 5,
            PrecisionMicro::Weeks => 6,
        }
    }

    /// The index in the unit table of the finest unit kept.
    pub fn index(&self) -> (r: usize)
        ensures
            r == self.level(),
    {
        match self {
            PrecisionMicro::Microseconds => 0,
            PrecisionMicro::Milliseconds => 1,
            PrecisionMicro::Seconds => 2,
            PrecisionMicro::Minutes => 3,
            PrecisionMicro::Hours => 4,
            PrecisionMicro::Days => 5,
            PrecisionMicro::Weeks => 6,
        }
    }
}

impl Default for PrecisionMicro {
    fn default() -> (r: Self)
        ensures
            r == PrecisionMicro::Microseconds,
    {
        PrecisionMicro::Microseconds
    }
}

/// The multipliers of the microsecond scheme from one unit to the next,
/// smallest unit first, with the long and short unit names.
pub open spec fn micros_steps() -> Seq<UnitSpec> {
    seq![
        (1, "microsecond"@, "\u{b5}s"@),
        (1000, "millisecond"@, "ms"@),
        (1000, "second"@, "s"@),
        (60, "minute"@, "m"@),
        (60, "hour"@, "h"@),
        (24, "day"@, "d"@),
        (7, "week"@, "w"@),
    ]
}

/// The unit table of the microsecond scheme, smallest unit first, with each
/// unit's multiplier in microseconds.
pub open spec fn micros_table() -> Seq<UnitSpec> {
    seq![
        (1, "microsecond"@, "\u{b5}s"@),
        (1000, "millisecond"@, "ms"@),
        (1000000, "second"@, "s"@),
        (60000000, "minute"@, "m"@),
        (3600000000, "hour"@, "h"@),
        (86400000000, "day"@, "d"@),
        (604800000000, "week"@, "w"@),
    ]
}

/// The text of a duration of `value` microseconds.
pub open spec fn micros_text(value: int, precision: PrecisionMicro, short_units: bool) -> Seq<char> {
    duration_text(micros_table(), precision.level(), short_units, value)
}

/// Builds the unit table of the microsecond scheme.
pub fn micros_units() -> (r: Vec<(u128, &'static str, &'static str)>)
    ensures
        unit_specs(r@) == micros_table(),
{
    let steps: Vec<(u128, &'static str, &'static str)> = vec![
        (1, "microsecond", "\u{b5}s"),
        (1000, "millisecond", "ms"),
        (1000, "second", "s"),
        (60, "minute", "m"),
        (60, "hour", "h"),
        (24, "day", "d"),
        (7, "week", "w"),
    ];
    proof {
        assert(unit_specs(steps@) =~= micros_steps());
        reveal_with_fuel(cumulate, 8);
        assert(cumulate(micros_steps(), 1) =~= micros_table());
    }
    build_table(steps.as_slice(), 1)
}

/// Formats a duration of `value` microseconds: `0s` for zero, else a token
/// for each unit, largest first, from the precision's unit up.
pub fn format_micros(value: u128, precision: PrecisionMicro, short_units: bool) -> (r: String)
    ensures
        r@ == micros_text(value as int, precision, short_units),
{
    if value == 0 {
        proof {
            reveal_strlit("0s");
        }
        return String::from_str("0s");
    }
    let table = micros_units();
    proof {
        assert(unit_specs(table@).len() == table@.len());
        assert forall|i: int| 0 <= i < table@.len() implies (#[trigger] table@[i]).0.val() > 0 by {
            assert(unit_specs(table@)[i].0 == table@[i].0.val());
            assert(0 <= i < 7 ==> micros_table()[i].0 > 0);
        }
    }
    format_window(&table, precision.index(), short_units, value)
}

/// Get the microseconds from the value.
pub trait ToMicroseconds {
    /// The microseconds the value stands for.
    spec fn micros(&self) -> u128;

    /// Get the microseconds from the value
    fn to_microseconds(&self) -> (r: u128)
        ensures
            r == self.micros(),
    ;

    /// Format the value into a nice duration string
    fn nice_duration(&self, precision: PrecisionMicro, short_units: bool) -> (r: String)
        ensures
            r@ == micros_text(self.micros() as int, precision, short_units),
    {
        let value = self.to_microseconds();
        format_micros(value, precision, short_units)
    }
}


/// The whole microseconds of a std duration.
pub uninterp spec fn duration_us(d: std::time::Duration) -> u128;

/// Relies on std's `Duration::as_micros`, the whole microseconds of the
/// duration; the result depends on the duration alone.
#[verifier::external_body]
fn duration_micros(d: &std::time::Duration) -> (r: u128)
    ensures
        r == duration_us(*d),
{
    d.as_micros()
}

/// The whole microseconds of a chrono delta, or `None` where they overflow
/// an `i64`.
pub uninterp spec fn delta_micros(d: chrono::TimeDelta) -> Option<i64>;

/// Relies on chrono's `TimeDelta::num_microseconds`, the whole microseconds
/// of the delta, or `None` where they overflow an `i64`; the result depends
/// on the delta alone.
#[verifier::external_body]
fn timedelta_micros(d: &chrono::TimeDelta) -> (r: Option<i64>)
    ensures
        r == delta_micros(*d),
{
    d.num_microseconds()
}

impl ToMicroseconds for std::time::Duration {
    open spec fn micros(&self) -> u128 {
        duration_us(*self)
    }

    fn to_microseconds(&self) -> (r: u128) {
        duration_micros(self)
    }
}

impl ToMicroseconds for &std::time::Duration {
    open spec fn micros(&self) -> u128 {
        duration_us(**self)
    }

    fn to_microseconds(&self) -> (r: u128) {
        duration_micros(*self)
    }
}

/// The unsigned microsecond count of a signed one: `None` where the count is
/// missing, because it overflowed, or negative.
pub open spec fn unsigned_count(count: Option<i64>) -> Option<u128> {
    match count {
        Some(v) => if v >= 0 {
            Some(v as u128)
        } else {
            None
        },
        None => None,
    }
}

/// The unsigned microsecond count of a signed one: `None` where the count is
/// missing, because it overflowed, or negative.
pub fn micros_of_count(count: Option<i64>) -> (r: Option<u128>)
    ensures
        r == unsigned_count(count),
{
    match count {
        Some(v) => if v >= 0 { Some(v as u128) } else { None },
        None => None,
    }
}

/// The microseconds of a chrono delta, or `None` where they overflow an
/// `i64` or are negative.
pub fn timedelta_to_microseconds(d: &chrono::TimeDelta) -> (r: Option<u128>)
    ensures
        r == unsigned_count(delta_micros(*d)),
{
    micros_of_count(timedelta_micros(d))
}

/// Formats a chrono delta in the microsecond scheme, or reports with `None`
/// that its microseconds overflow an `i64` or are negative.
pub fn timedelta_nice_duration_micro(d: &chrono::TimeDelta, precision: PrecisionMicro, short_units: bool) -> (r: Option<String>)
    ensures
        r is Some <==> unsigned_count(delta_micros(*d)) is Some,
        r is Some ==> r->Some_0@ == micros_text(unsigned_count(delta_micros(*d))->Some_0 as int, precision, short_units),
{
    match timedelta_to_microseconds(d) {
        Some(v) => Some(format_micros(v, precision, short_units)),
        None => None,
    }
}


/// Every multiplier of the microsecond table is positive.
pub proof fn lemma_micros_table_positive()
    ensures
        forall|i: int| 0 <= i < micros_table().len() ==> (#[trigger] micros_table()[i]).0 > 0,
{
}

/// On the full microsecond table the decomposition is exact: the quantities
/// times their multipliers, plus what is left below the smallest unit, give
/// back the value. The text of a positive value at full precision holds one
/// token for each positive quantity. What is left is one microsecond exactly
/// where the value is one more than a multiple of 1000, and none otherwise.
pub proof fn lemma_micros_decomposition(value: int, short_units: bool)
    requires
        value >= 0,
    ensures
        value > 0 ==> micros_text(value, PrecisionMicro::Microseconds, short_units) == join_tokens(
            seq![],
            quantities(window(micros_table(), 0), value),
            window(micros_table(), 0),
            short_units,
        ),
        weighted_sum(quantities(window(micros_table(), 0), value), window(micros_table(), 0)) + leftover(
            window(micros_table(), 0),
            value,
        ) == value,
        0 <= leftover(window(micros_table(), 0), value) <= 1,
        leftover(window(micros_table(), 0), value) == if value % 1000 == 1 {
            1int
        } else {
            0
        },
{
    let units = window(micros_table(), 0);
    lemma_micros_table_positive();
    assert forall|i: int| 0 <= i < units.len() implies (#[trigger] units[i]).0 > 0 by {
        assert(units[i] == micros_table()[micros_table().len() - 1 - i]);
    }
    lemma_decomposition_exact(units, value);
    lemma_render_is_quantities(seq![], units, short_units, value);
    assert(units.last() == micros_table()[0]);
    assert(units[units.len() - 2] == micros_table()[1]);
    assert forall|i: int| 0 <= i < units.len() - 1 implies (#[trigger] units[i]).0 % 1000 == 0 by {
        assert(units[i] == micros_table()[micros_table().len() - 1 - i]);
        assert(1 <= micros_table().len() - 1 - i < 7);
    }
    lemma_leftover_exact(units, value, 1000);
}

/// Raising the precision never adds tokens and never reorders them: the text
/// with the coarser precision is a prefix of the text with the finer one.
pub proof fn lemma_micros_precision_prefix(value: int, fine: PrecisionMicro, coarse: PrecisionMicro, short_units: bool)
    requires
        fine.level() <= coarse.level(),
    ensures
        micros_text(value, coarse, short_units).is_prefix_of(micros_text(value, fine, short_units)),
{
    lemma_micros_table_positive();
    lemma_precision_prefix(micros_table(), fine.level(), coarse.level(), short_units, value);
}

/// Formatting holds no state: two calls with the same value, precision and
/// naming give the same text.
pub proof fn lemma_micros_deterministic(
    value: int,
    precision: PrecisionMicro,
    short_units: bool,
    first: Seq<char>,
    second: Seq<char>,
)
    requires
        first == micros_text(value, precision, short_units),
        second == micros_text(value, precision, short_units),
    ensures
        first == second,
{
}

/// A zero duration reads `0s`, whatever the precision or naming.
pub proof fn lemma_micros_zero(precision: PrecisionMicro, short_units: bool)
    ensures
        micros_text(0, precision, short_units) == seq!['0', 's'],
{
}

} // verus!
