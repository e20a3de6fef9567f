//! Get the milliseconds value out of some value representing a duration.
//! The `nice_duration` function formats the duration into a string, skipping
//! zeros and starting with the largest possible unit.
use crate::fmt::{
    build_table, cumulate, duration_text, format_window, leftover, lemma_decomposition_exact,
    lemma_leftover_exact,
    lemma_precision_prefix, lemma_render_is_quantities, join_tokens, quantities, unit_specs,
    weighted_sum, window, UnitSpec, Value,
};
use vstd::prelude::*;

verus! {

/// Minimum precision to format the duration.
#[derive(Clone, Copy, Debug, PartialEq, Eq, Structural)]
pub enum Precision {
    /// Format the duration in milliseconds
    Milliseconds,
    /// Format the duration in seconds, discarding milliseconds
    Seconds,
    /// Format the duration in minutes, discarding seconds and further
    Minutes,
    /// Format the duration in hours, discarding minutes and further
    Hours,
    /// Format the duration in days, discarding hours and further
    Days,
    /// Format the duration in weeks, discarding days and further
    Weeks,
}

impl Precision {
    /// The index in the unit table of the finest unit kept.
    pub open spec fn level(self) -> int {
        match self {
            Precision::Milliseconds => 0,
            Precision::Seconds => 1,
            Precision::Minutes => 2,
            Precision::Hours => 3,
            Precision::Days => 4,
            Precision::Weeks => 5,
        }
    }

    /// The index in the unit table of the finest unit kept.
    pub fn index(&self) -> (r: usize)
        ensures
            r == self.level(),
    {
        match self {
            Precision::Milliseconds => 0,
            Precision::Seconds => 1,
            Precision::Minutes => 2,
            Precision::Hours => 3,
            Precision::Days => 4,
            Precision::Weeks => 5,
        }
    }
}

impl Default for Precision {
    fn default() -> (r: Self)
        ensures
            r == Precision::Milliseconds,
    {
        Precision::Milliseconds
    }
}

/// The multipliers of the millisecond scheme from one unit to the next,
/// smallest unit first, with the long and short unit names.
pub open spec fn millis_steps() -> Seq<UnitSpec> {
    seq![
        (1, " millisecond"@, "ms"@),
        (1000, " second"@, "s"@),
        (60, " minute"@, "m"@),
        (60, " hour"@, "h"@),
        (24, " day"@, "d"@),
        (7, " week"@, "w"@),
    ]
}

/// The unit table of the millisecond scheme, smallest unit first, with each
/// unit's multiplier in milliseconds.
pub open spec fn millis_table() -> Seq<UnitSpec> {
    seq![
        (1, " millisecond"@, "ms"@),
        (1000, " second"@, "s"@),
        (60000, " minute"@, "m"@),
        (3600000, " hour"@, "h"@),
        (86400000, " day"@, "d"@),
        (604800000, " week"@, "w"@),
    ]
}

/// The text of a duration of `value` milliseconds.
pub open spec fn millis_text(value: int, precision: Precision, short_units: bool) -> Seq<char> {
    duration_text(millis_table(), precision.level(), short_units, value)
}

/// Builds the unit table of the millisecond scheme.
pub fn millis_units() -> (r: Vec<(i64, &'static str, &'static str)>)
    ensures
        unit_specs(r@) == millis_table(),
{
    let steps: Vec<(i64, &'static str, &'static str)> = vec![
        (1, " millisecond", "ms"),
        (1000, " second", "s"),
        (60, " minute", "m"),
        (60, " hour", "h"),
        (24, " day", "d"),
        (7, " week", "w"),
    ];
    proof {
        assert(unit_specs(steps@) =~= millis_steps());
        reveal_with_fuel(cumulate, 7);
        assert(cumulate(millis_steps(), 1) =~= millis_table());
    }
    build_table(steps.as_slice(), 1)
}

/// Formats a duration of `value` milliseconds: `0s` for zero, else a token
/// for each unit, largest first, from the precision's unit up.
pub fn format_millis(value: i64, precision: Precision, short_units: bool) -> (r: String)
    ensures
        r@ == millis_text(value as int, precision, short_units),
{
    if value == 0 {
        proof {
            reveal_strlit("0s");
        }
        return String::from_str("0s");
    }
    let table = millis_units();
    proof {
        assert(unit_specs(table@).len() == table@.len());
        assert forall|i: int| 0 <= i < table@.len() implies (#[trigger] table@[i]).0.val() > 0 by {
            assert(unit_specs(table@)[i].0 == table@[i].0.val());
            assert(0 <= i < 6 ==> millis_table()[i].0 > 0);
        }
    }
    format_window(&table, precision.index(), short_units, value)
}

/// Get the milliseconds from the value.
pub trait ToMilliseconds {
    /// The milliseconds the value stands for.
    spec fn millis(&self) -> i64;

    /// Get the milliseconds from the value
    fn to_milliseconds(&self) -> (r: i64)
        ensures
            r == self.millis(),
    ;

    /// Format the value into a nice duration string
    fn nice_duration(&self, precision: Precision, short_units: bool) -> (r: String)
        ensures
            r@ == millis_text(self.millis() as int, precision, short_units),
    {
        let value = self.to_milliseconds();
        format_millis(value, precision, short_units)
    }
}


/// The whole milliseconds of a std duration, cast to `i64`.
pub uninterp spec fn duration_ms(d: std::time::Duration) -> i64;

/// Relies on std's `Duration::as_millis`, the whole milliseconds of the
/// duration, cast to `i64` as a plain `as` cast does; the result depends on
/// the duration alone.
#[verifier::external_body]
fn duration_millis(d: &std::time::Duration) -> (r: i64)
    ensures
        r == duration_ms(*d),
{
    d.as_millis() as i64
}

#[verifier::external_type_specification]
#[verifier::external_body]
pub struct ExTimeDelta(chrono::TimeDelta);

/// The whole milliseconds of a chrono delta.
pub uninterp spec fn delta_ms(d: chrono::TimeDelta) -> i64;

/// Relies on chrono's `TimeDelta::num_milliseconds`, the whole milliseconds
/// of the delta; the result depends on the delta alone.
#[verifier::external_body]
fn timedelta_millis(d: &chrono::TimeDelta) -> (r: i64)
    ensures
        r == delta_ms(*d),
{
    d.num_milliseconds()
}

impl ToMilliseconds for std::time::Duration {
    open spec fn millis(&self) -> i64 {
        duration_ms(*self)
    }

    fn to_milliseconds(&self) -> (r: i64) {
        duration_millis(self)
    }
}

impl ToMilliseconds for &std::time::Duration {
    open spec fn millis(&self) -> i64 {
        duration_ms(**self)
    }

    fn to_milliseconds(&self) -> (r: i64) {
        duration_millis(*self)
    }
}

impl ToMilliseconds for chrono::TimeDelta {
    open spec fn millis(&self) -> i64 {
        delta_ms(*self)
    }

    fn to_milliseconds(&self) -> (r: i64) {
        timedelta_millis(self)
    }
}

impl ToMilliseconds for &chrono::TimeDelta {
    open spec fn millis(&self) -> i64 {
        delta_ms(**self)
    }

    fn to_milliseconds(&self) -> (r: i64) {
        timedelta_millis(*self)
    }
}


/// Every multiplier of the millisecond table is positive.
pub proof fn lemma_millis_table_positive()
    ensures
        forall|i: int| 0 <= i < millis_table().len() ==> (#[trigger] millis_table()[i]).0 > 0,
{
}

/// On the full millisecond table the decomposition is exact: the quantities
/// times their multipliers, plus what is left below the smallest unit, give
/// back the value. The text of a positive value at full precision holds one
/// token for each positive quantity. What is left is one millisecond exactly
/// where the value is one more than a multiple of 1000, and none otherwise.
pub proof fn lemma_millis_decomposition(value: int, short_units: bool)
    requires
        value >= 0,
    ensures
        value > 0 ==> millis_text(value, Precision::Milliseconds, short_units) == join_tokens(
            seq![],
            quantities(window(millis_table(), 0), value),
            window(millis_table(), 0),
            short_units,
        ),
        weighted_sum(quantities(window(millis_table(), 0), value), window(millis_table(), 0)) + leftover(
            window(millis_table(), 0),
            value,
        ) == value,
        0 <= leftover(window(millis_table(), 0), value) <= 1,
        leftover(window(millis_table(), 0), value) == if value % 1000 == 1 {
            1int
        } else {
            0
        },
{
    let units = window(millis_table(), 0);
    lemma_millis_table_positive();
    assert forall|i: int| 0 <= i < units.len() implies (#[trigger] units[i]).0 > 0 by {
        assert(units[i] == millis_table()[millis_table().len() - 1 - i]);
    }
    lemma_decomposition_exact(units, value);
    lemma_render_is_quantities(seq![], units, short_units, value);
    assert(units.last() == millis_table()[0]);
    assert(units[units.len() - 2] == millis_table()[1]);
    assert forall|i: int| 0 <= i < units.len() - 1 implies (#[trigger] units[i]).0 % 1000 == 0 by {
        assert(units[i] == millis_table()[millis_table().len() - 1 - i]);
        assert(1 <= millis_table().len() - 1 - i < 6);
    }
    lemma_leftover_exact(units, value, 1000);
}

/// Raising the precision never adds tokens and never reorders them: the text
/// with the coarser precision is a prefix of the text with the finer one.
pub proof fn lemma_millis_precision_prefix(value: int, fine: Precision, coarse: Precision, short_units: bool)
    requires
        fine.level() <= coarse.level(),
    ensures
        millis_text(value, coarse, short_units).is_prefix_of(millis_text(value, fine, short_units)),
{
    lemma_millis_table_positive();
    lemma_precision_prefix(millis_table(), fine.level(), coarse.level(), short_units, value);
}

/// Formatting holds no state: two calls with the same value, precision and
/// naming give the same text.
pub proof fn lemma_millis_deterministic(
    value: int,
    precision: Precision,
    short_units: bool,
    first: Seq<char>,
    second: Seq<char>,
)
    requires
        first == millis_text(value, precision, short_units),
        second == millis_text(value, precision, short_units),
    ensures
        first == second,
{
}

/// A zero duration reads `0s`, whatever the precision or naming.
pub proof fn lemma_millis_zero(precision: Precision, short_units: bool)
    ensures
        millis_text(0, precision, short_units) == seq!['0', 's'],
{
}

} // verus!
