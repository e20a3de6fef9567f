use vstd::prelude::*;
use vstd::arithmetic::div_mod::{
    lemma_fundamental_div_mod, lemma_mod_multiples_basic, lemma_mod_multiples_vanish, lemma_small_mod,
};
use vstd::string::StringExecFns;

verus! {

/// The character of a decimal digit.
pub open spec fn digit_char(d: nat) -> char {
    seq!['0', '1', '2', '3', '4', '5', '6', '7', '8', '9'][d as int]
}

/// The decimal digits of `n`, most significant first, without leading zeros.
pub open spec fn decimal(n: nat) -> Seq<char>
    decreases n,
{
    if n < 10 {
        seq![digit_char(n)]
    } else {
        decimal(n / 10).push(digit_char(n % 10))
    }
}

fn digit_str(d: u128) -> (r: &'static str)
    requires
        d < 10,
    ensures
        r@ == seq![digit_char(d as nat)],
{
    proof {
        reveal_strlit("0");
        reveal_strlit("1");
        reveal_strlit("2");
        reveal_strlit("3");
        reveal_strlit("4");
        reveal_strlit("5");
        reveal_strlit("6");
        reveal_strlit("7");
        reveal_strlit("8");
        reveal_strlit("9");
    }
    if d == 0 {
        "0"
    } else if d == 1 {
        "1"
    } else if d == 2 {
        "2"
    } else if d == 3 {
        "3"
    } else if d == 4 {
        "4"
    } else if d == 5 {
        "5"
    } else if d == 6 {
        "6"
    } else if d == 7 {
        "7"
    } else if d == 8 {
        "8"
    } else {
        "9"
    }
}

/// Writes `n` in decimal.
pub fn decimal_string(n: u128) -> (r: String)
    ensures
        r@ == decimal(n as nat),
{
    let mut rest: u128 = n / 10;
    let mut r = String::from_str(digit_str(n % 10));
    assert(r@ == decimal((n % 10) as nat));
    while rest > 0
        invariant
            rest > 0 ==> decimal(n as nat) == decimal(rest as nat) + r@,
            rest == 0 ==> decimal(n as nat) == r@,
        decreases rest,
    {
        let d = digit_str(rest % 10);
        let next = String::from_str(d).concat(r.as_str());
        proof {
            if rest / 10 > 0 {
                assert(decimal(rest as nat) == decimal((rest / 10) as nat).push(digit_char((rest % 10) as nat)));
                assert(decimal((rest / 10) as nat) + next@ =~= decimal(rest as nat) + r@);
            } else {
                assert(decimal(rest as nat) == seq![digit_char(rest as nat)]);
                assert(next@ =~= decimal(rest as nat) + r@);
            }
        }
        r = next;
        rest = rest / 10;
    }
    r
}


/// The arithmetic the decomposition engine needs from a numeric type that
/// holds a duration, with `val` the integer a value stands for.
pub trait Value: Sized + Copy {
    spec fn val(self) -> int;

    /// Whether the type can hold the integer `x`.
    spec fn holds(x: int) -> bool;

    /// Every integer between zero and a held value is held too.
    proof fn lemma_holds_below(a: Self, x: int)
        requires
            0 <= x <= a.val(),
        ensures
            Self::holds(x),
    ;

    fn more(self, other: Self) -> (r: bool)
        ensures
            r == (self.val() > other.val()),
    ;

    fn divide(self, other: Self) -> (r: Self)
        requires
            self.val() >= 0,
            other.val() > 0,
        ensures
            r.val() == self.val() / other.val(),
    ;

    fn minus(self, other: Self) -> (r: Self)
        requires
            Self::holds(self.val() - other.val()),
        ensures
            r.val() == self.val() - other.val(),
    ;

    fn mul(self, other: Self) -> (r: Self)
        requires
            Self::holds(self.val() * other.val()),
        ensures
            r.val() == self.val() * other.val(),
    ;

    fn is_one(self) -> (r: bool)
        ensures
            r == (self.val() == 1),
    ;

    /// The value in decimal.
    fn to_decimal(self) -> (r: String)
        requires
            self.val() >= 0,
        ensures
            r@ == decimal(self.val() as nat),
    ;
}

impl Value for i64 {
    open spec fn val(self) -> int {
        self as int
    }

    open spec fn holds(x: int) -> bool {
        i64::MIN <= x <= i64::MAX
    }

    proof fn lemma_holds_below(a: Self, x: int) {
    }

    fn more(self, other: Self) -> (r: bool) {
        self > other
    }

    fn divide(self, other: Self) -> (r: Self) {
        self / other
    }

    fn minus(self, other: Self) -> (r: Self) {
        self - other
    }

    fn mul(self, other: Self) -> (r: Self) {
        self * other
    }

    fn is_one(self) -> (r: bool) {
        self == 1
    }

    fn to_decimal(self) -> (r: String) {
        decimal_string(self as u128)
    }
}

impl Value for u128 {
    open spec fn val(self) -> int {
        self as int
    }

    open spec fn holds(x: int) -> bool {
        0 <= x <= u128::MAX
    }

    proof fn lemma_holds_below(a: Self, x: int) {
    }

    fn more(self, other: Self) -> (r: bool) {
        self > other
    }

    fn divide(self, other: Self) -> (r: Self) {
        self / other
    }

    fn minus(self, other: Self) -> (r: Self) {
        self - other
    }

    fn mul(self, other: Self) -> (r: Self) {
        self * other
    }

    fn is_one(self) -> (r: bool) {
        self == 1
    }

    fn to_decimal(self) -> (r: String) {
        decimal_string(self)
    }
}

/// An output buffer that text is appended to, with `text` what it holds.
pub trait StringAppend<V: Value> {
    spec fn text(&self) -> Seq<char>;

    /// Whether the buffer is in a state that appends keep meaningful.
    spec fn wf(&self) -> bool;

    /// Appends the value, the unit name and a plural `s`.
    fn append_value_s(&mut self, value: V, units: &str)
        requires
            old(self).wf(),
            value.val() >= 0,
        ensures
            final(self).wf(),
            final(self).text() == old(self).text() + decimal(value.val() as nat) + units@ + seq!['s'],
    ;

    /// Appends the value and the unit name.
    fn append_value(&mut self, value: V, units: &str)
        requires
            old(self).wf(),
            value.val() >= 0,
        ensures
            final(self).wf(),
            final(self).text() == old(self).text() + decimal(value.val() as nat) + units@,
    ;

    /// Appends a space, unless the buffer is empty.
    fn append_divider(&mut self)
        requires
            old(self).wf(),
        ensures
            final(self).wf(),
            final(self).text() == with_divider(old(self).text()),
    ;
}

/// The text after a divider is appended: a space, unless it is empty.
pub open spec fn with_divider(text: Seq<char>) -> Seq<char> {
    if text.len() == 0 {
        text
    } else {
        text.push(' ')
    }
}

impl<V: Value> StringAppend<V> for String {
    open spec fn text(&self) -> Seq<char> {
        self@
    }

    open spec fn wf(&self) -> bool {
        true
    }

    fn append_value_s(&mut self, value: V, units: &str) {
        let digits = value.to_decimal();
        self.append(digits.as_str());
        self.append(units);
        proof {
            reveal_strlit("s");
        }
        self.append("s");
    }

    fn append_value(&mut self, value: V, units: &str) {
        let digits = value.to_decimal();
        self.append(digits.as_str());
        self.append(units);
    }

    fn append_divider(&mut self) {
        if !self.as_str().is_empty() {
            proof {
                reveal_strlit(" ");
            }
            self.append(" ");
        }
    }
}

/// A unit as the engine reads it: its multiplier, long name and short name.
pub type UnitSpec = (int, Seq<char>, Seq<char>);

/// The units of a table, with each multiplier as an integer and each name as
/// its characters.
pub open spec fn unit_specs<V: Value>(units: Seq<(V, &str, &str)>) -> Seq<UnitSpec> {
    units.map_values(|u: (V, &str, &str)| (u.0.val(), u.1@, u.2@))
}

/// The quantity of a unit with multiplier `m` taken out of `value`: none
/// unless `value` strictly exceeds `m`.
pub open spec fn quantity(value: int, m: int) -> int {
    if value > m {
        value / m
    } else {
        0
    }
}

/// The token of quantity `q` of a unit called `name`; long names take a
/// plural `s` when `q` is not one, short names never do.
pub open spec fn token(q: int, name: Seq<char>, short_units: bool) -> Seq<char> {
    decimal(q as nat) + name + if !short_units && q != 1 {
        seq!['s']
    } else {
        seq![]
    }
}

/// The name used for a unit.
pub open spec fn unit_name(u: UnitSpec, short_units: bool) -> Seq<char> {
    if short_units {
        u.2
    } else {
        u.1
    }
}

/// The text after formatting `value` over `units`, in the order given, onto
/// `text`: each unit whose multiplier `value` strictly exceeds adds a token,
/// after a divider, and leaves the remainder for the units after it.
pub open spec fn render(text: Seq<char>, units: Seq<UnitSpec>, short_units: bool, value: int) -> Seq<char>
    decreases units.len(),
{
    if units.len() == 0 {
        text
    } else {
        let m = units[0].0;
        let q = quantity(value, m);
        if q > 0 {
            render(
                with_divider(text) + token(q, unit_name(units[0], short_units), short_units),
                units.drop_first(),
                short_units,
                value - q * m,
            )
        } else {
            render(text, units.drop_first(), short_units, value)
        }
    }
}

/// Format `value` using the units given, largest first, with their multipliers.
pub fn custom_format<B: StringAppend<V>, V: Value>(
    builder: &mut B,
    units: &[(V, &str, &str)],
    short_units: bool,
    value: V,
)
    requires
        old(builder).wf(),
        forall|i: int| 0 <= i < units@.len() ==> (#[trigger] units@[i]).0.val() > 0,
    ensures
        final(builder).wf(),
        final(builder).text() == render(old(builder).text(), unit_specs(units@), short_units, value.val()),
{
    let mut rest = value;
    let mut i: usize = 0;
    let ghost all = unit_specs(units@);
    assert(all.skip(0) =~= all);
    while i < units.len()
        invariant
            0 <= i <= units@.len(),
            builder.wf(),
            all == unit_specs(units@),
            forall|j: int| 0 <= j < units@.len() ==> (#[trigger] units@[j]).0.val() > 0,
            render(old(builder).text(), all, short_units, value.val())
                == render(builder.text(), all.skip(i as int), short_units, rest.val()),
        decreases units.len() - i,
    {
        let (total, long, short) = units[i];
        let ghost before = builder.text();
        proof {
            assert(all.skip(i as int).drop_first() =~= all.skip(i + 1));
            assert(all.skip(i as int)[0] == (total.val(), long@, short@));
            assert(total.val() > 0 ==> (quantity(rest.val(), total.val()) > 0 <==> rest.val() > total.val())) by (nonlinear_arith);
            assert(units@[i as int].0.val() > 0);
        }
        if rest.more(total) {
            let val = rest.divide(total);
            proof {
                assert(val.val() > 0) by (nonlinear_arith)
                    requires val.val() == rest.val() / total.val(), rest.val() > total.val(), total.val() > 0;
                assert(0 <= val.val() * total.val() <= rest.val()) by (nonlinear_arith)
                    requires val.val() == rest.val() / total.val(), rest.val() > total.val(), total.val() > 0;
                V::lemma_holds_below(rest, val.val() * total.val());
                V::lemma_holds_below(rest, rest.val() - val.val() * total.val());
            }
            let consumed = val.mul(total);
            rest = rest.minus(consumed);
            let unit = if short_units { short } else { long };
            builder.append_divider();
            if !val.is_one() && !short_units {
                builder.append_value_s(val, unit);
            } else {
                builder.append_value(val, unit);
            }
            assert(builder.text() =~= with_divider(before) + token(val.val(), unit@, short_units));
        }
        i = i + 1;
    }
    proof {
        assert(all.skip(units@.len() as int).len() == 0);
    }
}


/// The unit table built from per-step multipliers, smallest unit first: each
/// unit's multiplier is its step times the multiplier of the unit before it,
/// starting from `acc`.
pub open spec fn cumulate(steps: Seq<UnitSpec>, acc: int) -> Seq<UnitSpec>
    decreases steps.len(),
{
    if steps.len() == 0 {
        seq![]
    } else {
        let m = acc * steps[0].0;
        seq![(m, steps[0].1, steps[0].2)] + cumulate(steps.drop_first(), m)
    }
}

/// Builds a unit table, smallest unit first, from per-step multipliers.
pub fn build_table<V: Value>(steps: &[(V, &'static str, &'static str)], one: V) -> (r: Vec<(V, &'static str, &'static str)>)
    requires
        one.val() == 1,
        forall|i: int| 0 <= i < steps@.len() ==> V::holds(#[trigger] cumulate(unit_specs(steps@), 1)[i].0),
    ensures
        unit_specs(r@) == cumulate(unit_specs(steps@), 1),
{
    let ghost all = unit_specs(steps@);
    let mut r: Vec<(V, &'static str, &'static str)> = Vec::new();
    let mut acc = one;
    let mut i: usize = 0;
    assert(all.skip(0) =~= all);
    assert(unit_specs(r@) + cumulate(all.skip(0), 1) =~= cumulate(all, 1));
    while i < steps.len()
        invariant
            0 <= i <= steps@.len(),
            all == unit_specs(steps@),
            forall|k: int| 0 <= k < steps@.len() ==> V::holds(#[trigger] cumulate(all, 1)[k].0),
            unit_specs(r@).len() == i,
            unit_specs(r@) + cumulate(all.skip(i as int), acc.val()) == cumulate(all, 1),
        decreases steps.len() - i,
    {
        let (step, long, short) = steps[i];
        proof {
            assert(all.skip(i as int).drop_first() =~= all.skip(i + 1));
            assert(all.skip(i as int)[0] == (step.val(), long@, short@));
            assert(cumulate(all, 1)[i as int].0 == acc.val() * step.val());
        }
        acc = acc.mul(step);
        let ghost old_r = unit_specs(r@);
        r.push((acc, long, short));
        proof {
            assert(unit_specs(r@) =~= old_r.push((acc.val(), long@, short@)));
        }
        i = i + 1;
    }
    proof {
        assert(cumulate(all.skip(i as int), acc.val()) =~= seq![]);
        assert(unit_specs(r@) =~= unit_specs(r@) + seq![]);
    }
    r
}


/// The units of a table, smallest first, that a precision of `from` keeps,
/// in the order the engine reads them: largest first.
pub open spec fn window(table: Seq<UnitSpec>, from: int) -> Seq<UnitSpec> {
    table.skip(from).reverse()
}

/// The text of a duration of `value` over a table, smallest unit first, with
/// the units below `from` discarded: `0s` for zero, else the rendered tokens.
pub open spec fn duration_text(table: Seq<UnitSpec>, from: int, short_units: bool, value: int) -> Seq<char> {
    if value == 0 {
        seq!['0', 's']
    } else {
        render(seq![], window(table, from), short_units, value)
    }
}

/// The units of a table, smallest first, from index `from` on, largest first.
pub(crate) fn window_units<V: Value>(table: &Vec<(V, &'static str, &'static str)>, from: usize) -> (r: Vec<(V, &'static str, &'static str)>)
    requires
        from <= table@.len(),
    ensures
        r@ == table@.skip(from as int).reverse(),
        unit_specs(r@) == window(unit_specs(table@), from as int),
{
    let mut units: Vec<(V, &'static str, &'static str)> = Vec::new();
    let mut j: usize = table.len();
    while j > from
        invariant
            from <= j <= table@.len(),
            units@ =~= table@.skip(j as int).reverse(),
        decreases j,
    {
        j = j - 1;
        units.push(table[j]);
    }
    assert(unit_specs(units@) =~= window(unit_specs(table@), from as int));
    units
}

/// Formats `value` over `table`, smallest unit first, keeping the units from
/// index `from` on: the tokens alone, with no special case for zero.
pub fn format_window<V: Value>(
    table: &Vec<(V, &'static str, &'static str)>,
    from: usize,
    short_units: bool,
    value: V,
) -> (r: String)
    requires
        from <= table@.len(),
        forall|i: int| 0 <= i < table@.len() ==> (#[trigger] table@[i]).0.val() > 0,
    ensures
        r@ == render(seq![], window(unit_specs(table@), from as int), short_units, value.val()),
{
    let units = window_units(table, from);
    let mut r = String::new();
    custom_format(&mut r, units.as_slice(), short_units, value);
    r
}


/// The quantity taken at each unit, in the order given: zero where a unit
/// gives no token.
pub open spec fn quantities(units: Seq<UnitSpec>, value: int) -> Seq<int>
    decreases units.len(),
{
    if units.len() == 0 {
        seq![]
    } else {
        let q = quantity(value, units[0].0);
        seq![q] + quantities(units.drop_first(), value - q * units[0].0)
    }
}

/// What is left of `value` after every unit has taken its quantity.
pub open spec fn leftover(units: Seq<UnitSpec>, value: int) -> int
    decreases units.len(),
{
    if units.len() == 0 {
        value
    } else {
        leftover(units.drop_first(), value - quantity(value, units[0].0) * units[0].0)
    }
}

/// The tokens of the given quantities after `text`, one for each unit whose
/// quantity is positive, each after a divider.
pub open spec fn join_tokens(text: Seq<char>, qs: Seq<int>, units: Seq<UnitSpec>, short_units: bool) -> Seq<char>
    decreases qs.len(),
{
    if qs.len() == 0 || units.len() == 0 {
        text
    } else if qs[0] > 0 {
        join_tokens(
            with_divider(text) + token(qs[0], unit_name(units[0], short_units), short_units),
            qs.drop_first(),
            units.drop_first(),
            short_units,
        )
    } else {
        join_tokens(text, qs.drop_first(), units.drop_first(), short_units)
    }
}

/// The rendered text is the tokens of the decomposition's quantities: one
/// token for each unit whose quantity is positive, none for the others.
pub proof fn lemma_render_is_quantities(text: Seq<char>, units: Seq<UnitSpec>, short_units: bool, value: int)
    requires
        forall|i: int| 0 <= i < units.len() ==> (#[trigger] units[i]).0 > 0,
    ensures
        render(text, units, short_units, value) == join_tokens(text, quantities(units, value), units, short_units),
    decreases units.len(),
{
    if units.len() > 0 {
        let m = units[0].0;
        let q = quantity(value, m);
        let rest = units.drop_first();
        assert(m > 0);
        assert(value > m ==> value / m >= 1) by (nonlinear_arith)
            requires
                m > 0,
        ;
        assert forall|i: int| 0 <= i < rest.len() implies (#[trigger] rest[i]).0 > 0 by {
            assert(rest[i] == units[i + 1]);
        }
        let qs = quantities(units, value);
        assert(qs[0] == q);
        assert(qs.drop_first() =~= quantities(rest, value - q * m));
        if q > 0 {
            let next = with_divider(text) + token(q, unit_name(units[0], short_units), short_units);
            lemma_render_is_quantities(next, rest, short_units, value - q * m);
        } else {
            assert(q * m == 0) by (nonlinear_arith)
                requires
                    q == 0,
            ;
            lemma_render_is_quantities(text, rest, short_units, value);
        }
    }
}

/// The sum of each quantity times its unit's multiplier.
pub open spec fn weighted_sum(qs: Seq<int>, units: Seq<UnitSpec>) -> int
    decreases qs.len(),
{
    if qs.len() == 0 || units.len() == 0 {
        0
    } else {
        qs[0] * units[0].0 + weighted_sum(qs.drop_first(), units.drop_first())
    }
}

/// The decomposition is exact: the quantities times their multipliers, plus
/// what is left below the last unit, give back the value; and what is left
/// is at most the last unit's multiplier.
pub proof fn lemma_decomposition_exact(units: Seq<UnitSpec>, value: int)
    requires
        value >= 0,
        forall|i: int| 0 <= i < units.len() ==> (#[trigger] units[i]).0 > 0,
    ensures
        weighted_sum(quantities(units, value), units) + leftover(units, value) == value,
        0 <= leftover(units, value),
        units.len() > 0 ==> leftover(units, value) <= units.last().0,
    decreases units.len(),
{
    if units.len() > 0 {
        let m = units[0].0;
        let q = quantity(value, m);
        assert(m > 0);
        assert(0 <= value - q * m && (value > m ==> value - q * m < m) && (value <= m ==> value - q * m == value)) by (nonlinear_arith)
            requires m > 0, value >= 0, q == (if value > m { value / m } else { 0 });
        let rest = units.drop_first();
        assert forall|i: int| 0 <= i < rest.len() implies (#[trigger] rest[i]).0 > 0 by {
            assert(rest[i] == units[i + 1]);
        }
        lemma_decomposition_exact(rest, value - q * m);
        assert(quantities(units, value).drop_first() =~= quantities(rest, value - q * m));
        if rest.len() == 0 {
            assert(units.last() == units[0]);
        } else {
            assert(units.last() == rest.last());
        }
    }
}

/// What two runs of units in a row leave is what the second run leaves of
/// what the first leaves.
pub proof fn lemma_leftover_concat(a: Seq<UnitSpec>, b: Seq<UnitSpec>, value: int)
    ensures
        leftover(a + b, value) == leftover(b, leftover(a, value)),
    decreases a.len(),
{
    if a.len() == 0 {
        assert(a + b =~= b);
    } else {
        assert((a + b).drop_first() =~= a.drop_first() + b);
        assert((a + b)[0] == a[0]);
        lemma_leftover_concat(a.drop_first(), b, value - quantity(value, a[0].0) * a[0].0);
    }
}

/// Where every multiplier is a multiple of `k`, what is left has the
/// remainder modulo `k` that the value has.
pub proof fn lemma_leftover_mod(units: Seq<UnitSpec>, value: int, k: int)
    requires
        k > 0,
        forall|i: int| 0 <= i < units.len() ==> (#[trigger] units[i]).0 % k == 0,
    ensures
        leftover(units, value) % k == value % k,
    decreases units.len(),
{
    if units.len() > 0 {
        let m = units[0].0;
        let q = quantity(value, m);
        let rest = units.drop_first();
        assert(m % k == 0);
        lemma_fundamental_div_mod(m, k);
        let c = q * (m / k);
        assert(value - q * m == k * (-c) + value) by (nonlinear_arith)
            requires
                m == k * (m / k) + 0,
                c == q * (m / k),
        ;
        lemma_mod_multiples_vanish(-c, value, k);
        assert forall|i: int| 0 <= i < rest.len() implies (#[trigger] rest[i]).0 % k == 0 by {
            assert(rest[i] == units[i + 1]);
        }
        lemma_leftover_mod(rest, value - q * m, k);
    }
}

/// What a table leaves, largest unit first, whose smallest unit is 1 and
/// whose other multipliers are multiples of the next smallest, `k`: one
/// where the value is one more than a multiple of `k`, else nothing.
pub proof fn lemma_leftover_exact(units: Seq<UnitSpec>, value: int, k: int)
    requires
        value >= 0,
        k > 1,
        units.len() >= 2,
        units.last().0 == 1,
        units[units.len() - 2].0 == k,
        forall|i: int| 0 <= i < units.len() ==> (#[trigger] units[i]).0 > 0,
        forall|i: int| 0 <= i < units.len() - 1 ==> (#[trigger] units[i]).0 % k == 0,
    ensures
        leftover(units, value) == if value % k == 1 {
            1int
        } else {
            0
        },
{
    let a = units.drop_last();
    let b = seq![units.last()];
    assert(units =~= a + b);
    lemma_leftover_concat(a, b, value);
    assert forall|i: int| 0 <= i < a.len() implies (#[trigger] a[i]).0 > 0 by {
        assert(a[i] == units[i]);
    }
    assert forall|i: int| 0 <= i < a.len() implies (#[trigger] a[i]).0 % k == 0 by {
        assert(a[i] == units[i]);
    }
    lemma_decomposition_exact(a, value);
    lemma_leftover_mod(a, value, k);
    let x = leftover(a, value);
    assert(a.last() == units[units.len() - 2]);
    assert(0 <= x <= k);
    assert(b.drop_first() =~= Seq::<UnitSpec>::empty());
    assert(leftover(b, x) == leftover(b.drop_first(), x - quantity(x, 1) * 1));
    assert(leftover(b, x) == if x == 1 { 1int } else { 0 });
    if x < k {
        lemma_small_mod(x as nat, k as nat);
    } else {
        lemma_mod_multiples_basic(1, k);
    }
    lemma_small_mod(1, k as nat);
}

/// Rendering only appends: the text it starts from stays a prefix.
pub proof fn lemma_render_extends(text: Seq<char>, units: Seq<UnitSpec>, short_units: bool, value: int)
    ensures
        text.is_prefix_of(render(text, units, short_units, value)),
    decreases units.len(),
{
    if units.len() > 0 {
        let m = units[0].0;
        let q = quantity(value, m);
        if q > 0 {
            let next = with_divider(text) + token(q, unit_name(units[0], short_units), short_units);
            lemma_render_extends(next, units.drop_first(), short_units, value - q * m);
            assert(text.is_prefix_of(next));
        } else {
            lemma_render_extends(text, units.drop_first(), short_units, value);
        }
    }
}

/// Rendering over two runs of units in a row is rendering over the second
/// run, from the text and the leftover of the first.
pub proof fn lemma_render_concat(
    text: Seq<char>,
    a: Seq<UnitSpec>,
    b: Seq<UnitSpec>,
    short_units: bool,
    value: int,
)
    requires
        forall|i: int| 0 <= i < a.len() ==> (#[trigger] a[i]).0 > 0,
    ensures
        render(text, a + b, short_units, value) == render(render(text, a, short_units, value), b, short_units, leftover(a, value)),
    decreases a.len(),
{
    if a.len() == 0 {
        assert(a + b =~= b);
    } else {
        assert((a + b).drop_first() =~= a.drop_first() + b);
        assert((a + b)[0] == a[0]);
        let m = a[0].0;
        let q = quantity(value, m);
        let rest = a.drop_first();
        assert(m > 0);
        assert(value > m ==> value / m >= 1) by (nonlinear_arith)
            requires
                m > 0,
        ;
        assert forall|i: int| 0 <= i < rest.len() implies (#[trigger] rest[i]).0 > 0 by {
            assert(rest[i] == a[i + 1]);
        }
        if q > 0 {
            let next = with_divider(text) + token(q, unit_name(a[0], short_units), short_units);
            lemma_render_concat(next, a.drop_first(), b, short_units, value - q * m);
        } else {
            lemma_render_concat(text, a.drop_first(), b, short_units, value);
            assert(value - q * m == value);
        }
    }
}

/// Raising the precision never adds tokens and never reorders them: the text
/// with the coarser precision is a prefix of the text with the finer one.
pub proof fn lemma_precision_prefix(table: Seq<UnitSpec>, fine: int, coarse: int, short_units: bool, value: int)
    requires
        0 <= fine <= coarse <= table.len(),
        forall|i: int| 0 <= i < table.len() ==> (#[trigger] table[i]).0 > 0,
    ensures
        duration_text(table, coarse, short_units, value).is_prefix_of(duration_text(table, fine, short_units, value)),
{
    if value != 0 {
        let a = window(table, coarse);
        let b = table.subrange(fine, coarse).reverse();
        assert(window(table, fine) =~= a + b);
        assert forall|i: int| 0 <= i < a.len() implies (#[trigger] a[i]).0 > 0 by {
            assert(a[i] == table[table.len() - 1 - i]);
        }
        lemma_render_concat(seq![], a, b, short_units, value);
        lemma_render_extends(render(seq![], a, short_units, value), b, short_units, leftover(a, value));
    }
}

/// A zero duration reads `0s`, whatever the table, precision or naming.
pub proof fn lemma_zero_text(table: Seq<UnitSpec>, from: int, short_units: bool)
    ensures
        duration_text(table, from, short_units, 0) == seq!['0', 's'],
{
}

/// Long names take a plural `s` exactly where the quantity is not one;
/// short names never do.
pub proof fn lemma_pluralization(q: int, name: Seq<char>)
    ensures
        q != 1 ==> token(q, name, false) == decimal(q as nat) + name + seq!['s'],
        q == 1 ==> token(q, name, false) == decimal(q as nat) + name,
        token(q, name, true) == decimal(q as nat) + name,
{
    assert(decimal(q as nat) + name + seq![] =~= decimal(q as nat) + name);
}

} // verus!
