//! The keys under which an index may hold a number.
//!
//! An index orders integers, doubles and decimals apart, so a number of a query has to be looked
//! up in each of these forms.
use crate::decimal::{has_decimal, is_close, power_of_ten, with_sign, Decimal, MANTISSA_BOUND};
use crate::double::{
    abs, as_i64, ceil_int, exact_int, floor, floor_int, from_int, is_finite, is_integral,
    is_nearest, is_negative, law_floor_and_ceil_enclose, law_small_integers_are_exact,
    law_ceil_int_is_just_above, law_exact_int_has_the_value, law_floor_int_is_just_below,
    law_nearest_is_closest, law_nearest_is_within_a_part, law_value_determines_bits, significand,
    unit_exponent,
    lemma_integral_magnitude, lemma_zeros, magnitude, nearest_double, one, to_ceil_int,
    to_exact_int, to_floor_int, units, EXPONENT_WEIGHT, SIGNIFICAND_BOUND,
};
use crate::executor::QueryExecutor;
use crate::plan::{IteratorRange, ValueType};
use crate::value::{Number, RangeValue, Value};
use vstd::arithmetic::div_mod::{lemma_fundamental_div_mod, lemma_fundamental_div_mod_converse};
use vstd::arithmetic::power2::{lemma_pow2_pos, pow2};
use vstd::prelude::*;

verus! {

/// A number as an integer, as the bits of a double and as a decimal, in so far as it has these
/// forms.
pub type NumberVariants = (Option<i64>, Option<u64>, Option<Decimal>);

/// How a number becomes an integer.
pub enum Rounding {
    /// Only where it is one.
    Exact,
    /// A double is rounded down; a decimal loses its fractional digits.
    Down,
    /// A double is rounded up; a decimal loses its fractional digits.
    Up,
}

/// The integer form of a double.
pub open spec fn rounded_int(rounding: Rounding, bits: u64) -> Option<i64> {
    match rounding {
        Rounding::Exact => exact_int(bits),
        Rounding::Down => floor_int(bits),
        Rounding::Up => ceil_int(bits),
    }
}

/// `d` is the decimal form of a double: there is one exactly below `2^96`, and it is exact for
/// an integer.
pub open spec fn is_decimal_of(bits: u64, d: Option<Decimal>) -> bool {
    &&& d == Decimal::of_double(bits)
    &&& d is Some <==> has_decimal(bits)
    &&& d is Some && is_integral(bits) ==> d == Some(
        Decimal::of_parts(is_negative(bits), (magnitude(bits) / one()) as u128, 0),
    )
}

/// The integer form of a number. A number without it in an equality may still have one at the end
/// of a range.
pub open spec fn integer_of(n: Number, rounding: Rounding) -> Option<i64> {
    match n {
        Number::Int(i) => Some(i),
        Number::Float(bits) => rounded_int(rounding, bits),
        Number::Decimal(d) => match rounding {
            Rounding::Exact => d.exact_int(),
            _ => as_i64(d.int_part()),
        },
    }
}

/// `v` holds the forms of `n` as a double and as a decimal.
pub open spec fn are_other_forms(n: Number, v: NumberVariants) -> bool {
    match n {
        Number::Int(i) => {
            &&& v.1 == Some(nearest_double(i as int))
            &&& is_nearest(nearest_double(i as int), i as int)
            &&& v.2 == Some(Decimal::of_int(i as int))
        },
        Number::Float(bits) => v.1 == Some(bits) && is_decimal_of(bits, v.2),
        Number::Decimal(d) => {
            &&& v.1 is Some
            &&& d.may_be_double(v.1->0)
            &&& v.2 == Some(d)
        },
    }
}

/// `v` holds the forms of `n`, where `float_int` is the integer form that a double is given. Any
/// other number has an integer form exactly if it is an integer that fits.
pub open spec fn are_forms(n: Number, float_int: Option<i64>, v: NumberVariants) -> bool {
    &&& v.0 == (match n {
        Number::Float(_) => float_int,
        _ => integer_of(n, Rounding::Exact),
    })
    &&& are_other_forms(n, v)
}

/// `v` holds the forms of `n`, with the integer form by the given rounding.
pub open spec fn are_variants(n: Number, rounding: Rounding, v: NumberVariants) -> bool {
    v.0 == integer_of(n, rounding) && are_other_forms(n, v)
}

/// The forms as numbers.
pub open spec fn int_form(v: NumberVariants) -> Option<Number> {
    match v.0 {
        Some(i) => Some(Number::Int(i)),
        None => None,
    }
}

pub open spec fn float_form(v: NumberVariants) -> Option<Number> {
    match v.1 {
        Some(bits) => Some(Number::Float(bits)),
        None => None,
    }
}

pub open spec fn decimal_form(v: NumberVariants) -> Option<Number> {
    match v.2 {
        Some(d) => Some(Number::Decimal(d)),
        None => None,
    }
}

/// The value in a sequence of its own, where there is one.
pub open spec fn if_some(n: Option<Number>) -> Seq<Value> {
    match n {
        Some(n) => seq![Value::Number(n)],
        None => Seq::empty(),
    }
}

/// The forms of a number as values: integer, double, decimal.
pub open spec fn form_values(v: NumberVariants) -> Seq<Value> {
    if_some(int_form(v)) + if_some(float_form(v)) + if_some(decimal_form(v))
}

/// An end of a range at a number, or an open end.
pub open spec fn range_end(n: Option<Number>, inclusive: bool) -> RangeValue {
    match n {
        Some(n) => RangeValue { value: Value::Number(n), inclusive },
        None => RangeValue { value: Value::Absent, inclusive: false },
    }
}

/// The range above a number, where there is one.
pub open spec fn range_from(t: ValueType, from: Option<Number>, inclusive: bool) -> Seq<
    IteratorRange,
> {
    match from {
        Some(_) => seq![
            IteratorRange {
                value_type: t,
                from: range_end(from, inclusive),
                to: range_end(None, false),
            },
        ],
        None => Seq::empty(),
    }
}

/// The range below a number, where there is one.
pub open spec fn range_to(t: ValueType, to: Option<Number>, inclusive: bool) -> Seq<IteratorRange> {
    match to {
        Some(_) => seq![
            IteratorRange {
                value_type: t,
                from: range_end(None, false),
                to: range_end(to, inclusive),
            },
        ],
        None => Seq::empty(),
    }
}

/// The range between two numbers, where there are both.
pub open spec fn range_between(
    t: ValueType,
    from: Option<Number>,
    from_inc: bool,
    to: Option<Number>,
    to_inc: bool,
) -> Seq<IteratorRange> {
    if from is Some && to is Some {
        seq![
            IteratorRange {
                value_type: t,
                from: range_end(from, from_inc),
                to: range_end(to, to_inc),
            },
        ]
    } else {
        Seq::empty()
    }
}

/// The ranges above a number, one for each of its forms.
pub open spec fn ranges_from(v: NumberVariants, inclusive: bool) -> Seq<IteratorRange> {
    range_from(ValueType::NumberInt, int_form(v), inclusive) + range_from(
        ValueType::NumberFloat,
        float_form(v),
        inclusive,
    ) + range_from(ValueType::NumberDecimal, decimal_form(v), inclusive)
}

/// The ranges below a number, one for each of its forms.
pub open spec fn ranges_to(v: NumberVariants, inclusive: bool) -> Seq<IteratorRange> {
    range_to(ValueType::NumberInt, int_form(v), inclusive) + range_to(
        ValueType::NumberFloat,
        float_form(v),
        inclusive,
    ) + range_to(ValueType::NumberDecimal, decimal_form(v), inclusive)
}

/// The ranges between two numbers, one for each form that both of them have.
pub open spec fn ranges_between(
    from: NumberVariants,
    from_inc: bool,
    to: NumberVariants,
    to_inc: bool,
) -> Seq<IteratorRange> {
    range_between(ValueType::NumberInt, int_form(from), from_inc, int_form(to), to_inc)
        + range_between(
        ValueType::NumberFloat,
        float_form(from),
        from_inc,
        float_form(to),
        to_inc,
    ) + range_between(
        ValueType::NumberDecimal,
        decimal_form(from),
        from_inc,
        decimal_form(to),
        to_inc,
    )
}

/// The forms as values, in order.
pub fn number_values(v: &NumberVariants) -> (r: Vec<Value>)
    ensures
        r@ == form_values(*v),
{
    let mut values: Vec<Value> = Vec::new();
    if let Some(i) = v.0 {
        values.push(Value::Number(Number::Int(i)));
    }
    if let Some(bits) = v.1 {
        values.push(Value::Number(Number::Float(bits)));
    }
    if let Some(d) = v.2 {
        values.push(Value::Number(Number::Decimal(d)));
    }
    values
}

fn end_at(n: Number, inclusive: bool) -> (r: RangeValue)
    ensures
        r == range_end(Some(n), inclusive),
{
    RangeValue { value: Value::Number(n), inclusive }
}

fn open_end() -> (r: RangeValue)
    ensures
        r == range_end(None, false),
{
    RangeValue { value: Value::Absent, inclusive: false }
}

/// The ranges above the forms of a number.
pub fn number_ranges_from(v: &NumberVariants, inclusive: bool) -> (r: Vec<IteratorRange>)
    ensures
        r@ == ranges_from(*v, inclusive),
{
    let mut ranges: Vec<IteratorRange> = Vec::new();
    if let Some(i) = v.0 {
        ranges.push(
            IteratorRange::new(ValueType::NumberInt, end_at(Number::Int(i), inclusive), open_end()),
        );
    }
    if let Some(bits) = v.1 {
        ranges.push(
            IteratorRange::new(
                ValueType::NumberFloat,
                end_at(Number::Float(bits), inclusive),
                open_end(),
            ),
        );
    }
    if let Some(d) = v.2 {
        ranges.push(
            IteratorRange::new(
                ValueType::NumberDecimal,
                end_at(Number::Decimal(d), inclusive),
                open_end(),
            ),
        );
    }
    ranges
}

/// The ranges below the forms of a number.
pub fn number_ranges_to(v: &NumberVariants, inclusive: bool) -> (r: Vec<IteratorRange>)
    ensures
        r@ == ranges_to(*v, inclusive),
{
    let mut ranges: Vec<IteratorRange> = Vec::new();
    if let Some(i) = v.0 {
        ranges.push(
            IteratorRange::new(ValueType::NumberInt, open_end(), end_at(Number::Int(i), inclusive)),
        );
    }
    if let Some(bits) = v.1 {
        ranges.push(
            IteratorRange::new(
                ValueType::NumberFloat,
                open_end(),
                end_at(Number::Float(bits), inclusive),
            ),
        );
    }
    if let Some(d) = v.2 {
        ranges.push(
            IteratorRange::new(
                ValueType::NumberDecimal,
                open_end(),
                end_at(Number::Decimal(d), inclusive),
            ),
        );
    }
    ranges
}

/// The ranges between the forms that two numbers share.
pub fn number_ranges_between(
    from: &NumberVariants,
    from_inc: bool,
    to: &NumberVariants,
    to_inc: bool,
) -> (r: Vec<IteratorRange>)
    ensures
        r@ == ranges_between(*from, from_inc, *to, to_inc),
{
    let mut ranges: Vec<IteratorRange> = Vec::new();
    if let (Some(from), Some(to)) = (from.0, to.0) {
        ranges.push(
            IteratorRange::new(
                ValueType::NumberInt,
                end_at(Number::Int(from), from_inc),
                end_at(Number::Int(to), to_inc),
            ),
        );
    }
    if let (Some(from), Some(to)) = (from.1, to.1) {
        ranges.push(
            IteratorRange::new(
                ValueType::NumberFloat,
                end_at(Number::Float(from), from_inc),
                end_at(Number::Float(to), to_inc),
            ),
        );
    }
    if let (Some(from), Some(to)) = (from.2, to.2) {
        ranges.push(
            IteratorRange::new(
                ValueType::NumberDecimal,
                end_at(Number::Decimal(from), from_inc),
                end_at(Number::Decimal(to), to_inc),
            ),
        );
    }
    ranges
}

/// `r` holds the ranges above `from`.
pub open spec fn are_ranges_from(from: Number, inclusive: bool, r: Seq<IteratorRange>) -> bool {
    exists|v: NumberVariants|
        #[trigger] are_variants(from, Rounding::Down, v) && r == ranges_from(v, inclusive)
}

/// `r` holds the ranges below `to`.
pub open spec fn are_ranges_to(to: Number, inclusive: bool, r: Seq<IteratorRange>) -> bool {
    exists|v: NumberVariants|
        #[trigger] are_variants(to, Rounding::Up, v) && r == ranges_to(v, inclusive)
}

/// `r` holds the ranges between `from` and `to`.
pub open spec fn are_ranges_between(
    from: Number,
    from_inc: bool,
    to: Number,
    to_inc: bool,
    r: Seq<IteratorRange>,
) -> bool {
    exists|v: NumberVariants, w: NumberVariants| #[trigger]
        are_variants(from, Rounding::Down, v) && #[trigger] are_variants(to, Rounding::Up, w) && r
            == ranges_between(v, from_inc, w, to_inc)
}

/// `r` holds the ranges that a range with a number at one end or at both is split into: nothing
/// for a range without.
pub open spec fn are_ranges(
    from: RangeValue,
    to: RangeValue,
    r: Option<Seq<IteratorRange>>,
) -> bool {
    match (from.value, to.value) {
        (Value::Number(m), Value::Number(n)) => r is Some && are_ranges_between(
            m,
            from.inclusive,
            n,
            to.inclusive,
            r->0,
        ),
        (Value::Number(m), Value::Absent) => r is Some && are_ranges_from(m, from.inclusive, r->0),
        (Value::Absent, Value::Number(n)) => r is Some && are_ranges_to(n, to.inclusive, r->0),
        _ => r is None,
    }
}

impl QueryExecutor {
    /// The forms of a number. A double is an integer as far as `float_to_int` says so; a decimal
    /// is one if it has no fractional digits and fits.
    pub fn get_number_variants<F: Fn(u64) -> Option<i64>>(n: &Number, float_to_int: F) -> (v:
        NumberVariants)
        requires
            forall|bits: u64| *n == Number::Float(bits) ==> float_to_int.requires((bits,)),
        ensures
            are_forms(*n, v.0, v),
            forall|bits: u64| *n == Number::Float(bits) ==> float_to_int.ensures((bits,), v.0),
    {
        match n {
            Number::Int(i) => (Some(*i), Some(from_int(*i)), Decimal::from_int(*i)),
            Number::Float(bits) => (float_to_int(*bits), Some(*bits), Decimal::from_double(*bits)),
            Number::Decimal(d) => (d.to_exact_int(), d.to_double(), Some(*d)),
        }
    }

    /// Gives a decimal at the end of a range the integer that is left without its fractional
    /// digits.
    fn with_cut_decimal(n: &Number, v: NumberVariants) -> (r: NumberVariants)
        ensures
            r == (match *n {
                Number::Decimal(d) => (as_i64(d.int_part()), v.1, v.2),
                _ => v,
            }),
    {
        match n {
            Number::Decimal(d) => (d.to_int(), v.1, v.2),
            _ => v,
        }
    }

    /// The values equal to a number that an index may hold.
    pub fn get_equal_number_variants(n: &Number) -> (r: Vec<Value>)
        ensures
            exists|v: NumberVariants|
                #[trigger] are_variants(*n, Rounding::Exact, v) && r@ == form_values(v),
    {
        let v = Self::get_number_variants(n, to_exact_int);
        assert(are_variants(*n, Rounding::Exact, v));
        number_values(&v)
    }

    /// The forms of a number at the lower end of a range: doubles are rounded down, and decimals
    /// lose their fractional digits.
    pub fn get_range_number_from_variants(n: &Number) -> (v: NumberVariants)
        ensures
            are_variants(*n, Rounding::Down, v),
    {
        Self::with_cut_decimal(n, Self::get_number_variants(n, to_floor_int))
    }

    /// The forms of a number at the upper end of a range: doubles are rounded up, and decimals
    /// lose their fractional digits.
    pub fn get_range_number_to_variants(n: &Number) -> (v: NumberVariants)
        ensures
            are_variants(*n, Rounding::Up, v),
    {
        Self::with_cut_decimal(n, Self::get_number_variants(n, to_ceil_int))
    }

    /// The ranges above a number.
    pub fn get_from_range_number_variants(from: &Number, from_inc: bool) -> (r: Vec<IteratorRange>)
        ensures
            are_ranges_from(*from, from_inc, r@),
    {
        let v = Self::get_range_number_from_variants(from);
        number_ranges_from(&v, from_inc)
    }

    /// The ranges below a number.
    pub fn get_to_range_number_variants(to: &Number, to_inc: bool) -> (r: Vec<IteratorRange>)
        ensures
            are_ranges_to(*to, to_inc, r@),
    {
        let v = Self::get_range_number_to_variants(to);
        number_ranges_to(&v, to_inc)
    }

    /// The ranges between two numbers.
    pub fn get_ranges_number_variants(
        from: &Number,
        from_inc: bool,
        to: &Number,
        to_inc: bool,
    ) -> (r: Vec<IteratorRange>)
        ensures
            are_ranges_between(*from, from_inc, *to, to_inc, r@),
    {
        let v = Self::get_range_number_from_variants(from);
        let w = Self::get_range_number_to_variants(to);
        number_ranges_between(&v, from_inc, &w, to_inc)
    }

    /// The ranges that a range over numbers is split into; none, where neither end is a number,
    /// or one is a number and the other a value that is not.
    pub fn get_ranges_variants(from: &RangeValue, to: &RangeValue) -> (r: Option<
        Vec<IteratorRange>,
    >)
        ensures
            are_ranges(
                *from,
                *to,
                match r {
                    Some(ranges) => Some(ranges@),
                    None => None,
                },
            ),
    {
        match (&from.value, &to.value) {
            (Value::Number(from_n), Value::Number(to_n)) => Some(
                Self::get_ranges_number_variants(from_n, from.inclusive, to_n, to.inclusive),
            ),
            (Value::Number(from_n), Value::Absent) => Some(
                Self::get_from_range_number_variants(from_n, from.inclusive),
            ),
            (Value::Absent, Value::Number(to_n)) => Some(
                Self::get_to_range_number_variants(to_n, to.inclusive),
            ),
            _ => None,
        }
    }
}

/// A number is among its own forms.
pub proof fn law_number_is_among_its_forms(n: Number, rounding: Rounding, v: NumberVariants)
    requires
        are_variants(n, rounding, v),
    ensures
        form_values(v).contains(Value::Number(n)),
{
    let ints = if_some(int_form(v));
    let floats = if_some(float_form(v));
    let i: int = match n {
        Number::Int(_) => 0,
        Number::Float(_) => ints.len() as int,
        Number::Decimal(_) => (ints.len() + floats.len()) as int,
    };
    assert(form_values(v)[i] == Value::Number(n));
}

/// No value occurs twice among the forms of a number.
pub proof fn law_forms_are_distinct(v: NumberVariants)
    ensures
        form_values(v).no_duplicates(),
        form_values(v).len() <= 3,
{
}

/// The integer that a number is.
pub open spec fn whole(n: Number) -> Option<int> {
    match n {
        Number::Int(i) => Some(i as int),
        Number::Float(bits) => if is_integral(bits) {
            Some(floor(bits))
        } else {
            None
        },
        Number::Decimal(d) => if d.is_integral() {
            Some(d.int_part())
        } else {
            None
        },
    }
}

/// A decimal without scale is its mantissa.
proof fn lemma_scale_zero(negative: bool, mantissa: u128)
    ensures
        Decimal::of_parts(negative, mantissa, 0).is_integral(),
        Decimal::of_parts(negative, mantissa, 0).int_part() == with_sign(negative, mantissa as int),
{
    broadcast use Decimal::lemma_parts;

    vstd::arithmetic::power::lemma_pow0(10);
    lemma_fundamental_div_mod_converse(
        mantissa as int,
        power_of_ten(0),
        mantissa as int,
        0,
    );
}

/// An integer of at most 53 bits, in whatever form it comes, has all three forms, whatever the
/// rounding, and each of them is that integer.
pub proof fn law_forms_denote_the_number(
    n: Number,
    rounding: Rounding,
    v: NumberVariants,
    x: int,
)
    requires
        are_variants(n, rounding, v),
        whole(n) == Some(x),
        -SIGNIFICAND_BOUND <= x <= SIGNIFICAND_BOUND,
    ensures
        v.0 == Some(x as i64),
        v.1 is Some && whole(Number::Float(v.1->0)) == Some(x),
        v.2 is Some && whole(Number::Decimal(v.2->0)) == Some(x),
{
    broadcast use Decimal::lemma_parts;

    lemma_pow2_pos(1074);
    match n {
        Number::Int(i) => {
            law_small_integers_are_exact(v.1->0, x);
            lemma_scale_zero(x < 0, abs(x) as u128);
        },
        Number::Float(bits) => {
            law_floor_and_ceil_enclose(bits);
            lemma_integral_magnitude(bits);
            assert(magnitude(bits) < MANTISSA_BOUND * one()) by (nonlinear_arith)
                requires
                    magnitude(bits) == abs(x) * one(),
                    abs(x) < MANTISSA_BOUND,
                    one() > 0,
            ;
            lemma_scale_zero(is_negative(bits), abs(x) as u128);
        },
        Number::Decimal(d) => {
            if d.spec_mantissa() != 0 {
                law_small_integers_are_exact(v.1->0, x);
            } else {
                lemma_zeros(v.1->0);
                vstd::arithmetic::power::lemma_pow_positive(10, d.spec_scale() as nat);
                lemma_fundamental_div_mod_converse(0, power_of_ten(d.spec_scale()), 0, 0);
            }
        },
    }
}

/// Every integer, in whatever form it comes, keeps its value in its integer form, which it has if
/// it fits, and in its decimal form, which it has unless it is a double of at least `2^96`. As a
/// double it is the nearest one.
pub proof fn law_integers_keep_their_value(
    n: Number,
    rounding: Rounding,
    v: NumberVariants,
    x: int,
)
    requires
        are_variants(n, rounding, v),
        whole(n) == Some(x),
    ensures
        v.0 == as_i64(x),
        v.2 is Some <==> !(n is Float) || abs(x) < MANTISSA_BOUND,
        v.2 is Some ==> whole(Number::Decimal(v.2->0)) == Some(x),
        v.1 is Some,
        n is Float ==> whole(Number::Float(v.1->0)) == Some(x),
        !(n is Float) && x != 0 ==> is_nearest(v.1->0, x),
{
    broadcast use Decimal::lemma_parts;

    lemma_pow2_pos(1074);
    match n {
        Number::Int(i) => {
            lemma_scale_zero(x < 0, abs(x) as u128);
        },
        Number::Float(bits) => {
            law_floor_and_ceil_enclose(bits);
            lemma_integral_magnitude(bits);
            assert(magnitude(bits) < MANTISSA_BOUND * one() <==> abs(x) < MANTISSA_BOUND)
                by (nonlinear_arith)
                requires
                    magnitude(bits) == abs(x) * one(),
                    one() > 0,
            ;
            if v.2 is Some {
                lemma_scale_zero(is_negative(bits), abs(x) as u128);
            }
        },
        Number::Decimal(d) => {
            if d.spec_mantissa() == 0 {
                vstd::arithmetic::power::lemma_pow_positive(10, d.spec_scale() as nat);
                lemma_fundamental_div_mod_converse(0, power_of_ten(d.spec_scale()), 0, 0);
            }
        },
    }
}

/// A decimal keeps its value as a double up to a `2^46`th part of it.
pub proof fn law_decimals_keep_their_value(d: Decimal, rounding: Rounding, v: NumberVariants)
    requires
        are_variants(Number::Decimal(d), rounding, v),
    ensures
        v.1 is Some,
        is_finite(v.1->0),
        is_close(v.1->0, d.spec_negative(), d.spec_mantissa(), d.spec_scale()),
{
    lemma_may_be_double_is_close(d, v.1->0);
}

/// The double of every decimal is close to it.
proof fn lemma_may_be_double_is_close(d: Decimal, bits: u64)
    requires
        d.may_be_double(bits),
    ensures
        is_finite(bits),
        is_close(bits, d.spec_negative(), d.spec_mantissa(), d.spec_scale()),
{
    let p = power_of_ten(d.spec_scale());
    let m = d.spec_mantissa() as int;
    let o = one();
    lemma_pow2_pos(1074);
    vstd::arithmetic::power::lemma_pow_positive(10, d.spec_scale() as nat);
    if d.is_integral() {
        let u = units(bits);
        let q = m / p;
        let x = d.int_part();
        let part = abs(x);
        lemma_fundamental_div_mod(m, p);
        if m != 0 {
            law_nearest_is_within_a_part(bits, x);
        } else {
            lemma_zeros(bits);
            lemma_fundamental_div_mod_converse(0, p, 0, 0);
        }
        let far = abs(u - x * o);
        let s = with_sign(d.spec_negative(), m);
        assert(q >= 0) by (nonlinear_arith)
            requires
                m == p * q,
                m >= 0,
                p > 0,
        ;
        assert(far * EXPONENT_WEIGHT <= part * o) by {
            if m == 0 {
                assert(x * o == 0) by (nonlinear_arith)
                    requires
                        x == 0,
                ;
                assert(part * o == 0) by (nonlinear_arith)
                    requires
                        part == 0,
                ;
            }
        }
        assert(abs(u * p - s * o) == far * p) by (nonlinear_arith)
            requires
                p > 0,
                m == p * q,
                s == (if d.spec_negative() { -m } else { m }),
                x == (if d.spec_negative() { -q } else { q }),
                far == (if u - x * o < 0 { x * o - u } else { u - x * o }),
                abs(u * p - s * o) == (if u * p - s * o < 0 {
                    s * o - u * p
                } else {
                    u * p - s * o
                }),
        ;
        assert((far * p) * 0x4000_0000_0000 <= m * o) by (nonlinear_arith)
            requires
                p > 0,
                far >= 0,
                m == p * q,
                part == q,
                far * 0x10_0000_0000_0000 <= part * o,
        ;
    }
}

/// Whichever doubles a decimal is given, they differ by at most a `2^45`th part of it.
pub proof fn law_doubles_of_a_decimal_agree(d: Decimal, a: u64, b: u64)
    requires
        d.may_be_double(a),
        d.may_be_double(b),
    ensures
        abs(units(a) - units(b)) * power_of_ten(d.spec_scale()) * 0x2000_0000_0000
            <= d.spec_mantissa() * one(),
{
    lemma_may_be_double_is_close(d, a);
    lemma_may_be_double_is_close(d, b);
    let p = power_of_ten(d.spec_scale());
    vstd::arithmetic::power::lemma_pow_positive(10, d.spec_scale() as nat);
    let (x, y) = (units(a), units(b));
    let s = with_sign(d.spec_negative(), d.spec_mantissa() as int) * one();
    let between = abs(x - y);
    assert(between * p <= abs(x * p - s) + abs(y * p - s)) by (nonlinear_arith)
        requires
            p > 0,
            between == (if x - y < 0 { y - x } else { x - y }),
            abs(x * p - s) == (if x * p - s < 0 { s - x * p } else { x * p - s }),
            abs(y * p - s) == (if y * p - s < 0 { s - y * p } else { y * p - s }),
    ;
}

/// A number is looked up as an integer only if it is that integer.
pub proof fn law_equal_integer_is_the_number(n: Number, v: NumberVariants)
    requires
        are_variants(n, Rounding::Exact, v),
    ensures
        v.0 matches Some(i) ==> whole(n) == Some(i as int),
        whole(n) is None ==> v.0 is None,
{
}

/// A number other than a decimal with fractional digits.
pub open spec fn is_determined(n: Number) -> bool {
    match n {
        Number::Decimal(d) => d.is_integral(),
        _ => true,
    }
}

/// Two values that one form of a number may be: the same value, or two doubles that a decimal with
/// fractional digits may be given.
pub open spec fn agree(n: Number, x: Value, y: Value) -> bool {
    x == y || match (n, x, y) {
        (
            Number::Decimal(d),
            Value::Number(Number::Float(a)),
            Value::Number(Number::Float(b)),
        ) => !d.is_integral() && d.may_be_double(a) && d.may_be_double(b),
        _ => false,
    }
}

/// A number has one integer form and one decimal form, and one form as a double unless it is a
/// decimal with fractional digits.
pub proof fn law_forms_are_determined(
    n: Number,
    rounding: Rounding,
    v: NumberVariants,
    w: NumberVariants,
)
    requires
        are_variants(n, rounding, v),
        are_variants(n, rounding, w),
    ensures
        v.0 == w.0,
        v.1 is Some && w.1 is Some,
        v.2 == w.2,
        is_determined(n) ==> v == w,
{
    match n {
        Number::Decimal(d) => {
            if d.is_integral() && d.spec_mantissa() != 0 {
                law_value_determines_bits(v.1->0, w.1->0);
            }
        },
        _ => {},
    }
}

/// An integer lies above a lower end of a range.
pub open spec fn above(n: Number, inclusive: bool, x: int) -> bool {
    match n {
        Number::Int(i) => x > i || (inclusive && x == i),
        Number::Float(bits) => is_finite(bits) && (x * one() > units(bits) || (inclusive && x
            * one() == units(bits))),
        Number::Decimal(d) => {
            let end = with_sign(d.spec_negative(), d.spec_mantissa() as int);
            x * power_of_ten(d.spec_scale()) > end || (inclusive && x * power_of_ten(d.spec_scale())
                == end)
        },
    }
}

/// An integer lies below an upper end of a range.
pub open spec fn below(n: Number, inclusive: bool, x: int) -> bool {
    match n {
        Number::Int(i) => x < i || (inclusive && x == i),
        Number::Float(bits) => is_finite(bits) && (x * one() < units(bits) || (inclusive && x
            * one() == units(bits))),
        Number::Decimal(d) => {
            let end = with_sign(d.spec_negative(), d.spec_mantissa() as int);
            x * power_of_ten(d.spec_scale()) < end || (inclusive && x * power_of_ten(d.spec_scale())
                == end)
        },
    }
}

/// A number that is at most cut downwards when it becomes an integer.
pub open spec fn cut_down(n: Number) -> bool {
    match n {
        Number::Decimal(d) => d.is_integral() || !d.spec_negative(),
        _ => true,
    }
}

/// A number that is at most cut upwards when it becomes an integer.
pub open spec fn cut_up(n: Number) -> bool {
    match n {
        Number::Decimal(d) => d.is_integral() || d.spec_negative(),
        _ => true,
    }
}

/// A quotient and the multiples around it.
proof fn lemma_around_quotient(m: int, p: int, x: int)
    requires
        p > 0,
    ensures
        x * p > m <==> x > m / p,
        x * p == m ==> x == m / p,
        m % p == 0 ==> (x * p == m <==> x == m / p),
        m % p == 0 ==> (x * p < m <==> x < m / p),
{
    lemma_fundamental_div_mod(m, p);
    let q = m / p;
    let r = m % p;
    assert(x * p > m <==> x > q) by (nonlinear_arith)
        requires
            m == p * q + r,
            0 <= r < p,
    ;
    if x * p == m {
        assert(x == q) by (nonlinear_arith)
            requires
                m == p * q + r,
                0 <= r < p,
                x * p == m,
        ;
    }
    if r == 0 {
        assert(x == q ==> x * p == m) by (nonlinear_arith)
            requires
                m == p * q,
        ;
    }
}

/// The integer form of a lower end leaves out no integer above it; where the end itself is left
/// out it also adds none. Of a negative decimal with fractional digits only the first holds, and
/// only if the end is inclusive.
pub proof fn law_lower_end_keeps_integers(n: Number, v: NumberVariants, inclusive: bool, x: int)
    requires
        are_variants(n, Rounding::Down, v),
        v.0 is Some,
        cut_down(n) || inclusive,
    ensures
        above(n, inclusive, x) ==> above(Number::Int(v.0->0), inclusive, x),
        cut_down(n) ==> (above(n, false, x) <==> above(Number::Int(v.0->0), false, x)),
{
    match n {
        Number::Int(_) => {},
        Number::Float(bits) => {
            lemma_pow2_pos(1074);
            lemma_around_quotient(units(bits), one(), x);
        },
        Number::Decimal(d) => {
            let p = power_of_ten(d.spec_scale());
            let m = d.spec_mantissa() as int;
            vstd::arithmetic::power::lemma_pow_positive(10, d.spec_scale() as nat);
            if d.spec_negative() {
                lemma_around_quotient(m, p, -x);
                assert((-x) * p == -(x * p)) by (nonlinear_arith);
            } else {
                lemma_around_quotient(m, p, x);
            }
        },
    }
}

/// The integer form of an upper end leaves out no integer below it; where the end itself is left
/// out it also adds none. Of a positive decimal with fractional digits only the first holds, and
/// only if the end is inclusive.
pub proof fn law_upper_end_keeps_integers(n: Number, v: NumberVariants, inclusive: bool, x: int)
    requires
        are_variants(n, Rounding::Up, v),
        v.0 is Some,
        cut_up(n) || inclusive,
    ensures
        below(n, inclusive, x) ==> below(Number::Int(v.0->0), inclusive, x),
        cut_up(n) ==> (below(n, false, x) <==> below(Number::Int(v.0->0), false, x)),
{
    match n {
        Number::Int(_) => {},
        Number::Float(bits) => {
            lemma_pow2_pos(1074);
            lemma_around_quotient(-units(bits), one(), -x);
            assert((-x) * one() == -(x * one())) by (nonlinear_arith);
        },
        Number::Decimal(d) => {
            let p = power_of_ten(d.spec_scale());
            let m = d.spec_mantissa() as int;
            vstd::arithmetic::power::lemma_pow_positive(10, d.spec_scale() as nat);
            if d.spec_negative() {
                lemma_around_quotient(m, p, -x);
                assert((-x) * p == -(x * p)) by (nonlinear_arith);
            } else {
                lemma_around_quotient(m, p, x);
            }
        },
    }
}

/// A range of integer keys holds an integer.
pub open spec fn holds_int(range: IteratorRange, x: int) -> bool {
    &&& range.value_type == ValueType::NumberInt
    &&& match range.from.value {
        Value::Number(n) => above(n, range.from.inclusive, x),
        _ => true,
    }
    &&& match range.to.value {
        Value::Number(n) => below(n, range.to.inclusive, x),
        _ => true,
    }
}

/// Every integer between two numbers lies in one of the ranges that their range is split into,
/// provided that both have an integer form and that an end which is cut into the range is
/// inclusive.
pub proof fn law_ranges_keep_integers(
    from: Number,
    from_inc: bool,
    to: Number,
    to_inc: bool,
    ranges: Seq<IteratorRange>,
    x: int,
)
    requires
        are_ranges_between(from, from_inc, to, to_inc, ranges),
        integer_of(from, Rounding::Down) is Some,
        integer_of(to, Rounding::Up) is Some,
        cut_down(from) || from_inc,
        cut_up(to) || to_inc,
        above(from, from_inc, x),
        below(to, to_inc, x),
    ensures
        exists|i: int| 0 <= i < ranges.len() && holds_int(#[trigger] ranges[i], x),
{
    let (v, w) = choose|v: NumberVariants, w: NumberVariants| #[trigger]
        are_variants(from, Rounding::Down, v) && #[trigger] are_variants(to, Rounding::Up, w)
            && ranges == ranges_between(v, from_inc, w, to_inc);
    law_lower_end_keeps_integers(from, v, from_inc, x);
    law_upper_end_keeps_integers(to, w, to_inc, x);
    assert(holds_int(ranges[0], x));
}

/// Every integer above a number lies in one of the ranges above it, under the same provision.
pub proof fn law_ranges_above_keep_integers(
    from: Number,
    inclusive: bool,
    ranges: Seq<IteratorRange>,
    x: int,
)
    requires
        are_ranges_from(from, inclusive, ranges),
        integer_of(from, Rounding::Down) is Some,
        cut_down(from) || inclusive,
        above(from, inclusive, x),
    ensures
        exists|i: int| 0 <= i < ranges.len() && holds_int(#[trigger] ranges[i], x),
{
    let v = choose|v: NumberVariants| #[trigger]
        are_variants(from, Rounding::Down, v) && ranges == ranges_from(v, inclusive);
    law_lower_end_keeps_integers(from, v, inclusive, x);
    assert(holds_int(ranges[0], x));
}

/// Every integer below a number lies in one of the ranges below it, under the same provision.
pub proof fn law_ranges_below_keep_integers(
    to: Number,
    inclusive: bool,
    ranges: Seq<IteratorRange>,
    x: int,
)
    requires
        are_ranges_to(to, inclusive, ranges),
        integer_of(to, Rounding::Up) is Some,
        cut_up(to) || inclusive,
        below(to, inclusive, x),
    ensures
        exists|i: int| 0 <= i < ranges.len() && holds_int(#[trigger] ranges[i], x),
{
    let v = choose|v: NumberVariants| #[trigger]
        are_variants(to, Rounding::Up, v) && ranges == ranges_to(v, inclusive);
    law_upper_end_keeps_integers(to, v, inclusive, x);
    assert(holds_int(ranges[0], x));
}

/// The value is a number of the kind of a range, or leaves the end open.
pub open spec fn has_kind(t: ValueType, value: Value) -> bool {
    match value {
        Value::Absent => true,
        Value::Number(Number::Int(_)) => t == ValueType::NumberInt,
        Value::Number(Number::Float(_)) => t == ValueType::NumberFloat,
        Value::Number(Number::Decimal(_)) => t == ValueType::NumberDecimal,
        _ => false,
    }
}

pub open spec fn has_ends_of_its_kind(range: IteratorRange) -> bool {
    has_kind(range.value_type, range.from.value) && has_kind(range.value_type, range.to.value)
}

/// At most one range, of the given kind, with ends of that kind.
spec fn is_single(ranges: Seq<IteratorRange>, t: ValueType) -> bool {
    &&& ranges.len() <= 1
    &&& ranges.len() == 1 ==> ranges[0].value_type == t && has_ends_of_its_kind(ranges[0])
}

/// Ranges of different kinds.
pub open spec fn have_one_kind_each(ranges: Seq<IteratorRange>) -> bool {
    &&& ranges.len() <= 3
    &&& forall|i: int| 0 <= i < ranges.len() ==> has_ends_of_its_kind(#[trigger] ranges[i])
    &&& forall|i: int, j: int|
        0 <= i < j < ranges.len() ==> (#[trigger] ranges[i]).value_type != (
        #[trigger] ranges[j]).value_type
}

proof fn lemma_three_kinds(
    ints: Seq<IteratorRange>,
    floats: Seq<IteratorRange>,
    decimals: Seq<IteratorRange>,
)
    requires
        is_single(ints, ValueType::NumberInt),
        is_single(floats, ValueType::NumberFloat),
        is_single(decimals, ValueType::NumberDecimal),
    ensures
        have_one_kind_each(ints + floats + decimals),
{
    let all = ints + floats + decimals;
    let m = ints.len() as int;
    let n = (ints.len() + floats.len()) as int;
    assert forall|i: int| 0 <= i < all.len() implies (#[trigger] all[i]) == if i < m {
        ints[0]
    } else if i < n {
        floats[0]
    } else {
        decimals[0]
    } by {}
}

/// Each range that a range is split into has ends of its own kind, and no two ranges have one
/// kind.
pub proof fn law_ranges_have_one_kind_each(
    from: RangeValue,
    to: RangeValue,
    ranges: Seq<IteratorRange>,
)
    requires
        are_ranges(from, to, Some(ranges)),
    ensures
        have_one_kind_each(ranges),
{
    match (from.value, to.value) {
        (Value::Number(m), Value::Number(n)) => {
            let (v, w) = choose|v: NumberVariants, w: NumberVariants| #[trigger]
                are_variants(m, Rounding::Down, v) && #[trigger] are_variants(n, Rounding::Up, w)
                    && ranges == ranges_between(v, from.inclusive, w, to.inclusive);
            lemma_three_kinds(
                range_between(
                    ValueType::NumberInt,
                    int_form(v),
                    from.inclusive,
                    int_form(w),
                    to.inclusive,
                ),
                range_between(
                    ValueType::NumberFloat,
                    float_form(v),
                    from.inclusive,
                    float_form(w),
                    to.inclusive,
                ),
                range_between(
                    ValueType::NumberDecimal,
                    decimal_form(v),
                    from.inclusive,
                    decimal_form(w),
                    to.inclusive,
                ),
            );
        },
        (Value::Number(m), _) => {
            let v = choose|v: NumberVariants| #[trigger]
                are_variants(m, Rounding::Down, v) && ranges == ranges_from(v, from.inclusive);
            lemma_three_kinds(
                range_from(ValueType::NumberInt, int_form(v), from.inclusive),
                range_from(ValueType::NumberFloat, float_form(v), from.inclusive),
                range_from(ValueType::NumberDecimal, decimal_form(v), from.inclusive),
            );
        },
        (_, Value::Number(n)) => {
            let v = choose|v: NumberVariants| #[trigger]
                are_variants(n, Rounding::Up, v) && ranges == ranges_to(v, to.inclusive);
            lemma_three_kinds(
                range_to(ValueType::NumberInt, int_form(v), to.inclusive),
                range_to(ValueType::NumberFloat, float_form(v), to.inclusive),
                range_to(ValueType::NumberDecimal, decimal_form(v), to.inclusive),
            );
        },
        _ => {},
    }
}

/// The kind of the keys of a number.
pub open spec fn kind_of(n: Number) -> ValueType {
    match n {
        Number::Int(_) => ValueType::NumberInt,
        Number::Float(_) => ValueType::NumberFloat,
        Number::Decimal(_) => ValueType::NumberDecimal,
    }
}

/// A range between two numbers of one kind is itself among the ranges that it is split into.
pub proof fn law_range_of_one_kind_is_kept(
    from: Number,
    from_inc: bool,
    to: Number,
    to_inc: bool,
    ranges: Seq<IteratorRange>,
)
    requires
        are_ranges_between(from, from_inc, to, to_inc, ranges),
        kind_of(from) == kind_of(to),
    ensures
        ranges.contains(
            IteratorRange {
                value_type: kind_of(from),
                from: range_end(Some(from), from_inc),
                to: range_end(Some(to), to_inc),
            },
        ),
{
    let (v, w) = choose|v: NumberVariants, w: NumberVariants| #[trigger]
        are_variants(from, Rounding::Down, v) && #[trigger] are_variants(to, Rounding::Up, w)
            && ranges == ranges_between(v, from_inc, w, to_inc);
    let ints = range_between(ValueType::NumberInt, int_form(v), from_inc, int_form(w), to_inc);
    let floats = range_between(
        ValueType::NumberFloat,
        float_form(v),
        from_inc,
        float_form(w),
        to_inc,
    );
    let i: int = match from {
        Number::Int(_) => 0,
        Number::Float(_) => ints.len() as int,
        Number::Decimal(_) => (ints.len() + floats.len()) as int,
    };
    let range = IteratorRange {
        value_type: kind_of(from),
        from: range_end(Some(from), from_inc),
        to: range_end(Some(to), to_inc),
    };
    assert(ranges[i] == range);
}

/// The place of a kind among the ranges that a range is split into.
pub open spec fn place_of(t: ValueType) -> int {
    match t {
        ValueType::NumberInt => 0,
        ValueType::NumberFloat => 1,
        ValueType::NumberDecimal => 2,
        ValueType::Unspecified => 3,
    }
}

/// Ranges in the order integers, doubles, decimals, each kind at most once.
pub open spec fn are_in_order(ranges: Seq<IteratorRange>) -> bool {
    forall|i: int, j: int|
        0 <= i < j < ranges.len() ==> place_of((#[trigger] ranges[i]).value_type) < place_of(
            (#[trigger] ranges[j]).value_type,
        )
}

/// There is a range of a kind.
pub open spec fn has_range_of(ranges: Seq<IteratorRange>, t: ValueType) -> bool {
    exists|i: int| 0 <= i < ranges.len() && (#[trigger] ranges[i]).value_type == t
}

/// The one of three sequences that is for a kind.
spec fn part_of(
    ints: Seq<IteratorRange>,
    floats: Seq<IteratorRange>,
    decimals: Seq<IteratorRange>,
    t: ValueType,
) -> Seq<IteratorRange> {
    match t {
        ValueType::NumberInt => ints,
        ValueType::NumberFloat => floats,
        ValueType::NumberDecimal => decimals,
        ValueType::Unspecified => Seq::empty(),
    }
}

/// At most one range, of the given kind.
spec fn is_at_most_one(ranges: Seq<IteratorRange>, t: ValueType) -> bool {
    &&& ranges.len() <= 1
    &&& ranges.len() == 1 ==> ranges[0].value_type == t
}

/// Three sequences one after the other, found again by the kinds.
proof fn lemma_parts_by_kind(
    ints: Seq<IteratorRange>,
    floats: Seq<IteratorRange>,
    decimals: Seq<IteratorRange>,
)
    requires
        is_at_most_one(ints, ValueType::NumberInt),
        is_at_most_one(floats, ValueType::NumberFloat),
        is_at_most_one(decimals, ValueType::NumberDecimal),
    ensures
        are_in_order(ints + floats + decimals),
        forall|t: ValueType| #[trigger]
            has_range_of(ints + floats + decimals, t) <==> part_of(ints, floats, decimals, t).len()
                == 1,
        forall|i: int|
            0 <= i < (ints + floats + decimals).len() ==> (#[trigger] (ints + floats + decimals)[i])
                == part_of(
                ints,
                floats,
                decimals,
                (ints + floats + decimals)[i].value_type,
            )[0],
{
    let all = ints + floats + decimals;
    let m = ints.len() as int;
    let n = (ints.len() + floats.len()) as int;
    assert forall|i: int| 0 <= i < all.len() implies (#[trigger] all[i]) == if i < m {
        ints[0]
    } else if i < n {
        floats[0]
    } else {
        decimals[0]
    } by {}
    assert forall|t: ValueType| #[trigger] has_range_of(all, t) <==> part_of(
        ints,
        floats,
        decimals,
        t,
    ).len() == 1 by {
        if part_of(ints, floats, decimals, t).len() == 1 {
            let i: int = match t {
                ValueType::NumberInt => 0,
                ValueType::NumberFloat => m,
                _ => n,
            };
            assert(all[i].value_type == t);
        }
    }
}

/// The ranges between two numbers are of exactly the kinds of which there are ranges above the one
/// and below the other, in the order of the kinds. Each has the lower end of the range above and
/// the upper end of the range below, except that a decimal with fractional digits may be given
/// another double, as close to it.
pub proof fn law_ranges_between_meet(
    from: Number,
    from_inc: bool,
    to: Number,
    to_inc: bool,
    above: Seq<IteratorRange>,
    below: Seq<IteratorRange>,
    between: Seq<IteratorRange>,
)
    requires
        are_ranges_from(from, from_inc, above),
        are_ranges_to(to, to_inc, below),
        are_ranges_between(from, from_inc, to, to_inc, between),
    ensures
        are_in_order(between),
        forall|t: ValueType| #[trigger]
            has_range_of(between, t) <==> has_range_of(above, t) && has_range_of(below, t),
        forall|i: int, j: int|
            0 <= i < between.len() && 0 <= j < above.len() && (#[trigger] between[i]).value_type
                == (#[trigger] above[j]).value_type ==> {
                &&& between[i].from.inclusive == above[j].from.inclusive
                &&& agree(from, between[i].from.value, above[j].from.value)
                &&& is_determined(from) || between[i].value_type != ValueType::NumberFloat
                    ==> between[i].from == above[j].from
            },
        forall|i: int, k: int|
            0 <= i < between.len() && 0 <= k < below.len() && (#[trigger] between[i]).value_type
                == (#[trigger] below[k]).value_type ==> {
                &&& between[i].to.inclusive == below[k].to.inclusive
                &&& agree(to, between[i].to.value, below[k].to.value)
                &&& is_determined(to) || between[i].value_type != ValueType::NumberFloat
                    ==> between[i].to == below[k].to
            },
{
    let (v, w) = choose|v: NumberVariants, w: NumberVariants| #[trigger]
        are_variants(from, Rounding::Down, v) && #[trigger] are_variants(to, Rounding::Up, w)
            && between == ranges_between(v, from_inc, w, to_inc);
    let a = choose|a: NumberVariants| #[trigger]
        are_variants(from, Rounding::Down, a) && above == ranges_from(a, from_inc);
    let b = choose|b: NumberVariants| #[trigger]
        are_variants(to, Rounding::Up, b) && below == ranges_to(b, to_inc);
    law_forms_are_determined(from, Rounding::Down, v, a);
    law_forms_are_determined(to, Rounding::Up, w, b);
    lemma_parts_by_kind(
        range_between(ValueType::NumberInt, int_form(v), from_inc, int_form(w), to_inc),
        range_between(ValueType::NumberFloat, float_form(v), from_inc, float_form(w), to_inc),
        range_between(
            ValueType::NumberDecimal,
            decimal_form(v),
            from_inc,
            decimal_form(w),
            to_inc,
        ),
    );
    lemma_parts_by_kind(
        range_from(ValueType::NumberInt, int_form(a), from_inc),
        range_from(ValueType::NumberFloat, float_form(a), from_inc),
        range_from(ValueType::NumberDecimal, decimal_form(a), from_inc),
    );
    lemma_parts_by_kind(
        range_to(ValueType::NumberInt, int_form(b), to_inc),
        range_to(ValueType::NumberFloat, float_form(b), to_inc),
        range_to(ValueType::NumberDecimal, decimal_form(b), to_inc),
    );
    assert forall|t: ValueType| #[trigger]
        has_range_of(between, t) <==> has_range_of(above, t) && has_range_of(below, t) by {}
}

/// An integer has all three forms: itself, the nearest double, and the decimal with its sign and
/// magnitude and without scale.
pub proof fn law_forms_of_an_integer(i: i64, rounding: Rounding, v: NumberVariants, other: u64)
    requires
        are_variants(Number::Int(i), rounding, v),
        is_finite(other),
    ensures
        v.0 == Some(i),
        v.1 is Some,
        is_finite(v.1->0),
        v.1->0 >= 0x8000_0000_0000_0000 <==> i < 0,
        abs(units(v.1->0) - i * one()) <= abs(units(other) - i * one()),
        v.2 is Some,
        v.2->0.spec_negative() == (i < 0),
        v.2->0.spec_mantissa() == (if i < 0 { -i } else { i as int }),
        v.2->0.spec_scale() == 0,
{
    broadcast use Decimal::lemma_parts;

    law_nearest_is_closest(v.1->0, i as int, other);
}

/// A double keeps itself. It has a decimal form exactly below `2^96`, with its sign, and with its
/// value if it is an integer. It has an integer form in an equality if it is that integer, at a
/// lower end if that is the integer just below, at an upper end if it is the one just above.
pub proof fn law_forms_of_a_double(bits: u64, rounding: Rounding, v: NumberVariants, i: i64)
    requires
        are_variants(Number::Float(bits), rounding, v),
    ensures
        v.1 == Some(bits),
        v.2 is Some <==> is_finite(bits) && -0x1_0000_0000_0000_0000_0000_0000 * one() < units(bits)
            < 0x1_0000_0000_0000_0000_0000_0000 * one(),
        v.2 == Decimal::of_double(bits),
        v.2 is Some && units(bits) % one() == 0 ==> v.2->0.spec_scale() == 0
            && v.2->0.spec_negative() == (bits >= 0x8000_0000_0000_0000)
            && v.2->0.spec_mantissa() * one() == abs(units(bits)),
        rounding is Exact ==> (v.0 == Some(i) <==> is_finite(bits) && units(bits) == i * one()),
        rounding is Down ==> (v.0 == Some(i) <==> is_finite(bits) && i * one() <= units(bits) < (i
            + 1) * one()),
        rounding is Up ==> (v.0 == Some(i) <==> is_finite(bits) && (i - 1) * one() < units(bits)
            <= i * one()),
{
    broadcast use Decimal::lemma_parts;

    law_exact_int_has_the_value(bits, i);
    law_floor_int_is_just_below(bits, i);
    law_ceil_int_is_just_above(bits, i);
    lemma_pow2_pos(1074);
    lemma_pow2_pos(unit_exponent(bits));
    assert(magnitude(bits) >= 0) by (nonlinear_arith)
        requires
            magnitude(bits) == significand(bits) * pow2(unit_exponent(bits)),
            significand(bits) >= 0,
            pow2(unit_exponent(bits)) > 0,
    ;
    if v.2 is Some && units(bits) % one() == 0 {
        lemma_integral_magnitude(bits);
        let q = magnitude(bits) / one();
        assert(0 <= q < MANTISSA_BOUND) by (nonlinear_arith)
            requires
                magnitude(bits) == q * one(),
                0 <= magnitude(bits) < MANTISSA_BOUND * one(),
                one() > 0,
        ;
    }
}

/// A decimal keeps itself and always has a double close to it. It has an integer form in an
/// equality if it is that integer, and at the end of a range if that is what is left of it without
/// its fractional digits.
pub proof fn law_forms_of_a_decimal(d: Decimal, rounding: Rounding, v: NumberVariants, i: i64)
    requires
        are_variants(Number::Decimal(d), rounding, v),
    ensures
        ({
            let p = power_of_ten(d.spec_scale());
            let x = if d.spec_negative() {
                -(d.spec_mantissa() as int)
            } else {
                d.spec_mantissa() as int
            };
            &&& v.2 == Some(d)
            &&& v.1 is Some
            &&& is_finite(v.1->0)
            &&& abs(units(v.1->0) * p - x * one()) * 0x4000_0000_0000 <= abs(x) * one()
            &&& x != 0 ==> (v.1->0 >= 0x8000_0000_0000_0000 <==> x < 0)
            &&& rounding is Exact ==> (v.0 == Some(i) <==> x == i * p)
            &&& !(rounding is Exact) && x >= 0 ==> (v.0 == Some(i) <==> i * p <= x < (i + 1) * p)
            &&& !(rounding is Exact) && x <= 0 ==> (v.0 == Some(i) <==> (i - 1) * p < x <= i * p)
        }),
{
    let p = power_of_ten(d.spec_scale());
    let m = d.spec_mantissa() as int;
    vstd::arithmetic::power::lemma_pow_positive(10, d.spec_scale() as nat);
    law_decimals_keep_their_value(d, rounding, v);
    lemma_around_quotient(m, p, i as int);
    lemma_around_quotient(m, p, i + 1);
    lemma_around_quotient(m, p, -i);
    lemma_around_quotient(m, p, -i + 1);
    lemma_fundamental_div_mod(m, p);
    assert((-i) * p == -(i * p) && (-i + 1) * p == -((i - 1) * p)) by (nonlinear_arith);
    lemma_multiple(m, p, i as int);
    lemma_multiple(m, p, -i);
    if d.is_integral() && m != 0 {
        assert(m / p != 0);
    }
    if m == 0 {
        lemma_fundamental_div_mod_converse(0, p, 0, 0);
    }
    assert(m / p >= 0) by (nonlinear_arith)
        requires
            m >= 0,
            p > 0,
    ;
}

proof fn lemma_multiple(m: int, p: int, x: int)
    requires
        p > 0,
    ensures
        m == x * p <==> m % p == 0 && m / p == x,
{
    lemma_fundamental_div_mod(m, p);
    if m == x * p {
        lemma_fundamental_div_mod_converse(m, p, x, 0);
    } else if m % p == 0 && m / p == x {
        assert(p * x == x * p) by (nonlinear_arith);
    }
}

/// Whatever conversion is given for doubles, it decides the integer form of a double and nothing
/// else: the other forms are those of an equality.
pub proof fn law_conversion_is_for_doubles(n: Number, float_int: Option<i64>, v: NumberVariants)
    requires
        are_forms(n, float_int, v),
    ensures
        n is Float ==> v.0 == float_int,
        !(n is Float) ==> are_variants(n, Rounding::Exact, v),
        are_variants(n, Rounding::Exact, (integer_of(n, Rounding::Exact), v.1, v.2)),
{
}

/// The values looked up for a number are its forms, each once: integer, double, decimal.
pub proof fn law_values_are_the_forms(v: NumberVariants, x: Value)
    ensures
        form_values(v).contains(x) <==> {
            ||| v.0 is Some && x == Value::Number(Number::Int(v.0->0))
            ||| v.1 is Some && x == Value::Number(Number::Float(v.1->0))
            ||| v.2 is Some && x == Value::Number(Number::Decimal(v.2->0))
        },
        form_values(v).len() == (if v.0 is Some { 1int } else { 0 }) + (if v.1 is Some {
            1int
        } else {
            0
        }) + (if v.2 is Some { 1int } else { 0 }),
        v.0 is Some ==> form_values(v)[0] == Value::Number(Number::Int(v.0->0)),
        v.2 is Some ==> form_values(v).last() == Value::Number(Number::Decimal(v.2->0)),
{
    let r = form_values(v);
    let m: int = if v.0 is Some { 1 } else { 0 };
    let n: int = if v.1 is Some { m + 1 } else { m };
    if v.0 is Some {
        assert(r[0] == Value::Number(Number::Int(v.0->0)));
    }
    if v.1 is Some {
        assert(r[m] == Value::Number(Number::Float(v.1->0)));
    }
    if v.2 is Some {
        assert(r[n] == Value::Number(Number::Decimal(v.2->0)));
    }
}

/// A range of one kind from a number on, without an upper end.
pub open spec fn is_from(range: IteratorRange, t: ValueType, n: Number, inclusive: bool) -> bool {
    &&& range.value_type == t
    &&& range.from.value == Value::Number(n)
    &&& range.from.inclusive == inclusive
    &&& range.to.value == Value::Absent
    &&& !range.to.inclusive
}

/// A range of one kind up to a number, without a lower end.
pub open spec fn is_up_to(range: IteratorRange, t: ValueType, n: Number, inclusive: bool) -> bool {
    &&& range.value_type == t
    &&& range.from.value == Value::Absent
    &&& !range.from.inclusive
    &&& range.to.value == Value::Number(n)
    &&& range.to.inclusive == inclusive
}

/// There is exactly one range from each form of a number on, and no other.
pub proof fn law_one_range_above_each_form(
    from: Number,
    inclusive: bool,
    ranges: Seq<IteratorRange>,
) -> (v: NumberVariants)
    requires
        are_ranges_from(from, inclusive, ranges),
    ensures
        are_variants(from, Rounding::Down, v),
        are_in_order(ranges),
        forall|range: IteratorRange| #[trigger]
            ranges.contains(range) <==> {
                ||| v.0 is Some && is_from(
                    range,
                    ValueType::NumberInt,
                    Number::Int(v.0->0),
                    inclusive,
                )
                ||| v.1 is Some && is_from(
                    range,
                    ValueType::NumberFloat,
                    Number::Float(v.1->0),
                    inclusive,
                )
                ||| v.2 is Some && is_from(
                    range,
                    ValueType::NumberDecimal,
                    Number::Decimal(v.2->0),
                    inclusive,
                )
            },
{
    let v = choose|v: NumberVariants| #[trigger]
        are_variants(from, Rounding::Down, v) && ranges == ranges_from(v, inclusive);
    let (a, b, c) = (
        range_from(ValueType::NumberInt, int_form(v), inclusive),
        range_from(ValueType::NumberFloat, float_form(v), inclusive),
        range_from(ValueType::NumberDecimal, decimal_form(v), inclusive),
    );
    lemma_parts_by_kind(a, b, c);
    lemma_contains_parts(a, b, c);
    v
}

/// There is exactly one range up to each form of a number, and no other.
pub proof fn law_one_range_below_each_form(
    to: Number,
    inclusive: bool,
    ranges: Seq<IteratorRange>,
) -> (v: NumberVariants)
    requires
        are_ranges_to(to, inclusive, ranges),
    ensures
        are_variants(to, Rounding::Up, v),
        are_in_order(ranges),
        forall|range: IteratorRange| #[trigger]
            ranges.contains(range) <==> {
                ||| v.0 is Some && is_up_to(
                    range,
                    ValueType::NumberInt,
                    Number::Int(v.0->0),
                    inclusive,
                )
                ||| v.1 is Some && is_up_to(
                    range,
                    ValueType::NumberFloat,
                    Number::Float(v.1->0),
                    inclusive,
                )
                ||| v.2 is Some && is_up_to(
                    range,
                    ValueType::NumberDecimal,
                    Number::Decimal(v.2->0),
                    inclusive,
                )
            },
{
    let v = choose|v: NumberVariants| #[trigger]
        are_variants(to, Rounding::Up, v) && ranges == ranges_to(v, inclusive);
    let (a, b, c) = (
        range_to(ValueType::NumberInt, int_form(v), inclusive),
        range_to(ValueType::NumberFloat, float_form(v), inclusive),
        range_to(ValueType::NumberDecimal, decimal_form(v), inclusive),
    );
    lemma_parts_by_kind(a, b, c);
    lemma_contains_parts(a, b, c);
    v
}

/// What three sequences of at most one range hold.
proof fn lemma_contains_parts(
    a: Seq<IteratorRange>,
    b: Seq<IteratorRange>,
    c: Seq<IteratorRange>,
)
    requires
        a.len() <= 1,
        b.len() <= 1,
        c.len() <= 1,
    ensures
        forall|range: IteratorRange| #[trigger]
            (a + b + c).contains(range) <==> {
                ||| a.len() == 1 && range == a[0]
                ||| b.len() == 1 && range == b[0]
                ||| c.len() == 1 && range == c[0]
            },
{
    let all = a + b + c;
    assert forall|range: IteratorRange| #[trigger] all.contains(range) <==> {
        ||| a.len() == 1 && range == a[0]
        ||| b.len() == 1 && range == b[0]
        ||| c.len() == 1 && range == c[0]
    } by {
        if a.len() == 1 {
            assert(all[0] == a[0]);
        }
        if b.len() == 1 {
            assert(all[a.len() as int] == b[0]);
        }
        if c.len() == 1 {
            assert(all[(a.len() + b.len()) as int] == c[0]);
        }
    }
}

/// Only a range with a number at one end is split: between two numbers, above a number without an
/// upper end, or below one without a lower end.
pub proof fn law_only_ranges_over_numbers_are_split(
    from: RangeValue,
    to: RangeValue,
    ranges: Option<Seq<IteratorRange>>,
)
    requires
        are_ranges(from, to, ranges),
    ensures
        ranges is Some <==> {
            ||| from.value is Number && to.value is Number
            ||| from.value is Number && to.value is Absent
            ||| from.value is Absent && to.value is Number
        },
        from.value is Number && to.value is Number ==> are_ranges_between(
            from.value->Number_0,
            from.inclusive,
            to.value->Number_0,
            to.inclusive,
            ranges->0,
        ),
        from.value is Number && to.value is Absent ==> are_ranges_from(
            from.value->Number_0,
            from.inclusive,
            ranges->0,
        ),
        from.value is Absent && to.value is Number ==> are_ranges_to(
            to.value->Number_0,
            to.inclusive,
            ranges->0,
        ),
{
}

} // verus!
