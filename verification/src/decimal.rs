//! Fixed-point decimals, and the conversions between them, integers and doubles.
use crate::double::{
    abs, as_i64, is_finite, is_integral, is_nearest, is_negative, magnitude, one, units,
};
use num_traits::{FromBytes, FromPrimitive, ToPrimitive};
use vstd::arithmetic::div_mod::lemma_fundamental_div_mod;
use vstd::arithmetic::power::{lemma_pow_increases, lemma_pow_positive, pow};
use vstd::prelude::*;

verus! {

/// `2^96`: mantissas lie below it.
pub const MANTISSA_BOUND: u128 = 0x1_0000_0000_0000_0000_0000_0000;

/// The largest scale.
pub const MAX_SCALE: u32 = 28;

/// A decimal number: `mantissa / 10^scale`, negated where `negative` is set.
#[derive(Clone, Copy, Debug, PartialEq, Eq, Structural)]
pub struct Decimal {
    negative: bool,
    mantissa: u128,
    scale: u32,
}

/// `10^scale`.
pub open spec fn power_of_ten(scale: u32) -> int {
    pow(10, scale as nat)
}

/// A mantissa with its sign.
pub open spec fn with_sign(negative: bool, v: int) -> int {
    if negative {
        -v
    } else {
        v
    }
}

/// A finite double whose magnitude lies below `2^96`.
pub open spec fn has_decimal(bits: u64) -> bool {
    is_finite(bits) && magnitude(bits) < MANTISSA_BOUND * one()
}

/// `parts` (sign, mantissa and scale) are in range, carry the sign of the double, and are the
/// double itself where that is an integer.
pub open spec fn parts_agree(bits: u64, parts: (bool, u128, u32)) -> bool {
    let (negative, mantissa, scale) = parts;
    &&& negative == is_negative(bits)
    &&& mantissa < MANTISSA_BOUND
    &&& scale <= MAX_SCALE
    &&& is_integral(bits) ==> mantissa == magnitude(bits) / one() && scale == 0
}

/// The double with the given bits differs from a decimal by at most a `2^46`th part of it.
pub open spec fn is_close(bits: u64, negative: bool, mantissa: u128, scale: u32) -> bool {
    abs(units(bits) * power_of_ten(scale) - with_sign(negative, mantissa as int) * one())
        * 0x4000_0000_0000 <= mantissa * one()
}

/// What `Decimal::from_f64` of `rust_decimal` makes of the double with the given bits: sign,
/// mantissa and scale.
pub uninterp spec fn decimal_of_double(bits: u64) -> Option<(bool, u128, u32)>;

/// Calls `Decimal::from_i64` (`FromPrimitive`) of `rust_decimal`: every `i64` has a decimal of
/// scale zero.
#[verifier::external_body]
fn rust_decimal_from_i64(n: i64) -> (r: Option<(bool, u128, u32)>)
    ensures
        r == Some((n < 0, crate::double::abs(n as int) as u128, 0u32)),
{
    rust_decimal::Decimal::from_i64(n).map(
        |d| (d.is_sign_negative(), d.mantissa().unsigned_abs(), d.scale()),
    )
}

/// Calls `Decimal::from_f64` (`FromPrimitive`) of `rust_decimal` on the double with the given
/// bits. The result depends on the bits alone. It is there exactly for the finite doubles below
/// `2^96` in magnitude, keeps the sign bit, and is exact with scale zero where the double is an
/// integer. How the digits of a fractional double are cut is left to the name.
#[verifier::external_body]
fn rust_decimal_from_f64(bits: u64) -> (r: Option<(bool, u128, u32)>)
    ensures
        r == decimal_of_double(bits),
        r is Some <==> has_decimal(bits),
        r is Some ==> parts_agree(bits, r->0),
{
    rust_decimal::Decimal::from_f64(FromBytes::from_le_bytes(&bits.to_le_bytes())).map(
        |d| (d.is_sign_negative(), d.mantissa().unsigned_abs(), d.scale()),
    )
}

/// Calls `to_i64` (`ToPrimitive`) of `rust_decimal`'s `Decimal`: the number without its
/// fractional digits, where that fits.
#[verifier::external_body]
fn rust_decimal_to_i64(negative: bool, mantissa: u128, scale: u32) -> (r: Option<i64>)
    requires
        mantissa < MANTISSA_BOUND,
        scale <= MAX_SCALE,
    ensures
        r == as_i64(with_sign(negative, mantissa as int / power_of_ten(scale))),
{
    let mut d = rust_decimal::Decimal::from_i128_with_scale(mantissa as i128, scale);
    d.set_sign_negative(negative);
    d.to_i64()
}

/// Calls `to_f64` (`ToPrimitive`) of `rust_decimal`'s `Decimal` and gives the bits of the double.
/// There always is one. It is the nearest double where the number is an integer other than zero;
/// a zero keeps its sign only where it has a scale. For a number with fractional digits the double
/// is finite, has its sign and differs from it by at most a `2^46`th part. Which double it is, is
/// left unsaid: the call adds the integral and the fractional part, multiplies by a power of ten,
/// rounds to an integer, which gives the mantissa back unless it is too large for that to matter,
/// and divides again. The power comes from `powi`, a sequence of rounded multiplications that the
/// platform chooses, at most `scale` of them. Together with the other roundings they amount to
/// less than 96 times a `2^53`th part.
#[verifier::external_body]
fn rust_decimal_to_f64(negative: bool, mantissa: u128, scale: u32) -> (r: Option<u64>)
    requires
        mantissa < MANTISSA_BOUND,
        scale <= MAX_SCALE,
    ensures
        r is Some,
        mantissa != 0 && mantissa as int % power_of_ten(scale) == 0 ==> is_nearest(
            r->0,
            with_sign(negative, mantissa as int / power_of_ten(scale)),
        ),
        mantissa == 0 ==> r->0 == (if negative && scale > 0 {
            crate::double::SIGN_WEIGHT
        } else {
            0
        }),
        mantissa as int % power_of_ten(scale) != 0 ==> is_finite(r->0) && is_negative(r->0)
            == negative && is_close(r->0, negative, mantissa, scale),
{
    let mut d = rust_decimal::Decimal::from_i128_with_scale(mantissa as i128, scale);
    d.set_sign_negative(negative);
    d.to_f64().map(|f| f.to_bits())
}

fn ten_to(scale: u32) -> (p: u128)
    requires
        scale <= MAX_SCALE,
    ensures
        p == power_of_ten(scale),
        p > 0,
{
    let mut p: u128 = 1;
    let mut i: u32 = 0;
    proof {
        reveal_with_fuel(pow, 1);
    }
    while i < scale
        invariant
            i <= scale <= MAX_SCALE,
            p == power_of_ten(i),
            p > 0,
        decreases scale - i,
    {
        proof {
            lemma_ten_to(i);
        }
        p = p * 10;
        i = i + 1;
    }
    p
}

/// The next power of ten, and a bound for it.
proof fn lemma_ten_to(i: u32)
    requires
        i < MAX_SCALE,
    ensures
        power_of_ten((i + 1) as u32) == power_of_ten(i) * 10,
        power_of_ten((i + 1) as u32) <= u128::MAX,
{
    reveal_with_fuel(pow, 29);
    assert(pow(10, 28) == 10000000000000000000000000000);
    lemma_pow_increases(10, (i + 1) as nat, 28);
    assert(pow(10, (i + 1) as nat) == 10 * pow(10, i as nat));
}

impl Decimal {
    #[verifier::type_invariant]
    spec fn in_range(self) -> bool {
        self.mantissa < MANTISSA_BOUND && self.scale <= MAX_SCALE
    }

    pub closed spec fn spec_negative(self) -> bool {
        self.negative
    }

    pub closed spec fn spec_mantissa(self) -> u128 {
        self.mantissa
    }

    pub closed spec fn spec_scale(self) -> u32 {
        self.scale
    }

    /// The decimal with the given parts.
    pub closed spec fn of_parts(negative: bool, mantissa: u128, scale: u32) -> Decimal {
        Decimal { negative, mantissa, scale }
    }

    /// The number without its fractional digits.
    pub open spec fn int_part(self) -> int {
        with_sign(
            self.spec_negative(),
            self.spec_mantissa() as int / power_of_ten(self.spec_scale()),
        )
    }

    /// No fractional digits other than zeros.
    pub open spec fn is_integral(self) -> bool {
        self.spec_mantissa() as int % power_of_ten(self.spec_scale()) == 0
    }

    /// The parts of a decimal determine it, and are those that it was made of.
    pub broadcast proof fn lemma_parts(negative: bool, mantissa: u128, scale: u32)
        ensures
            (#[trigger] Decimal::of_parts(negative, mantissa, scale)).spec_negative() == negative,
            Decimal::of_parts(negative, mantissa, scale).spec_mantissa() == mantissa,
            Decimal::of_parts(negative, mantissa, scale).spec_scale() == scale,
    {
    }

    /// A decimal from its parts, where they are in range.
    pub fn from_parts(negative: bool, mantissa: u128, scale: u32) -> (r: Option<Decimal>)
        ensures
            r == (if mantissa < MANTISSA_BOUND && scale <= MAX_SCALE {
                Some(Decimal::of_parts(negative, mantissa, scale))
            } else {
                None
            }),
    {
        if mantissa < MANTISSA_BOUND && scale <= MAX_SCALE {
            Some(Decimal { negative, mantissa, scale })
        } else {
            None
        }
    }

    pub fn is_negative(&self) -> (r: bool)
        ensures
            r == self.spec_negative(),
    {
        self.negative
    }

    pub fn mantissa(&self) -> (r: u128)
        ensures
            r == self.spec_mantissa(),
            r < MANTISSA_BOUND,
    {
        proof {
            use_type_invariant(self);
        }
        self.mantissa
    }

    pub fn scale(&self) -> (r: u32)
        ensures
            r == self.spec_scale(),
            r <= MAX_SCALE,
    {
        proof {
            use_type_invariant(self);
        }
        self.scale
    }

    /// The decimal that a call of `from_double` gives.
    pub open spec fn of_double(bits: u64) -> Option<Decimal> {
        match decimal_of_double(bits) {
            Some((negative, mantissa, scale)) => Some(
                Decimal::of_parts(negative, mantissa, scale),
            ),
            None => None,
        }
    }

    /// The decimal of an integer.
    pub open spec fn of_int(n: int) -> Decimal {
        Decimal::of_parts(n < 0, crate::double::abs(n) as u128, 0)
    }

    /// The decimal equal to an integer.
    pub fn from_int(n: i64) -> (r: Option<Decimal>)
        ensures
            r == Some(Decimal::of_int(n as int)),
    {
        match rust_decimal_from_i64(n) {
            Some((negative, mantissa, scale)) => Decimal::from_parts(negative, mantissa, scale),
            None => None,
        }
    }

    /// The decimal for a double. It is there exactly for the finite doubles of magnitude below
    /// `2^96`, and it is exact for the integers among them.
    pub fn from_double(bits: u64) -> (r: Option<Decimal>)
        ensures
            r == Decimal::of_double(bits),
            r is Some <==> has_decimal(bits),
            r is Some && is_integral(bits) ==> r == Some(
                Decimal::of_parts(is_negative(bits), (magnitude(bits) / one()) as u128, 0),
            ),
    {
        match rust_decimal_from_f64(bits) {
            Some((negative, mantissa, scale)) => Decimal::from_parts(negative, mantissa, scale),
            None => None,
        }
    }

    /// The number without its fractional digits, where that fits.
    pub fn to_int(&self) -> (r: Option<i64>)
        ensures
            r == as_i64(self.int_part()),
    {
        proof {
            use_type_invariant(self);
        }
        rust_decimal_to_i64(self.negative, self.mantissa, self.scale)
    }

    /// The integer that the decimal is, where it is one that fits.
    pub open spec fn exact_int(self) -> Option<i64> {
        if self.is_integral() {
            as_i64(self.int_part())
        } else {
            None
        }
    }

    pub fn to_exact_int(&self) -> (r: Option<i64>)
        ensures
            r == self.exact_int(),
    {
        proof {
            use_type_invariant(self);
        }
        if self.mantissa % ten_to(self.scale) == 0 {
            self.to_int()
        } else {
            None
        }
    }

    /// `bits` is the double for an integral decimal: the nearest one, or the zero that keeps the
    /// sign of a zero with a scale.
    pub open spec fn is_integral_double(self, bits: u64) -> bool {
        if self.spec_mantissa() != 0 {
            is_nearest(bits, self.int_part())
        } else if self.spec_negative() && self.spec_scale() > 0 {
            bits == crate::double::SIGN_WEIGHT
        } else {
            bits == 0
        }
    }

    /// `bits` is a double that the decimal may be given: that of an integral decimal, or for
    /// another one a finite double of its sign that lies close to it.
    pub open spec fn may_be_double(self, bits: u64) -> bool {
        if self.is_integral() {
            self.is_integral_double(bits)
        } else {
            &&& is_finite(bits)
            &&& is_negative(bits) == self.spec_negative()
            &&& is_close(bits, self.spec_negative(), self.spec_mantissa(), self.spec_scale())
        }
    }

    /// A double for the decimal; which one is determined where the decimal is integral.
    pub fn to_double(&self) -> (r: Option<u64>)
        ensures
            r is Some,
            self.may_be_double(r->0),
    {
        proof {
            use_type_invariant(self);
        }
        rust_decimal_to_f64(self.negative, self.mantissa, self.scale)
    }
}

/// The integer part of a decimal has its sign, and is the largest in magnitude that does not
/// exceed it.
pub proof fn law_int_part_is_cut_towards_zero(d: Decimal)
    ensures
        d.spec_negative() ==> d.int_part() <= 0,
        !d.spec_negative() ==> d.int_part() >= 0,
        abs(d.int_part()) * power_of_ten(d.spec_scale()) <= d.spec_mantissa(),
        d.spec_mantissa() < (abs(d.int_part()) + 1) * power_of_ten(d.spec_scale()),
        d.is_integral() <==> abs(d.int_part()) * power_of_ten(d.spec_scale())
            == d.spec_mantissa(),
{
    let p = power_of_ten(d.spec_scale());
    let m = d.spec_mantissa() as int;
    lemma_pow_positive(10, d.spec_scale() as nat);
    lemma_fundamental_div_mod(m, p);
    let q = m / p;
    assert(q >= 0 && q * p == p * q && (q + 1) * p == p * q + p) by (nonlinear_arith)
        requires
            m == p * q + m % p,
            0 <= m % p < p,
            m >= 0,
            p > 0,
    ;
}

/// An integer that fits is given back by the decimal made of it; only an integral decimal is
/// given an integer that it is, which is then its integer part.
pub proof fn law_integers_pass_through_decimals(d: Decimal, i: i64)
    ensures
        Decimal::of_int(i as int).exact_int() == Some(i),
        Decimal::of_int(i as int).spec_scale() == 0,
        d.exact_int() is Some ==> d.is_integral() && d.exact_int()->0 == d.int_part(),
        d.is_integral() && i64::MIN <= d.int_part() <= i64::MAX ==> d.exact_int() is Some,
{
    broadcast use Decimal::lemma_parts;

    let of = Decimal::of_int(i as int);
    vstd::arithmetic::power::lemma_pow0(10);
    law_int_part_is_cut_towards_zero(of);
    assert(abs(of.int_part()) * 1 == abs(of.int_part()));
    assert((abs(of.int_part()) + 1) * 1 == abs(of.int_part()) + 1);
}

} // verus!
