//! Doubles (IEEE 754 binary64), held by their bit patterns.
//!
//! The mathematical value of a finite double is a whole multiple of `2^-1074`, so contracts
//! speak of `units(bits)`, the number of such multiples, which is an ordinary integer.
use vstd::arithmetic::div_mod::{
    lemma_div_denominator, lemma_fundamental_div_mod, lemma_fundamental_div_mod_converse,
};
use vstd::arithmetic::mul::lemma_mul_is_associative;
use vstd::arithmetic::power2::{
    lemma2_to64, lemma2_to64_rest, lemma_pow2_adds, lemma_pow2_pos, lemma_pow2_strictly_increases,
    lemma_pow2_unfold, pow2,
};
use vstd::prelude::*;

verus! {

/// `2^52`: the weight of the lowest bit of the exponent field.
pub const EXPONENT_WEIGHT: u64 = 0x10_0000_0000_0000;

/// `2^63`: the weight of the sign bit.
pub const SIGN_WEIGHT: u64 = 0x8000_0000_0000_0000;

/// The sign bit.
pub open spec fn is_negative(bits: u64) -> bool {
    bits >= SIGN_WEIGHT
}

/// The biased exponent, between 0 and 2047.
pub open spec fn exponent_field(bits: u64) -> int {
    (bits / EXPONENT_WEIGHT) as int % 2048
}

/// The low 52 bits.
pub open spec fn fraction_field(bits: u64) -> int {
    (bits % EXPONENT_WEIGHT) as int
}

/// Neither an infinity nor a NaN.
pub open spec fn is_finite(bits: u64) -> bool {
    exponent_field(bits) != 2047
}

pub open spec fn is_nan(bits: u64) -> bool {
    !is_finite(bits) && fraction_field(bits) != 0
}

/// The significand as an integer below `2^53`.
pub open spec fn significand(bits: u64) -> int {
    if exponent_field(bits) == 0 {
        fraction_field(bits)
    } else {
        fraction_field(bits) + EXPONENT_WEIGHT
    }
}

/// The power of two by which the significand is scaled, in units of `2^-1074`.
pub open spec fn unit_exponent(bits: u64) -> nat {
    if exponent_field(bits) == 0 {
        0
    } else {
        (exponent_field(bits) - 1) as nat
    }
}

/// The absolute value of a finite double, in units of `2^-1074`.
pub open spec fn magnitude(bits: u64) -> int {
    significand(bits) * pow2(unit_exponent(bits))
}

/// The value of a finite double, in units of `2^-1074`.
pub open spec fn units(bits: u64) -> int {
    if is_negative(bits) {
        -magnitude(bits)
    } else {
        magnitude(bits)
    }
}

/// The number of units in one.
pub open spec fn one() -> int {
    pow2(1074) as int
}

/// The greatest integer not above the value.
pub open spec fn floor(bits: u64) -> int {
    units(bits) / one()
}

/// The least integer not below the value.
pub open spec fn ceil(bits: u64) -> int {
    -((-units(bits)) / one())
}

/// The value without its fractional part.
pub open spec fn trunc(bits: u64) -> int {
    if is_negative(bits) {
        ceil(bits)
    } else {
        floor(bits)
    }
}

/// A finite double without fractional part.
pub open spec fn is_integral(bits: u64) -> bool {
    is_finite(bits) && units(bits) % one() == 0
}

pub open spec fn fits_i64(v: int) -> bool {
    i64::MIN <= v <= i64::MAX
}

pub open spec fn as_i64(v: int) -> Option<i64> {
    if fits_i64(v) {
        Some(v as i64)
    } else {
        None
    }
}

/// The integer that a double is, where it is one that fits.
pub open spec fn exact_int(bits: u64) -> Option<i64> {
    if is_integral(bits) {
        as_i64(floor(bits))
    } else {
        None
    }
}

/// A double rounded down to an integer, where that fits.
pub open spec fn floor_int(bits: u64) -> Option<i64> {
    if is_finite(bits) {
        as_i64(floor(bits))
    } else {
        None
    }
}

/// A double rounded up to an integer, where that fits.
pub open spec fn ceil_int(bits: u64) -> Option<i64> {
    if is_finite(bits) {
        as_i64(ceil(bits))
    } else {
        None
    }
}

/// A double cut to an integer, clamped to the range of `i64`; a NaN gives zero.
pub open spec fn saturated_int(bits: u64) -> int {
    if is_nan(bits) {
        0
    } else if is_finite(bits) && fits_i64(trunc(bits)) {
        trunc(bits)
    } else if is_negative(bits) {
        i64::MIN as int
    } else {
        i64::MAX as int
    }
}

/// The integer part of a magnitude, and whether something is left after it.
enum Whole {
    /// The magnitude is at least `2^64`.
    Huge,
    Part { int_part: u128, has_rest: bool },
}

/// What `whole` says of the magnitude of `bits`.
spec fn whole_of(bits: u64, w: Whole) -> bool {
    match w {
        Whole::Huge => magnitude(bits) >= 0x1_0000_0000_0000_0000 * one(),
        Whole::Part { int_part, has_rest } => {
            &&& int_part < 0x1_0000_0000_0000_0000
            &&& magnitude(bits) / one() == int_part
            &&& has_rest <==> magnitude(bits) % one() != 0
        },
    }
}

/// Dividing by a power of two above the scale is dividing the significand by what is left.
proof fn lemma_scaled_down(m: int, e: nat, d: nat)
    requires
        m >= 0,
        e + d == 1074,
    ensures
        (m * pow2(e)) / one() == m / (pow2(d) as int),
        (m * pow2(e)) % one() != 0 <==> m % (pow2(d) as int) != 0,
{
    let p = pow2(e) as int;
    let q = pow2(d) as int;
    lemma_pow2_pos(e);
    lemma_pow2_pos(d);
    lemma_pow2_adds(e, d);
    let k = m / q;
    let r = m % q;
    lemma_fundamental_div_mod(m, q);
    assert(m * p == k * (p * q) + r * p) by (nonlinear_arith)
        requires
            m == q * k + r,
    ;
    assert(0 <= r * p < p * q) by (nonlinear_arith)
        requires
            0 <= r < q,
            p > 0,
    ;
    assert(r * p == 0 <==> r == 0) by (nonlinear_arith)
        requires
            p > 0,
    ;
    lemma_fundamental_div_mod_converse(m * p, p * q, k, r * p);
}

/// A significand scaled up to at least one is a whole number.
proof fn lemma_scaled_up(m: int, e: nat)
    requires
        m >= 0,
        e >= 1074,
    ensures
        m * pow2(e) == (m * pow2((e - 1074) as nat)) * one(),
        (m * pow2(e)) / one() == m * pow2((e - 1074) as nat),
        (m * pow2(e)) % one() == 0,
{
    let s = pow2((e - 1074) as nat) as int;
    lemma_pow2_adds((e - 1074) as nat, 1074);
    lemma_pow2_pos(1074);
    lemma_mul_is_associative(m, s, one());
    lemma_fundamental_div_mod_converse(m * pow2(e), one(), m * s, 0);
}

fn whole(bits: u64) -> (w: Whole)
    requires
        is_finite(bits),
    ensures
        whole_of(bits, w),
{
    let field: u64 = (bits / EXPONENT_WEIGHT) % 2048;
    let fraction: u64 = bits % EXPONENT_WEIGHT;
    let m: u64 = if field == 0 {
        fraction
    } else {
        fraction + EXPONENT_WEIGHT
    };
    let e: u64 = if field == 0 {
        0
    } else {
        field - 1
    };
    proof {
        lemma2_to64();
        lemma2_to64_rest();
        lemma_pow2_pos(1074);
    }
    if e >= 1074 {
        let s: u64 = e - 1074;
        proof {
            lemma_scaled_up(m as int, e as nat);
        }
        if s > 11 {
            proof {
                lemma_pow2_monotonic(12, s as nat);
                assert(m * pow2(s as nat) >= 0x10_0000_0000_0000 * 4096) by (nonlinear_arith)
                    requires
                        m >= 0x10_0000_0000_0000,
                        pow2(s as nat) >= 4096,
                ;
                assert((m * pow2(s as nat)) * one() >= 0x1_0000_0000_0000_0000 * one())
                    by (nonlinear_arith)
                    requires
                        m * pow2(s as nat) >= 0x1_0000_0000_0000_0000,
                        one() > 0,
                ;
            }
            Whole::Huge
        } else {
            let factor: u64 = power_of_two(s);
            proof {
                lemma_pow2_monotonic(s as nat, 11);
                assert(m * factor < 0x20_0000_0000_0000 * 2048) by (nonlinear_arith)
                    requires
                        m < 0x20_0000_0000_0000,
                        0 <= factor <= 2048,
                ;
            }
            Whole::Part { int_part: m as u128 * factor as u128, has_rest: false }
        }
    } else {
        let d: u64 = 1074 - e;
        proof {
            lemma_scaled_down(m as int, e as nat, d as nat);
        }
        if d >= 53 {
            proof {
                lemma_pow2_monotonic(53, d as nat);
                lemma_fundamental_div_mod_converse(m as int, pow2(d as nat) as int, 0, m as int);
            }
            Whole::Part { int_part: 0, has_rest: m != 0 }
        } else {
            let divisor: u64 = power_of_two(d);
            proof {
                lemma_pow2_pos(d as nat);
                assert(m as int / (divisor as int) <= m) by (nonlinear_arith)
                    requires
                        m >= 0,
                        divisor > 0,
                ;
            }
            Whole::Part { int_part: (m / divisor) as u128, has_rest: m % divisor != 0 }
        }
    }
}

proof fn lemma_pow2_monotonic(a: nat, b: nat)
    requires
        a <= b,
    ensures
        pow2(a) <= pow2(b),
{
    if a < b {
        lemma_pow2_strictly_increases(a, b);
    }
}

fn power_of_two(n: u64) -> (p: u64)
    requires
        n < 64,
    ensures
        p == pow2(n as nat),
{
    let mut p: u64 = 1;
    let mut i: u64 = 0;
    proof {
        lemma2_to64();
    }
    while i < n
        invariant
            i <= n < 64,
            p == pow2(i as nat),
        decreases n - i,
    {
        proof {
            lemma_pow2_unfold((i + 1) as nat);
            lemma_pow2_strictly_increases((i + 1) as nat, 64);
            lemma2_to64_rest();
        }
        p = p * 2;
        i = i + 1;
    }
    p
}

/// The integer quotients of a value and of its negation.
proof fn lemma_negated_quotient(m: int, d: int)
    requires
        d > 0,
        m >= 0,
    ensures
        m % d == 0 ==> (-m) / d == -(m / d),
        m % d != 0 ==> (-m) / d == -(m / d) - 1,
        m % d == 0 <==> (-m) % d == 0,
{
    let q = m / d;
    let r = m % d;
    lemma_fundamental_div_mod(m, d);
    if r == 0 {
        assert(-m == (-q) * d + 0) by (nonlinear_arith)
            requires
                m == d * q,
        ;
        lemma_fundamental_div_mod_converse(-m, d, -q, 0);
    } else {
        assert(-m == (-q - 1) * d + (d - r)) by (nonlinear_arith)
            requires
                m == d * q + r,
        ;
        lemma_fundamental_div_mod_converse(-m, d, -q - 1, d - r);
    }
}

/// The quotients by which `floor` and `ceil` are defined, from the quotient of the magnitude.
proof fn lemma_quotients(bits: u64)
    requires
        is_finite(bits),
    ensures
        ({
            let q = magnitude(bits) / one();
            let exact = magnitude(bits) % one() == 0;
            &&& q >= 0
            &&& is_integral(bits) <==> exact
            &&& !is_negative(bits) ==> floor(bits) == q && ceil(bits) == if exact {
                q
            } else {
                q + 1
            }
            &&& is_negative(bits) ==> ceil(bits) == -q && floor(bits) == if exact {
                -q
            } else {
                -q - 1
            }
        }),
{
    lemma_pow2_pos(1074);
    lemma_pow2_pos(unit_exponent(bits));
    let m = magnitude(bits);
    assert(m >= 0) by (nonlinear_arith)
        requires
            m == significand(bits) * pow2(unit_exponent(bits)),
            significand(bits) >= 0,
            pow2(unit_exponent(bits)) > 0,
    ;
    assert(m / one() >= 0) by (nonlinear_arith)
        requires
            m >= 0,
            one() > 0,
    ;
    lemma_negated_quotient(m, one());
}

/// A magnitude of at least `2^64` rounds to no `i64`.
proof fn lemma_huge(bits: u64)
    requires
        is_finite(bits),
        magnitude(bits) >= 0x1_0000_0000_0000_0000 * one(),
    ensures
        magnitude(bits) / one() >= 0x1_0000_0000_0000_0000,
{
    lemma_pow2_pos(1074);
    assert(magnitude(bits) / one() >= 0x1_0000_0000_0000_0000) by (nonlinear_arith)
        requires
            magnitude(bits) >= 0x1_0000_0000_0000_0000 * one(),
            one() > 0,
    ;
}

/// The integer with the given sign and magnitude, where it fits.
fn signed(negative: bool, m: u128) -> (r: Option<i64>)
    requires
        m <= 0x1_0000_0000_0000_0000,
    ensures
        r == as_i64(if negative { -(m as int) } else { m as int }),
{
    if negative {
        if m <= 0x8000_0000_0000_0000 {
            Some((-(m as i128)) as i64)
        } else {
            None
        }
    } else if m < 0x8000_0000_0000_0000 {
        Some(m as i64)
    } else {
        None
    }
}

/// `Some` integer where the double has no fractional part and fits, as comparing a double to
/// its truncation and converting it would tell.
pub fn to_exact_int(bits: u64) -> (r: Option<i64>)
    ensures
        r == exact_int(bits),
{
    if (bits / EXPONENT_WEIGHT) % 2048 == 2047 {
        return None;
    }
    proof {
        lemma_quotients(bits);
    }
    match whole(bits) {
        Whole::Huge => {
            proof {
                lemma_huge(bits);
            }
            None
        },
        Whole::Part { int_part, has_rest } => {
            if has_rest {
                None
            } else {
                signed(bits >= SIGN_WEIGHT, int_part)
            }
        },
    }
}

/// The double rounded down, where the result fits.
pub fn to_floor_int(bits: u64) -> (r: Option<i64>)
    ensures
        r == floor_int(bits),
{
    if (bits / EXPONENT_WEIGHT) % 2048 == 2047 {
        return None;
    }
    proof {
        lemma_quotients(bits);
    }
    match whole(bits) {
        Whole::Huge => {
            proof {
                lemma_huge(bits);
            }
            None
        },
        Whole::Part { int_part, has_rest } => {
            let negative = bits >= SIGN_WEIGHT;
            if negative && has_rest {
                signed(true, int_part + 1)
            } else {
                signed(negative, int_part)
            }
        },
    }
}

/// The double rounded up, where the result fits.
pub fn to_ceil_int(bits: u64) -> (r: Option<i64>)
    ensures
        r == ceil_int(bits),
{
    if (bits / EXPONENT_WEIGHT) % 2048 == 2047 {
        return None;
    }
    proof {
        lemma_quotients(bits);
    }
    match whole(bits) {
        Whole::Huge => {
            proof {
                lemma_huge(bits);
            }
            None
        },
        Whole::Part { int_part, has_rest } => {
            let negative = bits >= SIGN_WEIGHT;
            if !negative && has_rest {
                signed(false, int_part + 1)
            } else {
                signed(negative, int_part)
            }
        },
    }
}

/// The double cut to an integer and clamped.
pub fn to_saturated_int(bits: u64) -> (r: i64)
    ensures
        r == saturated_int(bits),
{
    let negative = bits >= SIGN_WEIGHT;
    let bound: i64 = if negative {
        i64::MIN
    } else {
        i64::MAX
    };
    if (bits / EXPONENT_WEIGHT) % 2048 == 2047 {
        return if bits % EXPONENT_WEIGHT != 0 {
            0
        } else {
            bound
        };
    }
    proof {
        lemma_quotients(bits);
    }
    match whole(bits) {
        Whole::Huge => {
            proof {
                lemma_huge(bits);
            }
            bound
        },
        Whole::Part { int_part, has_rest: _ } => match signed(negative, int_part) {
            Some(i) => i,
            None => bound,
        },
    }
}

/// `2^53`: significands lie below it.
pub const SIGNIFICAND_BOUND: u64 = 0x20_0000_0000_0000;

/// How many low bits of `m` do not fit into a significand.
pub open spec fn excess(m: nat) -> nat
    decreases m,
{
    if m < SIGNIFICAND_BOUND {
        0
    } else {
        1 + excess(m / 2)
    }
}

/// `m / 2^k` rounded to an integer, a tie to the even one.
pub open spec fn round_half_even(m: nat, k: nat) -> nat {
    let q = m / pow2(k);
    let r = m % pow2(k);
    if 2 * r < pow2(k) || (2 * r == pow2(k) && q % 2 == 0) {
        q
    } else {
        q + 1
    }
}

pub open spec fn abs(v: int) -> nat {
    if v < 0 {
        (-v) as nat
    } else {
        v as nat
    }
}

/// `v` rounded to the precision of a double.
pub open spec fn rounded(v: int) -> int {
    let k = excess(abs(v));
    let m = round_half_even(abs(v), k) * pow2(k);
    if v < 0 {
        -m
    } else {
        m as int
    }
}

/// `bits` is the double nearest to the integer `v`, a tie going to the even significand.
pub open spec fn is_nearest(bits: u64, v: int) -> bool {
    &&& is_finite(bits)
    &&& is_negative(bits) <==> v < 0
    &&& units(bits) == rounded(v) * one()
}

/// The double nearest to an integer that has one.
pub open spec fn nearest_double(v: int) -> u64 {
    choose|bits: u64| is_nearest(bits, v)
}

/// The quotient that `excess` leaves.
proof fn lemma_excess(m: nat)
    ensures
        m / pow2(excess(m)) < SIGNIFICAND_BOUND,
        m < SIGNIFICAND_BOUND ==> excess(m) == 0,
        m >= SIGNIFICAND_BOUND ==> m / pow2(excess(m)) >= EXPONENT_WEIGHT && excess(m) > 0,
    decreases m,
{
    lemma2_to64();
    if m >= SIGNIFICAND_BOUND {
        lemma_excess(m / 2);
        lemma_halves(m, excess(m / 2));
    }
}

proof fn lemma_halves(m: nat, k: nat)
    ensures
        m / pow2(k + 1) == (m / 2) / pow2(k),
        m / pow2(k + 1) == (m / pow2(k)) / 2,
{
    lemma_pow2_pos(k);
    lemma_pow2_unfold(k + 1);
    lemma_div_denominator(m as int, 2, pow2(k) as int);
    lemma_div_denominator(m as int, pow2(k) as int, 2);
}

/// Nothing is rounded off where nothing is in excess.
proof fn lemma_no_rounding(m: nat)
    ensures
        pow2(0) == 1,
        round_half_even(m, 0) == m,
{
    lemma2_to64();
    lemma_fundamental_div_mod_converse(m as int, 1, m as int, 0);
}

/// The nearest double to an integer.
pub fn from_int(v: i64) -> (bits: u64)
    ensures
        bits == nearest_double(v as int),
        is_nearest(bits, v as int),
{
    let bits: u64 = nearest_bits(v);
    proof {
        law_value_determines_bits(bits, nearest_double(v as int));
    }
    bits
}

fn nearest_bits(v: i64) -> (bits: u64)
    ensures
        is_nearest(bits, v as int),
{
    let m: u64 = if v < 0 {
        (-(v as i128)) as u64
    } else {
        v as u64
    };
    proof {
        lemma2_to64();
        lemma_pow2_pos(1074);
    }
    if m == 0 {
        proof {
            lemma_no_rounding(0);
            assert(abs(0) == 0 && excess(0) == 0);
            assert(round_half_even(0, 0) * pow2(0) == 0) by (nonlinear_arith)
                requires
                    round_half_even(0, 0) == 0,
            ;
            assert(rounded(0) * one() == 0) by (nonlinear_arith)
                requires
                    rounded(0) == 0,
            ;
            assert(exponent_field(0) == 0 && significand(0) == 0);
            assert(significand(0) * pow2(unit_exponent(0)) == 0) by (nonlinear_arith)
                requires
                    significand(0) == 0,
            ;
        }
        return 0;
    }
    let ghost k0 = excess(m as nat);
    let mut q: u64 = m;
    let mut k: u64 = 0;
    while q >= SIGNIFICAND_BOUND
        invariant
            q == m as nat / pow2(k as nat),
            k + excess(q as nat) == excess(m as nat),
            k <= 64,
            0 < q,
            q <= 0xffff_ffff_ffff_ffff,
            k > 0 ==> q >= EXPONENT_WEIGHT,
            k < 64 || q < SIGNIFICAND_BOUND,
        decreases q,
    {
        proof {
            lemma_halves(m as nat, k as nat);
            if k + 1 >= 64 {
                lemma_pow2_monotonic(64, (k + 1) as nat);
                lemma2_to64_rest();
                lemma_fundamental_div_mod_converse(
                    m as int,
                    pow2((k + 1) as nat) as int,
                    0,
                    m as int,
                );
            }
        }
        q = q / 2;
        k = k + 1;
    }
    assert(k == k0);
    proof {
        lemma_pow2_pos(k as nat);
        lemma_fundamental_div_mod(m as int, pow2(k as nat) as int);
        if k >= 12 {
            lemma_pow2_monotonic(12, k as nat);
            assert(m as int >= 4096 * 0x10_0000_0000_0000) by (nonlinear_arith)
                requires
                    m == pow2(k as nat) * q + m as int % pow2(k as nat) as int,
                    m as int % pow2(k as nat) as int >= 0,
                    pow2(k as nat) >= 4096,
                    q >= 0x10_0000_0000_0000,
            ;
        }
    }
    let weight: u64 = power_of_two(k);
    let rest: u64 = m % weight;
    proof {
        lemma_pow2_monotonic(k as nat, 12);
    }
    let mut s: u64 = if 2 * rest < weight || (2 * rest == weight && q % 2 == 0) {
        q
    } else {
        q + 1
    };
    let ghost whole_part = s * pow2(k as nat);
    assert(s == round_half_even(m as nat, k as nat));
    let mut e: u64 = k + 1075;
    proof {
        lemma_pow2_adds(k as nat, 1074);
        lemma_mul_is_associative(s as int, pow2(k as nat) as int, one());
        assert(s * pow2((e - 1) as nat) == (s * pow2(k as nat)) * one());
    }
    if s == SIGNIFICAND_BOUND {
        proof {
            lemma_pow2_unfold(e as nat);
            assert(s * pow2((e - 1) as nat) == EXPONENT_WEIGHT * pow2(e as nat))
                by (nonlinear_arith)
                requires
                    s == 2 * EXPONENT_WEIGHT,
                    pow2(e as nat) == 2 * pow2((e - 1) as nat),
            ;
        }
        s = EXPONENT_WEIGHT;
        e = e + 1;
    }
    let ghost value = s * pow2((e - 1) as nat);
    while s < EXPONENT_WEIGHT
        invariant
            0 < s < SIGNIFICAND_BOUND,
            s * pow2((e - 1) as nat) == value,
            1023 <= e <= 1100,
            e > 1075 ==> s >= EXPONENT_WEIGHT,
            e <= 1075 ==> s >= pow2((1075 - e) as nat),
        decreases e,
    {
        proof {
            lemma_pow2_unfold((e - 1) as nat);
            lemma_pow2_unfold((1076 - e) as nat);
            lemma2_to64();
            lemma2_to64_rest();
            if e == 1023 {
                assert(pow2(52) == EXPONENT_WEIGHT);
            }
            assert((2 * s) * pow2((e - 2) as nat) == s * pow2((e - 1) as nat)) by (nonlinear_arith)
                requires
                    pow2((e - 1) as nat) == 2 * pow2((e - 2) as nat),
            ;
        }
        s = 2 * s;
        e = e - 1;
    }
    let sign: u64 = if v < 0 {
        SIGN_WEIGHT
    } else {
        0
    };
    let bits: u64 = sign + e * EXPONENT_WEIGHT + (s - EXPONENT_WEIGHT);
    proof {
        assert(bits % EXPONENT_WEIGHT == s - EXPONENT_WEIGHT);
        assert(exponent_field(bits) == e);
        assert(magnitude(bits) == value);
        assert((-whole_part) * one() == -(whole_part * one())) by (nonlinear_arith);
    }
    bits
}

/// An integer of at most 53 bits is its own nearest double.
pub proof fn law_small_integers_are_exact(bits: u64, v: int)
    requires
        -SIGNIFICAND_BOUND <= v <= SIGNIFICAND_BOUND,
        is_nearest(bits, v),
    ensures
        units(bits) == v * one(),
        is_integral(bits),
        floor(bits) == v,
        ceil(bits) == v,
{
    lemma2_to64();
    lemma_pow2_pos(1074);
    let m = abs(v);
    if m == SIGNIFICAND_BOUND {
        assert(excess(m) == 1) by {
            assert(excess(m / 2) == 0);
        }
        assert(pow2(1) == 2);
        assert(m / pow2(1) == m / 2 && m % pow2(1) == 0);
        assert(round_half_even(m, 1) == m / 2);
        assert(round_half_even(m, 1) * pow2(1) == m) by (nonlinear_arith)
            requires
                round_half_even(m, 1) == m / 2,
                m % 2 == 0,
                pow2(1) == 2,
        ;
    } else {
        lemma_no_rounding(m);
        assert(round_half_even(m, 0) * pow2(0) == m) by (nonlinear_arith)
            requires
                round_half_even(m, 0) == m,
                pow2(0) == 1,
        ;
    }
    assert(rounded(v) == v);
    lemma_fundamental_div_mod_converse(v * one(), one(), v, 0);
    assert(-(v * one()) == (-v) * one()) by (nonlinear_arith);
    lemma_fundamental_div_mod_converse(-(v * one()), one(), -v, 0);
}

/// How far rounding moves `m`, and that no multiple of `2^k` is nearer.
proof fn lemma_rounding_distance(m: nat, k: nat, t: int)
    ensures
        ({
            let p = pow2(k) as int;
            let s = round_half_even(m, k) * p;
            &&& abs(s - m) <= abs(t * p - m)
            &&& abs(s - m) <= m - (m / pow2(k)) * p
            &&& m / pow2(k) > 0 ==> abs(s - m) <= m
        }),
{
    let p = pow2(k) as int;
    let q = (m / pow2(k)) as int;
    let r = (m % pow2(k)) as int;
    lemma_pow2_pos(k);
    lemma_fundamental_div_mod(m as int, p);
    assert((q + 1) * p == q * p + p) by (nonlinear_arith);
    assert(m == q * p + r) by (nonlinear_arith)
        requires
            m == p * q + r,
    ;
    if t <= q {
        assert(t * p <= q * p) by (nonlinear_arith)
            requires
                t <= q,
                p > 0,
        ;
    } else {
        assert(t * p >= (q + 1) * p) by (nonlinear_arith)
            requires
                t >= q + 1,
                p > 0,
        ;
    }
    if q > 0 {
        assert(q * p >= p) by (nonlinear_arith)
            requires
                q >= 1,
                p > 0,
        ;
    }
}

/// A double of at least `2^(52 + k)` is a multiple of `2^k`.
proof fn lemma_large_is_multiple(bits: u64, k: nat) -> (t: int)
    requires
        is_finite(bits),
        magnitude(bits) >= (EXPONENT_WEIGHT * pow2(k)) * one(),
    ensures
        magnitude(bits) == (t * pow2(k)) * one(),
{
    let e = unit_exponent(bits);
    let m = significand(bits);
    lemma2_to64();
    lemma2_to64_rest();
    lemma_pow2_pos(k);
    lemma_pow2_adds(k, 1074);
    lemma_mul_is_associative(EXPONENT_WEIGHT as int, pow2(k) as int, one());
    if e < k + 1074 {
        let d = (k + 1074 - e) as nat;
        lemma_pow2_adds(e, d);
        lemma_pow2_pos(e);
        lemma_pow2_monotonic(1, d);
        assert(m * pow2(e) < EXPONENT_WEIGHT * pow2(k + 1074)) by (nonlinear_arith)
            requires
                0 <= m < 2 * EXPONENT_WEIGHT,
                pow2(k + 1074) == pow2(e) * pow2(d),
                pow2(d) >= 2,
                pow2(e) > 0,
        ;
        assert(false);
    }
    let d = (e - k - 1074) as nat;
    lemma_pow2_adds(d, k + 1074);
    lemma_mul_is_associative(m, pow2(d) as int, pow2(k + 1074) as int);
    lemma_mul_is_associative(m * pow2(d), pow2(k) as int, one());
    m * pow2(d)
}

/// How far the nearest double lies from an integer.
proof fn lemma_nearest_distance(bits: u64, v: int)
    requires
        is_nearest(bits, v),
    ensures
        ({
            let m = abs(v);
            let s = round_half_even(m, excess(m)) * pow2(excess(m));
            abs(units(bits) - v * one()) == abs(s - m) * one()
        }),
{
    let o = one();
    let m = abs(v);
    let s = (round_half_even(m, excess(m)) * pow2(excess(m))) as int;
    let distance = abs(s - m);
    lemma_pow2_pos(1074);
    assert(abs(units(bits) - v * o) == distance * o) by (nonlinear_arith)
        requires
            o > 0,
            units(bits) == (if v < 0 { -s } else { s }) * o,
            m == (if v < 0 { -v } else { v }),
            distance == (if s - m < 0 { m - s } else { s - m }),
            abs(units(bits) - v * o) == (if units(bits) - v * o < 0 {
                v * o - units(bits)
            } else {
                units(bits) - v * o
            }),
    ;
}

/// The nearest double differs from an integer by at most a `2^52`th part of it.
pub proof fn law_nearest_is_within_a_part(bits: u64, v: int)
    requires
        is_nearest(bits, v),
    ensures
        abs(units(bits) - v * one()) * EXPONENT_WEIGHT <= abs(v) * one(),
{
    let m = abs(v);
    let k = excess(m);
    let p = pow2(k) as int;
    let q = (m / pow2(k)) as int;
    let distance = abs(round_half_even(m, k) * p - m);
    lemma_pow2_pos(1074);
    lemma_pow2_pos(k);
    lemma_excess(m);
    lemma_nearest_distance(bits, v);
    if m < SIGNIFICAND_BOUND {
        lemma_no_rounding(m);
        assert(round_half_even(m, k) * p == m) by (nonlinear_arith)
            requires
                round_half_even(m, k) == m,
                p == 1,
        ;
    } else {
        lemma_rounding_distance(m, k, 0);
        lemma_fundamental_div_mod(m as int, p);
        assert(m - q * p < p && q * p <= m) by (nonlinear_arith)
            requires
                m == p * q + m as int % p,
                0 <= m as int % p < p,
        ;
        assert(p * EXPONENT_WEIGHT <= q * p) by (nonlinear_arith)
            requires
                EXPONENT_WEIGHT <= q,
                p > 0,
        ;
    }
    assert(distance * EXPONENT_WEIGHT <= m) by (nonlinear_arith)
        requires
            distance == 0 || (distance <= p && p * EXPONENT_WEIGHT <= m),
    ;
    assert((distance * one()) * EXPONENT_WEIGHT <= m * one()) by (nonlinear_arith)
        requires
            distance * EXPONENT_WEIGHT <= m,
            one() > 0,
    ;
}

/// No double lies nearer to an integer than its nearest one.
pub proof fn law_nearest_is_closest(bits: u64, v: int, other: u64)
    requires
        is_nearest(bits, v),
        is_finite(other),
    ensures
        abs(units(bits) - v * one()) <= abs(units(other) - v * one()),
{
    let o = one();
    let m = abs(v);
    let k = excess(m);
    let p = pow2(k) as int;
    let q = (m / pow2(k)) as int;
    let s = round_half_even(m, k) * p;
    let x = magnitude(other);
    lemma2_to64();
    lemma_pow2_pos(1074);
    lemma_pow2_pos(k);
    lemma_excess(m);
    lemma_pow2_pos(unit_exponent(other));
    assert(x >= 0) by (nonlinear_arith)
        requires
            x == significand(other) * pow2(unit_exponent(other)),
            significand(other) >= 0,
            pow2(unit_exponent(other)) > 0,
    ;
    let distance = abs(s - m);
    lemma_nearest_distance(bits, v);
    assert(m * o == if v < 0 { -(v * o) } else { v * o }) by (nonlinear_arith)
        requires
            m == (if v < 0 { -v } else { v }),
    ;
    let far = abs(units(other) - v * o);
    assert(far >= abs(x - m * o));
    if m < SIGNIFICAND_BOUND {
        lemma_no_rounding(m);
        assert(distance == 0);
        assert(distance * o == 0);
    } else if x >= (EXPONENT_WEIGHT * p) * o {
        let t = lemma_large_is_multiple(other, k);
        lemma_rounding_distance(m, k, t);
        let near = abs(t * p - m);
        assert(abs(x - m * o) == near * o) by (nonlinear_arith)
            requires
                o > 0,
                x == (t * p) * o,
                near == (if t * p - m < 0 { m - t * p } else { t * p - m }),
                abs(x - m * o) == (if x - m * o < 0 { m * o - x } else { x - m * o }),
        ;
        assert(distance * o <= near * o) by (nonlinear_arith)
            requires
                distance <= near,
                o > 0,
        ;
    } else {
        lemma_rounding_distance(m, k, 0);
        assert(EXPONENT_WEIGHT * p <= q * p) by (nonlinear_arith)
            requires
                EXPONENT_WEIGHT <= q,
                p > 0,
        ;
        assert(m * o - x >= distance * o) by (nonlinear_arith)
            requires
                o > 0,
                x < (EXPONENT_WEIGHT * p) * o,
                EXPONENT_WEIGHT * p <= q * p,
                distance <= m - q * p,
        ;
    }
}

/// The integers that rounding a double down and up gives enclose it.
pub proof fn law_floor_and_ceil_enclose(bits: u64)
    requires
        is_finite(bits),
    ensures
        floor(bits) * one() <= units(bits) < (floor(bits) + 1) * one(),
        (ceil(bits) - 1) * one() < units(bits) <= ceil(bits) * one(),
        is_integral(bits) <==> floor(bits) == ceil(bits),
{
    let o = one();
    let u = units(bits);
    lemma_pow2_pos(1074);
    lemma_fundamental_div_mod(u, o);
    lemma_fundamental_div_mod(-u, o);
    lemma_quotients(bits);
    assert(floor(bits) * o <= u < (floor(bits) + 1) * o) by (nonlinear_arith)
        requires
            u == o * floor(bits) + u % o,
            0 <= u % o < o,
    ;
    assert((ceil(bits) - 1) * o < u <= ceil(bits) * o) by (nonlinear_arith)
        requires
            -u == o * (-ceil(bits)) + (-u) % o,
            0 <= (-u) % o < o,
    ;
}

/// Two finite doubles of one sign and one value have the same bits, so `is_nearest` names one
/// double only.
pub proof fn law_value_determines_bits(a: u64, b: u64)
    requires
        is_finite(a),
        is_finite(b),
        is_negative(a) == is_negative(b),
        units(a) == units(b),
    ensures
        a == b,
{
    let (m, n) = (significand(a), significand(b));
    let (e, f) = (unit_exponent(a), unit_exponent(b));
    lemma_pow2_pos(e);
    lemma_pow2_pos(f);
    if e < f {
        lemma_smaller_exponent(m, e, n, f);
    } else if f < e {
        lemma_smaller_exponent(n, f, m, e);
    } else {
        assert(m == n) by (nonlinear_arith)
            requires
                m * pow2(e) == n * pow2(e),
                pow2(e) > 0,
        ;
    }
}

proof fn lemma_smaller_exponent(m: int, e: nat, n: int, f: nat)
    requires
        0 <= m < SIGNIFICAND_BOUND,
        EXPONENT_WEIGHT <= n,
        e < f,
    ensures
        m * pow2(e) < n * pow2(f),
{
    let d = (f - e) as nat;
    lemma2_to64();
    lemma_pow2_pos(e);
    lemma_pow2_adds(e, d);
    lemma_pow2_monotonic(1, d);
    assert(m * pow2(e) < n * pow2(f)) by (nonlinear_arith)
        requires
            m < 2 * EXPONENT_WEIGHT,
            EXPONENT_WEIGHT <= n,
            pow2(f) == pow2(e) * pow2(d),
            pow2(d) >= 2,
            pow2(e) > 0,
    ;
}

/// The magnitude of an integer.
pub proof fn lemma_integral_magnitude(bits: u64)
    requires
        is_integral(bits),
    ensures
        magnitude(bits) == abs(floor(bits)) * one(),
        magnitude(bits) / one() == abs(floor(bits)),
        floor(bits) == if is_negative(bits) {
            -(magnitude(bits) / one())
        } else {
            magnitude(bits) / one()
        },
{
    lemma_pow2_pos(1074);
    lemma_quotients(bits);
    lemma_fundamental_div_mod(magnitude(bits), one());
    let q = magnitude(bits) / one();
    assert(magnitude(bits) == q * one()) by (nonlinear_arith)
        requires
            magnitude(bits) == one() * q,
    ;
}

/// Both zeros are zero.
pub proof fn lemma_zeros(bits: u64)
    requires
        bits == 0 || bits == SIGN_WEIGHT,
    ensures
        units(bits) == 0,
        is_integral(bits),
        floor(bits) == 0,
{
    lemma_pow2_pos(1074);
    assert(significand(bits) == 0);
    assert(significand(bits) * pow2(unit_exponent(bits)) == 0) by (nonlinear_arith)
        requires
            significand(bits) == 0,
    ;
    lemma_fundamental_div_mod_converse(0, one(), 0, 0);
}

/// An `i64` stands for an integer exactly if it is that integer, and every integer from `-2^63` to
/// `2^63 - 1` has one.
pub proof fn law_as_i64(v: int, i: i64)
    ensures
        as_i64(v) == Some(i) <==> v == i,
        as_i64(v) is Some <==> -0x8000_0000_0000_0000 <= v <= 0x7fff_ffff_ffff_ffff,
{
}

/// A double is given an integer exactly if it has the value of that integer.
pub proof fn law_exact_int_has_the_value(bits: u64, i: i64)
    ensures
        exact_int(bits) == Some(i) <==> is_finite(bits) && units(bits) == i * one(),
{
    lemma_pow2_pos(1074);
    if is_finite(bits) {
        law_floor_and_ceil_enclose(bits);
        lemma_fundamental_div_mod(units(bits), one());
        let q = floor(bits);
        assert(one() * q == q * one()) by (nonlinear_arith);
        if units(bits) == i * one() {
            lemma_fundamental_div_mod_converse(units(bits), one(), i as int, 0);
        }
    }
}

/// A double is rounded down to the one integer that is not above it and above which it is by less
/// than one.
pub proof fn law_floor_int_is_just_below(bits: u64, i: i64)
    ensures
        floor_int(bits) == Some(i) <==> is_finite(bits) && i * one() <= units(bits) < (i + 1)
            * one(),
{
    if is_finite(bits) {
        law_floor_and_ceil_enclose(bits);
        lemma_one_quotient(floor(bits), i as int, units(bits));
    }
}

/// A double is rounded up to the one integer that is not below it and below which it is by less
/// than one.
pub proof fn law_ceil_int_is_just_above(bits: u64, i: i64)
    ensures
        ceil_int(bits) == Some(i) <==> is_finite(bits) && (i - 1) * one() < units(bits) <= i
            * one(),
{
    if is_finite(bits) {
        law_floor_and_ceil_enclose(bits);
        let (a, b) = (-ceil(bits), -(i as int));
        assert(a * one() == -(ceil(bits) * one()) && (a + 1) * one() == -((ceil(bits) - 1) * one()))
            by (nonlinear_arith)
            requires
                a == -ceil(bits),
        ;
        assert(b * one() == -(i * one()) && (b + 1) * one() == -((i - 1) * one()))
            by (nonlinear_arith)
            requires
                b == -(i as int),
        ;
        lemma_one_quotient(a, b, -units(bits));
    }
}

/// A value lies between the multiples of one around one integer only.
proof fn lemma_one_quotient(q: int, i: int, u: int)
    requires
        q * one() <= u < (q + 1) * one(),
    ensures
        i * one() <= u < (i + 1) * one() <==> i == q,
{
    lemma_pow2_pos(1074);
    if i < q {
        assert((i + 1) * one() <= q * one()) by (nonlinear_arith)
            requires
                i + 1 <= q,
                one() > 0,
        ;
    } else if i > q {
        assert(i * one() >= (q + 1) * one()) by (nonlinear_arith)
            requires
                i >= q + 1,
                one() > 0,
        ;
    }
}

/// A double that is cut to an integer loses less than one towards zero; beyond the integers it
/// becomes the last one of its sign, and a NaN becomes zero.
pub proof fn law_saturated_int_is_cut_towards_zero(bits: u64)
    ensures
        ({
            let r = saturated_int(bits);
            let limit = 0x8000_0000_0000_0000 * one();
            &&& (bits / 0x10_0000_0000_0000) % 2048 == 2047 && bits % 0x10_0000_0000_0000 != 0
                ==> r == 0
            &&& (bits / 0x10_0000_0000_0000) % 2048 == 2047 && bits % 0x10_0000_0000_0000 == 0
                ==> r == if bits >= 0x8000_0000_0000_0000 {
                -0x8000_0000_0000_0000
            } else {
                0x7fff_ffff_ffff_ffff
            }
            &&& is_finite(bits) && 0 <= units(bits) < limit ==> r * one() <= units(bits) < (r + 1)
                * one()
            &&& is_finite(bits) && units(bits) >= limit ==> r == 0x7fff_ffff_ffff_ffff
            &&& is_finite(bits) && -limit - one() < units(bits) <= 0 ==> (r - 1) * one() < units(
                bits,
            ) <= r * one()
            &&& is_finite(bits) && units(bits) <= -limit - one() ==> r == -0x8000_0000_0000_0000
        }),
{
    let r = saturated_int(bits);
    let u = units(bits);
    lemma_pow2_pos(1074);
    if is_finite(bits) {
        law_floor_and_ceil_enclose(bits);
        lemma_quotients(bits);
        let (f, c) = (floor(bits), ceil(bits));
        if !is_negative(bits) {
            assert(f > 0x7fff_ffff_ffff_ffff <==> u >= 0x8000_0000_0000_0000 * one())
                by (nonlinear_arith)
                requires
                    f * one() <= u < (f + 1) * one(),
                    one() > 0,
            ;
            assert(f >= 0);
            assert(u >= 0) by (nonlinear_arith)
                requires
                    f * one() <= u,
                    f >= 0,
                    one() > 0,
            ;
            if u == 0 {
                lemma_one_quotient(f, 0, 0);
                assert((0 - 1) * one() < 0 <= 0 * one()) by (nonlinear_arith)
                    requires
                        one() > 0,
                ;
            }
        } else {
            assert(c < -0x8000_0000_0000_0000 <==> u <= -0x8000_0000_0000_0000 * one() - one())
                by (nonlinear_arith)
                requires
                    (c - 1) * one() < u <= c * one(),
                    one() > 0,
            ;
            assert(c <= 0);
            assert(u <= 0) by (nonlinear_arith)
                requires
                    u <= c * one(),
                    c <= 0,
                    one() > 0,
            ;
            if u == 0 {
                assert(c == 0) by (nonlinear_arith)
                    requires
                        (c - 1) * one() < 0 <= c * one(),
                        one() > 0,
                ;
                assert(0 * one() <= 0 < (0 + 1) * one()) by (nonlinear_arith)
                    requires
                        one() > 0,
                ;
            }
        }
    }
}

/// A double of at least the smallest normal value has the significand by which it is written.
proof fn lemma_significand_of(bits: u64, n: int, f: nat)
    requires
        EXPONENT_WEIGHT <= n < SIGNIFICAND_BOUND,
        magnitude(bits) == n * pow2(f),
    ensures
        significand(bits) == n,
{
    let m = significand(bits);
    let e = unit_exponent(bits);
    lemma_pow2_pos(f);
    if e < f {
        lemma_smaller_exponent(m, e, n, f);
    } else if f < e {
        lemma_smaller_exponent(n, f, m, e);
    } else {
        assert(m == n) by (nonlinear_arith)
            requires
                m * pow2(f) == n * pow2(f),
                pow2(f) > 0,
        ;
    }
}

/// Of two doubles that are equally near to an integer, the nearest one is that with the even
/// significand.
pub proof fn law_ties_go_to_the_even_significand(bits: u64, v: int, other: u64)
    requires
        is_nearest(bits, v),
        is_finite(other),
        other != bits,
        abs(units(other) - v * one()) == abs(units(bits) - v * one()),
    ensures
        significand(bits) % 2 == 0,
{
    if v == 0 {
        lemma_no_rounding(0);
        lemma_pow2_pos(unit_exponent(bits));
        assert(excess(0) == 0);
        assert(round_half_even(0, 0) * pow2(0) == 0) by (nonlinear_arith)
            requires
                round_half_even(0, 0) == 0,
        ;
        assert(rounded(0) * one() == 0) by (nonlinear_arith)
            requires
                rounded(0) == 0,
        ;
        assert(significand(bits) == 0) by (nonlinear_arith)
            requires
                significand(bits) * pow2(unit_exponent(bits)) == 0,
                pow2(unit_exponent(bits)) > 0,
        ;
    } else {
        lemma_tie(bits, v, other);
    }
}

proof fn lemma_tie(bits: u64, v: int, other: u64)
    requires
        v != 0,
        is_nearest(bits, v),
        is_finite(other),
        other != bits,
        abs(units(other) - v * one()) == abs(units(bits) - v * one()),
    ensures
        significand(bits) % 2 == 0,
{
    let o = one();
    let m = abs(v);
    let k = excess(m);
    let p = pow2(k) as int;
    let q = (m / pow2(k)) as int;
    let r = (m % pow2(k)) as int;
    let n = round_half_even(m, k) as int;
    let x = magnitude(other);
    lemma2_to64();
    lemma_pow2_pos(1074);
    lemma_pow2_pos(k);
    lemma_excess(m);
    lemma_nearest_distance(bits, v);
    lemma_pow2_pos(unit_exponent(other));
    lemma_pow2_pos(unit_exponent(bits));
    assert(x >= 0) by (nonlinear_arith)
        requires
            x == significand(other) * pow2(unit_exponent(other)),
            significand(other) >= 0,
            pow2(unit_exponent(other)) > 0,
    ;
    let distance = abs(n * p - m);
    assert(m * o == if v < 0 { -(v * o) } else { v * o }) by (nonlinear_arith)
        requires
            m == (if v < 0 { -v } else { v }),
    ;
    lemma_fundamental_div_mod(m as int, p);
    assert(m == q * p + r) by (nonlinear_arith)
        requires
            m == p * q + r,
    ;
    assert(m * o > 0) by (nonlinear_arith)
        requires
            m > 0,
            o > 0,
    ;
    if n * p == m {
        assert(distance * o == 0);
        law_value_determines_bits(bits, other);
        assert(false);
    }
    if m < SIGNIFICAND_BOUND {
        lemma_no_rounding(m);
        assert(n * p == m) by (nonlinear_arith)
            requires
                n == m,
                p == 1,
        ;
        assert(false);
    }
    lemma_rounding_distance(m, k, 0);
    assert(q * p >= p && EXPONENT_WEIGHT * p <= q * p) by (nonlinear_arith)
        requires
            q >= EXPONENT_WEIGHT,
            EXPONENT_WEIGHT >= 1,
            p > 0,
    ;
    assert(distance * o < m * o) by (nonlinear_arith)
        requires
            distance <= r,
            r < p,
            p <= q * p,
            m == q * p + r,
            o > 0,
            r >= 0,
    ;
    // The other double has the sign of the integer.
    assert(abs(x - m * o) == distance * o);
    if x < (EXPONENT_WEIGHT * p) * o {
        assert(m * o - x > distance * o) by (nonlinear_arith)
            requires
                o > 0,
                x < (EXPONENT_WEIGHT * p) * o,
                EXPONENT_WEIGHT * p <= q * p,
                distance <= r,
                m == q * p + r,
        ;
        assert(false);
    }
    let t = lemma_large_is_multiple(other, k);
    assert(abs(t * p - m) == distance) by (nonlinear_arith)
        requires
            o > 0,
            x == (t * p) * o,
            abs(x - m * o) == distance * o,
            distance >= 0,
            abs(x - m * o) == (if x - m * o < 0 { m * o - x } else { x - m * o }),
            abs(t * p - m) == (if t * p - m < 0 { m - t * p } else { t * p - m }),
    ;
    assert(units(bits) == (if v < 0 { -(n * p) } else { n * p }) * o);
    assert(magnitude(bits) == (n * p) * o) by (nonlinear_arith)
        requires
            units(bits) == (if v < 0 { -(n * p) } else { n * p }) * o,
            magnitude(bits) == (if v < 0 { -units(bits) } else { units(bits) }),
    ;
    if t == n {
        law_value_determines_bits(bits, other);
        assert(false);
    }
    assert(t * p != n * p) by (nonlinear_arith)
        requires
            t != n,
            p > 0,
    ;
    assert(t * p + n * p == 2 * m);
    let d = t + n - 2 * q;
    assert(d * p == 2 * r) by (nonlinear_arith)
        requires
            t * p + n * p == 2 * (q * p + r),
            d == t + n - 2 * q,
    ;
    assert(0 <= d < 2) by (nonlinear_arith)
        requires
            d * p == 2 * r,
            0 <= r < p,
    ;
    assert(2 * r == p || r == 0) by (nonlinear_arith)
        requires
            d * p == 2 * r,
            d == 0 || d == 1,
    ;
    assert(n % 2 == 0);
    lemma_pow2_adds(k, 1074);
    lemma_mul_is_associative(n, p, o);
    if n < SIGNIFICAND_BOUND {
        lemma_significand_of(bits, n, k + 1074);
    } else {
        lemma_pow2_unfold(k + 1075);
        assert(n * pow2(k + 1074) == EXPONENT_WEIGHT * pow2(k + 1075)) by (nonlinear_arith)
            requires
                n == 2 * EXPONENT_WEIGHT,
                pow2(k + 1075) == 2 * pow2(k + 1074),
        ;
        lemma_significand_of(bits, EXPONENT_WEIGHT as int, k + 1075);
    }
}

} // verus!
