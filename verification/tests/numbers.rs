use index_executor::decimal::Decimal;
use index_executor::double::{
    from_int, to_ceil_int, to_exact_int, to_floor_int, to_saturated_int,
};
use index_executor::executor::QueryExecutor;
use index_executor::value::{Number, Value};

fn float(f: f64) -> Number {
    Number::Float(f.to_bits())
}

fn decimal(negative: bool, mantissa: u128, scale: u32) -> Decimal {
    Decimal::from_parts(negative, mantissa, scale).unwrap()
}

fn numbers(values: Vec<Value>) -> Vec<Number> {
    values
        .into_iter()
        .map(|v| match v {
            Value::Number(n) => n,
            other => panic!("not a number: {:?}", other),
        })
        .collect()
}

#[test]
fn integer_has_three_forms() {
    let forms = numbers(QueryExecutor::get_equal_number_variants(&Number::Int(5)));
    assert_eq!(forms, vec![Number::Int(5), float(5.0), Number::Decimal(decimal(false, 5, 0))]);
    let forms = numbers(QueryExecutor::get_equal_number_variants(&Number::Int(-7)));
    assert_eq!(forms, vec![Number::Int(-7), float(-7.0), Number::Decimal(decimal(true, 7, 0))]);
}

#[test]
fn extreme_integers_have_three_forms() {
    let forms = numbers(QueryExecutor::get_equal_number_variants(&Number::Int(i64::MAX)));
    assert_eq!(
        forms,
        vec![
            Number::Int(i64::MAX),
            float(9223372036854775807i64 as f64),
            Number::Decimal(decimal(false, 9223372036854775807, 0)),
        ]
    );
    let forms = numbers(QueryExecutor::get_equal_number_variants(&Number::Int(i64::MIN)));
    assert_eq!(
        forms,
        vec![
            Number::Int(i64::MIN),
            float(-9223372036854775808.0),
            Number::Decimal(decimal(true, 9223372036854775808, 0)),
        ]
    );
}

#[test]
fn nearest_double_of_an_integer() {
    let samples: Vec<i64> = vec![
        0,
        1,
        -1,
        2,
        3,
        1000,
        9007199254740991,
        9007199254740992,
        9007199254740993,
        9007199254740994,
        9007199254740995,
        -9007199254740993,
        36028797018963969,
        4611686018427387904,
        9223372036854775295,
        9223372036854775296,
        i64::MAX,
        i64::MIN,
        i64::MIN + 1,
    ];
    for i in samples {
        assert_eq!(from_int(i), (i as f64).to_bits(), "{}", i);
    }
}

#[test]
fn fractional_float_has_no_integer_form() {
    let forms = numbers(QueryExecutor::get_equal_number_variants(&float(1.5)));
    assert_eq!(forms, vec![float(1.5), Number::Decimal(decimal(false, 15, 1))]);
    let forms = numbers(QueryExecutor::get_equal_number_variants(&float(0.1)));
    assert_eq!(forms, vec![float(0.1), Number::Decimal(decimal(false, 1, 1))]);
    let forms = numbers(QueryExecutor::get_equal_number_variants(&float(-2.25)));
    assert_eq!(forms, vec![float(-2.25), Number::Decimal(decimal(true, 225, 2))]);
}

#[test]
fn whole_float_has_three_forms() {
    let forms = numbers(QueryExecutor::get_equal_number_variants(&float(4096.0)));
    assert_eq!(
        forms,
        vec![Number::Int(4096), float(4096.0), Number::Decimal(decimal(false, 4096, 0))]
    );
}

#[test]
fn negative_zero_keeps_its_sign() {
    let forms = numbers(QueryExecutor::get_equal_number_variants(&float(-0.0)));
    assert_eq!(
        forms,
        vec![Number::Int(0), float(-0.0), Number::Decimal(decimal(true, 0, 0))]
    );
}

#[test]
fn floats_without_decimal_form() {
    for f in [f64::NAN, f64::INFINITY, f64::NEG_INFINITY, 1e30, -1e300] {
        let forms = numbers(QueryExecutor::get_equal_number_variants(&float(f)));
        assert_eq!(forms, vec![float(f)]);
    }
}

#[test]
fn largest_float_with_decimal_form() {
    // The last double below 2^96, and 2^96 itself.
    let below: f64 = 79228162514264328797450928128.0;
    let bound: f64 = 79228162514264337593543950336.0;
    assert_eq!(
        numbers(QueryExecutor::get_equal_number_variants(&float(below))),
        vec![float(below), Number::Decimal(decimal(false, 79228162514264328797450928128, 0))]
    );
    assert_eq!(numbers(QueryExecutor::get_equal_number_variants(&float(bound))), vec![float(bound)]);
}

#[test]
fn fractional_decimal_has_no_integer_form() {
    let d = decimal(false, 15, 1);
    let forms = numbers(QueryExecutor::get_equal_number_variants(&Number::Decimal(d)));
    assert_eq!(forms, vec![float(1.5), Number::Decimal(d)]);
    let variants = QueryExecutor::get_number_variants(&Number::Decimal(d), |_| None);
    assert_eq!(variants, (None, Some(1.5f64.to_bits()), Some(d)));
    let d = decimal(true, 299, 2);
    let forms = numbers(QueryExecutor::get_equal_number_variants(&Number::Decimal(d)));
    assert_eq!(forms, vec![float(-2.99), Number::Decimal(d)]);
    let d = decimal(false, 1, 28);
    assert_eq!(d.to_exact_int(), None);
    assert_eq!(decimal(false, 70000000000000000000000000000, 28).to_exact_int(), Some(7));
    assert_eq!(decimal(true, 0, 28).to_exact_int(), Some(0));
}

#[test]
fn fractional_decimal_loses_its_digits_at_the_end_of_a_range() {
    for (negative, cut) in [(false, 1), (true, -1)] {
        let d = decimal(negative, 15, 1);
        let f = if negative { -1.5f64 } else { 1.5 };
        let expected = (Some(cut), Some(f.to_bits()), Some(d));
        let n = Number::Decimal(d);
        assert_eq!(QueryExecutor::get_range_number_from_variants(&n), expected);
        assert_eq!(QueryExecutor::get_range_number_to_variants(&n), expected);
    }
}

#[test]
fn double_of_a_fractional_decimal_is_close() {
    for (mantissa, scale) in [
        (10000005u128, 1u32),
        (1, 28),
        (79228162514264337593543950335, 1),
        (79228162514264337593543950335, 28),
        (123456789012345678901234567, 13),
    ] {
        let bits = decimal(false, mantissa, scale).to_double().unwrap();
        let exact = mantissa as f64 / 10f64.powi(scale as i32);
        let f = f64::from_bits(bits);
        assert!((f - exact).abs() <= exact / 70368744177664.0, "{}", f);
        assert_eq!(decimal(false, mantissa, scale).to_double(), Some(bits));
        let bits = decimal(true, mantissa, scale).to_double().unwrap();
        assert_eq!(f64::from_bits(bits), -f);
    }
}

#[test]
fn whole_decimal_keeps_its_scale() {
    let d = decimal(false, 200, 2);
    let forms = numbers(QueryExecutor::get_equal_number_variants(&Number::Decimal(d)));
    assert_eq!(forms, vec![Number::Int(2), float(2.0), Number::Decimal(d)]);
}

#[test]
fn zero_decimal_keeps_its_sign_with_a_scale() {
    assert_eq!(decimal(true, 0, 2).to_double(), Some((-0.0f64).to_bits()));
    assert_eq!(decimal(true, 0, 0).to_double(), Some(0.0f64.to_bits()));
    assert_eq!(decimal(true, 0, 2).to_int(), Some(0));
}

#[test]
fn large_decimal_has_no_integer_form() {
    let d = decimal(false, 79228162514264337593543950335, 0);
    let forms = numbers(QueryExecutor::get_equal_number_variants(&Number::Decimal(d)));
    assert_eq!(forms, vec![float(79228162514264337593543950336.0), Number::Decimal(d)]);
    assert_eq!(decimal(false, 9223372036854775807, 0).to_int(), Some(i64::MAX));
    assert_eq!(decimal(false, 9223372036854775808, 0).to_int(), None);
    assert_eq!(decimal(true, 9223372036854775808, 0).to_int(), Some(i64::MIN));
    assert_eq!(decimal(true, 9223372036854775809, 0).to_int(), None);
}

#[test]
fn decimal_parts_are_checked() {
    assert_eq!(Decimal::from_parts(false, 1 << 96, 0), None);
    assert_eq!(Decimal::from_parts(false, 1, 29), None);
    let d = decimal(true, (1 << 96) - 1, 28);
    assert!(d.is_negative());
    assert_eq!(d.mantissa(), (1 << 96) - 1);
    assert_eq!(d.scale(), 28);
}

#[test]
fn decimal_from_integers() {
    assert_eq!(Decimal::from_int(42), Some(decimal(false, 42, 0)));
    assert_eq!(Decimal::from_int(-42), Some(decimal(true, 42, 0)));
    assert_eq!(Decimal::from_int(0), Some(decimal(false, 0, 0)));
}

#[test]
fn doubles_rounded_to_integers() {
    let samples: Vec<f64> = vec![
        0.0,
        -0.0,
        0.5,
        -0.5,
        1.0,
        -1.0,
        1.25,
        -1.25,
        5e-324,
        -5e-324,
        4503599627370495.5,
        -4503599627370495.5,
        9007199254740993.0,
        9223372036854774784.0,
        -9223372036854775808.0,
    ];
    for f in samples {
        let bits = f.to_bits();
        assert_eq!(to_floor_int(bits), Some(f.floor() as i64), "{}", f);
        assert_eq!(to_ceil_int(bits), Some(f.ceil() as i64), "{}", f);
        let exact = if f.trunc() == f { Some(f as i64) } else { None };
        assert_eq!(to_exact_int(bits), exact, "{}", f);
        assert_eq!(to_saturated_int(bits), f as i64, "{}", f);
    }
}

#[test]
fn doubles_without_an_integer() {
    let samples: Vec<f64> = vec![
        9223372036854775808.0,
        -9223372036854777856.0,
        1e19,
        1e20,
        -1e20,
        f64::MAX,
        f64::MIN,
        f64::INFINITY,
        f64::NEG_INFINITY,
        f64::NAN,
    ];
    for f in samples {
        let bits = f.to_bits();
        assert_eq!(to_floor_int(bits), None, "{}", f);
        assert_eq!(to_ceil_int(bits), None, "{}", f);
        assert_eq!(to_exact_int(bits), None, "{}", f);
        assert_eq!(to_saturated_int(bits), f as i64, "{}", f);
    }
}

#[test]
fn given_conversion_is_used_for_floats_only() {
    let (i, f, d) = QueryExecutor::get_number_variants(&float(2.5), |_| Some(77));
    assert_eq!((i, f), (Some(77), Some(2.5f64.to_bits())));
    assert_eq!(d, Some(decimal(false, 25, 1)));
    let (i, f, d) = QueryExecutor::get_number_variants(&Number::Int(3), |_| Some(77));
    assert_eq!((i, f), (Some(3), Some(3.0f64.to_bits())));
    assert_eq!(d, Some(decimal(false, 3, 0)));
}

#[test]
fn small_integers_agree_in_all_forms() {
    for i in [-9007199254740992i64, -1, 0, 1, 12345, 9007199254740992] {
        let of_int = numbers(QueryExecutor::get_equal_number_variants(&Number::Int(i)));
        let of_float = numbers(QueryExecutor::get_equal_number_variants(&float(i as f64)));
        assert_eq!(of_int, of_float);
        let d = Decimal::from_int(i).unwrap();
        let of_decimal = numbers(QueryExecutor::get_equal_number_variants(&Number::Decimal(d)));
        assert_eq!(of_int, of_decimal);
    }
}

#[test]
fn match_reference_is_the_low_byte() {
    let get = |n: Number| QueryExecutor::get_match_ref(&Value::Number(n));
    assert_eq!(get(Number::Int(1)), Some(1));
    assert_eq!(get(Number::Int(257)), Some(1));
    assert_eq!(get(Number::Int(-1)), Some(255));
    assert_eq!(get(float(2.9)), Some(2));
    assert_eq!(get(float(-2.9)), Some(254));
    assert_eq!(get(float(1e30)), Some(255));
    assert_eq!(get(float(-1e30)), Some(0));
    assert_eq!(get(float(f64::NAN)), Some(0));
    assert_eq!(get(Number::Decimal(decimal(false, 29, 1))), Some(2));
    assert_eq!(get(Number::Decimal(decimal(false, 1 << 90, 0))), Some(0));
    assert_eq!(QueryExecutor::get_match_ref(&Value::Null), None);
    assert_eq!(QueryExecutor::get_match_ref(&Value::Bool(true)), None);
}
