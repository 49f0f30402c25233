use index_executor::decimal::Decimal;
use index_executor::executor::QueryExecutor;
use index_executor::plan::{IteratorRange, ValueType};
use index_executor::value::{Number, RangeValue, Value};

fn float(f: f64) -> Number {
    Number::Float(f.to_bits())
}

fn decimal(negative: bool, mantissa: u128, scale: u32) -> Number {
    Number::Decimal(Decimal::from_parts(negative, mantissa, scale).unwrap())
}

fn at(n: Number, inclusive: bool) -> RangeValue {
    RangeValue { value: Value::Number(n), inclusive }
}

fn unbounded() -> RangeValue {
    RangeValue { value: Value::Absent, inclusive: false }
}

fn range(value_type: ValueType, from: RangeValue, to: RangeValue) -> IteratorRange {
    IteratorRange::new(value_type, from, to)
}

#[test]
fn range_between_integers() {
    let ranges = QueryExecutor::get_ranges_variants(
        &at(Number::Int(1), true),
        &at(Number::Int(9), false),
    );
    assert_eq!(
        ranges,
        Some(vec![
            range(
                ValueType::NumberInt,
                at(Number::Int(1), true),
                at(Number::Int(9), false)
            ),
            range(ValueType::NumberFloat, at(float(1.0), true), at(float(9.0), false)),
            range(
                ValueType::NumberDecimal,
                at(decimal(false, 1, 0), true),
                at(decimal(false, 9, 0), false)
            ),
        ])
    );
}

#[test]
fn range_between_floats_is_widened_to_integers() {
    let ranges = QueryExecutor::get_ranges_number_variants(&float(-1.5), false, &float(2.5), false);
    assert_eq!(
        ranges,
        vec![
            range(ValueType::NumberInt, at(Number::Int(-2), false), at(Number::Int(3), false)),
            range(ValueType::NumberFloat, at(float(-1.5), false), at(float(2.5), false)),
            range(
                ValueType::NumberDecimal,
                at(decimal(true, 15, 1), false),
                at(decimal(false, 25, 1), false)
            ),
        ]
    );
}

#[test]
fn range_between_decimals_cuts_both_ends() {
    let ranges = QueryExecutor::get_ranges_number_variants(
        &decimal(true, 15, 1),
        true,
        &decimal(false, 25, 1),
        true,
    );
    assert_eq!(
        ranges,
        vec![
            range(ValueType::NumberInt, at(Number::Int(-1), true), at(Number::Int(2), true)),
            range(ValueType::NumberFloat, at(float(-1.5), true), at(float(2.5), true)),
            range(
                ValueType::NumberDecimal,
                at(decimal(true, 15, 1), true),
                at(decimal(false, 25, 1), true)
            ),
        ]
    );
}

#[test]
fn range_needs_a_form_of_both_ends() {
    let ranges =
        QueryExecutor::get_ranges_number_variants(&Number::Int(0), true, &float(1e30), true);
    assert_eq!(
        ranges,
        vec![range(ValueType::NumberFloat, at(float(0.0), true), at(float(1e30), true))]
    );
}

#[test]
fn range_above_a_number() {
    let ranges = QueryExecutor::get_ranges_variants(&at(float(2.5), true), &unbounded());
    assert_eq!(
        ranges,
        Some(vec![
            range(ValueType::NumberInt, at(Number::Int(2), true), unbounded()),
            range(ValueType::NumberFloat, at(float(2.5), true), unbounded()),
            range(ValueType::NumberDecimal, at(decimal(false, 25, 1), true), unbounded()),
        ])
    );
    let ranges = QueryExecutor::get_from_range_number_variants(&float(f64::INFINITY), false);
    assert_eq!(
        ranges,
        vec![range(ValueType::NumberFloat, at(float(f64::INFINITY), false), unbounded())]
    );
}

#[test]
fn range_below_a_number() {
    let ranges = QueryExecutor::get_ranges_variants(&unbounded(), &at(float(2.5), false));
    assert_eq!(
        ranges,
        Some(vec![
            range(ValueType::NumberInt, unbounded(), at(Number::Int(3), false)),
            range(ValueType::NumberFloat, unbounded(), at(float(2.5), false)),
            range(ValueType::NumberDecimal, unbounded(), at(decimal(false, 25, 1), false)),
        ])
    );
    let ranges = QueryExecutor::get_to_range_number_variants(&Number::Int(-4), true);
    assert_eq!(
        ranges,
        vec![
            range(ValueType::NumberInt, unbounded(), at(Number::Int(-4), true)),
            range(ValueType::NumberFloat, unbounded(), at(float(-4.0), true)),
            range(ValueType::NumberDecimal, unbounded(), at(decimal(true, 4, 0), true)),
        ]
    );
}

#[test]
fn range_over_other_values_is_not_split() {
    let text = RangeValue { value: Value::Strand("a".to_string()), inclusive: true };
    assert_eq!(QueryExecutor::get_ranges_variants(&text, &unbounded()), None);
    assert_eq!(QueryExecutor::get_ranges_variants(&unbounded(), &unbounded()), None);
    assert_eq!(QueryExecutor::get_ranges_variants(&at(Number::Int(1), true), &text), None);
    let null = RangeValue { value: Value::Null, inclusive: true };
    assert_eq!(QueryExecutor::get_ranges_variants(&null, &at(Number::Int(1), true)), None);
}

#[test]
fn forms_of_range_ends() {
    let (i, f, _) = QueryExecutor::get_range_number_from_variants(&float(-0.5));
    assert_eq!((i, f), (Some(-1), Some((-0.5f64).to_bits())));
    let (i, f, _) = QueryExecutor::get_range_number_to_variants(&float(-0.5));
    assert_eq!((i, f), (Some(0), Some((-0.5f64).to_bits())));
    let (i, _, d) = QueryExecutor::get_range_number_from_variants(&float(1e19));
    assert_eq!(i, None);
    assert_eq!(d, Decimal::from_parts(false, 10000000000000000000, 0));
}

#[test]
fn ranges_between_meet_those_above_and_below() {
    let samples = [
        Number::Int(3),
        float(-2.5),
        float(1e19),
        float(1e30),
        decimal(false, 20, 1),
        decimal(false, 1 << 90, 0),
    ];
    for from in samples.iter() {
        for to in samples.iter() {
            let above = QueryExecutor::get_from_range_number_variants(from, true);
            let below = QueryExecutor::get_to_range_number_variants(to, false);
            let mut expected = Vec::new();
            for a in above.iter() {
                for b in below.iter().filter(|b| b.value_type == a.value_type) {
                    expected.push(range(a.value_type, a.from.clone(), b.to.clone()));
                }
            }
            assert_eq!(
                QueryExecutor::get_ranges_number_variants(from, true, to, false),
                expected
            );
        }
    }
}

#[test]
fn integers_at_inclusive_decimal_ends_are_kept() {
    let ranges = QueryExecutor::get_ranges_number_variants(
        &decimal(true, 15, 1),
        true,
        &decimal(false, 15, 1),
        true,
    );
    assert_eq!(
        ranges[0],
        range(ValueType::NumberInt, at(Number::Int(-1), true), at(Number::Int(1), true))
    );
}

#[test]
fn integers_between_floats_are_kept() {
    let ranges = QueryExecutor::get_ranges_number_variants(&float(0.25), false, &float(3.75), false);
    let inner = ranges.iter().find(|r| r.value_type == ValueType::NumberInt).unwrap();
    let (from, to) = match (&inner.from.value, &inner.to.value) {
        (Value::Number(Number::Int(from)), Value::Number(Number::Int(to))) => (*from, *to),
        other => panic!("{:?}", other),
    };
    for i in [1i64, 2, 3] {
        assert!(from < i && i < to);
    }
}
