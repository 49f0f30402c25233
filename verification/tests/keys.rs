use index_executor::decimal::Decimal;
use index_executor::executor::QueryExecutor;
use index_executor::value::{Array, Number, Value};

fn integer(i: i64) -> Value {
    Value::Number(Number::Int(i))
}

fn float(f: f64) -> Value {
    Value::Number(Number::Float(f.to_bits()))
}

fn decimal(i: i64) -> Value {
    Value::Number(Number::Decimal(Decimal::from_int(i).unwrap()))
}

fn text(s: &str) -> Value {
    Value::Strand(s.to_string())
}

fn array(items: Vec<Value>) -> Array {
    Array::from(items)
}

#[test]
fn key_of_a_value_that_is_no_number() {
    assert_eq!(
        QueryExecutor::get_equal_variants_from_value(&text("x")),
        vec![array(vec![text("x")])]
    );
    assert_eq!(
        QueryExecutor::get_equal_variants_from_value(&Value::Absent),
        vec![array(vec![Value::Absent])]
    );
}

#[test]
fn keys_of_a_number() {
    assert_eq!(
        QueryExecutor::get_equal_variants_from_value(&integer(1)),
        vec![array(vec![integer(1)]), array(vec![float(1.0)]), array(vec![decimal(1)])]
    );
}

#[test]
fn keys_of_an_array_without_numbers() {
    let a = array(vec![text("x"), Value::Bool(true), Value::Null]);
    assert_eq!(QueryExecutor::get_equal_variants_from_value(&Value::Array(a.clone())), vec![a]);
}

#[test]
fn keys_of_an_array_vary_the_last_column_first() {
    let value = Value::Array(array(vec![integer(1), text("x"), integer(2)]));
    let keys = QueryExecutor::get_equal_variants_from_value(&value);
    let mut expected = Vec::new();
    for first in [integer(1), float(1.0), decimal(1)] {
        for last in [integer(2), float(2.0), decimal(2)] {
            expected.push(array(vec![first.clone(), text("x"), last.clone()]));
        }
    }
    assert_eq!(keys, expected);
}

#[test]
fn key_of_an_empty_array_is_empty() {
    let value = Value::Array(array(Vec::new()));
    assert_eq!(QueryExecutor::get_equal_variants_from_value(&value), vec![array(Vec::new())]);
}

#[test]
fn keys_of_several_values_follow_each_other() {
    let values = Value::Array(array(vec![
        text("x"),
        integer(1),
        Value::Array(array(vec![text("y"), text("z")])),
    ]));
    assert_eq!(
        QueryExecutor::get_equal_variants_from_values(&values),
        vec![
            array(vec![text("x")]),
            array(vec![integer(1)]),
            array(vec![float(1.0)]),
            array(vec![decimal(1)]),
            array(vec![text("y"), text("z")]),
        ]
    );
    assert_eq!(QueryExecutor::get_equal_variants_from_values(&integer(1)), Vec::new());
    assert_eq!(
        QueryExecutor::get_equal_variants_from_values(&Value::Array(array(Vec::new()))),
        Vec::new()
    );
}

#[test]
fn keys_of_several_values_concatenate() {
    let first = vec![integer(1), text("x")];
    let second = vec![Value::Array(array(vec![text("y"), integer(2)])), integer(1)];
    let mut both = first.clone();
    both.extend(second.clone());
    let keys = |values: Vec<Value>| {
        QueryExecutor::get_equal_variants_from_values(&Value::Array(array(values)))
    };
    let mut expected = keys(first);
    expected.extend(keys(second));
    assert_eq!(keys(both), expected);
    assert_eq!(
        keys(vec![integer(1)]),
        QueryExecutor::get_equal_variants_from_value(&integer(1))
    );
}

#[test]
fn keys_are_appended() {
    let mut keys = vec![array(vec![text("first")])];
    QueryExecutor::generate_variants_from_value(&text("x"), &mut keys);
    QueryExecutor::generate_variants_from_array(&array(vec![text("y")]), &mut keys);
    assert_eq!(
        keys,
        vec![array(vec![text("first")]), array(vec![text("x")]), array(vec![text("y")])]
    );
}

#[test]
fn appended_keys_do_not_depend_on_what_was_there() {
    for value in [integer(1), text("x"), Value::Array(array(vec![integer(1), text("x")]))] {
        let mut fresh = Vec::new();
        QueryExecutor::generate_variants_from_value(&value, &mut fresh);
        let mut after = vec![array(vec![text("first")])];
        QueryExecutor::generate_variants_from_value(&value, &mut after);
        assert_eq!(after[0], array(vec![text("first")]));
        assert_eq!(after[1..], fresh[..]);
    }
    let mut alone = Vec::new();
    QueryExecutor::generate_variants_from_value(&integer(1), &mut alone);
    let mut wrapped = Vec::new();
    let one = Value::Array(array(vec![integer(1)]));
    QueryExecutor::generate_variants_from_value(&one, &mut wrapped);
    assert_eq!(alone, wrapped);
}

#[test]
fn choices_start_with_their_prefix() {
    let cols = vec![vec![text("unused")], vec![text("a"), text("b")], vec![text("c")]];
    let mut keys = Vec::new();
    QueryExecutor::generate_variant(1, vec![text("p")], &cols, &mut keys);
    assert_eq!(
        keys,
        vec![
            array(vec![text("p"), text("a"), text("c")]),
            array(vec![text("p"), text("b"), text("c")]),
        ]
    );
    let mut keys = Vec::new();
    QueryExecutor::generate_variant(3, vec![text("p")], &cols, &mut keys);
    assert_eq!(keys, vec![array(vec![text("p")])]);
}

#[test]
fn column_without_values_leaves_no_key() {
    let cols = vec![vec![text("a")], Vec::new()];
    let mut keys = Vec::new();
    QueryExecutor::generate_variant(0, Vec::new(), &cols, &mut keys);
    assert_eq!(keys, Vec::new());
}

#[test]
fn value_itself_is_looked_up_and_no_key_twice() {
    let half = Value::Array(array(vec![float(0.5), integer(3), text("x")]));
    let keys = QueryExecutor::get_equal_variants_from_value(&half);
    let own = array(vec![float(0.5), integer(3), text("x")]);
    assert!(keys.contains(&own));
    for (i, key) in keys.iter().enumerate() {
        assert!(!keys[i + 1..].contains(key));
    }
    assert_eq!(keys.len(), 6);
}
