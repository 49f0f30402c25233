//! The keys that are looked up for a value: one for each choice of a form of its numbers.
use crate::executor::QueryExecutor;
use crate::value::{Array, Number, Value};
use crate::variants::{
    agree, are_variants, form_values, is_determined, law_forms_are_determined,
    law_forms_are_distinct, law_number_is_among_its_forms, law_values_are_the_forms,
    NumberVariants, Rounding,
};
use vstd::prelude::*;
use vstd::seq_lib::lemma_flatten_concat;

verus! {

/// The choices of one value from each column from `col` on, after a prefix: the choice of an
/// earlier column varies more slowly.
pub open spec fn choices(prefix: Seq<Value>, cols: Seq<Seq<Value>>, col: int) -> Seq<Seq<Value>>
    decreases cols.len() - col, 1nat, 0nat,
{
    if col < 0 || col >= cols.len() {
        seq![prefix]
    } else {
        choices_of(prefix, cols, col, cols[col].len())
    }
}

/// The choices that start with one of the first `n` values of column `col`.
pub open spec fn choices_of(
    prefix: Seq<Value>,
    cols: Seq<Seq<Value>>,
    col: int,
    n: nat,
) -> Seq<Seq<Value>>
    decreases cols.len() - col, 0nat, n,
    when 0 <= col < cols.len()
{
    if n == 0 {
        Seq::empty()
    } else {
        choices_of(prefix, cols, col, (n - 1) as nat) + choices(
            prefix.push(cols[col][n - 1]),
            cols,
            col + 1,
        )
    }
}

/// The values of arrays.
pub open spec fn keys_of(arrays: Seq<Array>) -> Seq<Seq<Value>> {
    arrays.map_values(|a: Array| a.items())
}

pub open spec fn columns_of(cols: Seq<Vec<Value>>) -> Seq<Seq<Value>> {
    cols.map_values(|c: Vec<Value>| c@)
}

/// `col` holds the values that are looked up for a value: the forms of a number, or the value.
pub open spec fn is_column(value: Value, col: Seq<Value>) -> bool {
    match value {
        Value::Number(n) => exists|v: NumberVariants|
            #[trigger] are_variants(n, Rounding::Exact, v) && col == form_values(v),
        _ => col == seq![value],
    }
}

pub open spec fn are_columns(array: Seq<Value>, cols: Seq<Seq<Value>>) -> bool {
    &&& cols.len() == array.len()
    &&& forall|i: int| 0 <= i < cols.len() ==> is_column(array[i], #[trigger] cols[i])
}

/// `keys` are the keys that are looked up for an array.
pub open spec fn are_array_keys(array: Seq<Value>, keys: Seq<Seq<Value>>) -> bool {
    exists|cols: Seq<Seq<Value>>|
        #[trigger] are_columns(array, cols) && keys == choices(Seq::empty(), cols, 0)
}

/// A value as the values of the columns of an index.
pub open spec fn as_columns(value: Value) -> Seq<Value> {
    match value {
        Value::Array(a) => a.items(),
        _ => seq![value],
    }
}

/// `keys` are the keys that are looked up for a value.
pub open spec fn are_keys(value: Value, keys: Seq<Seq<Value>>) -> bool {
    are_array_keys(as_columns(value), keys)
}

/// The keys that are looked up for a value follow on what was there before.
pub open spec fn appends_keys(
    value: Value,
    before: Seq<Seq<Value>>,
    after: Seq<Seq<Value>>,
) -> bool {
    exists|keys: Seq<Seq<Value>>| #[trigger] are_keys(value, keys) && after == before + keys
}

/// `keys` are the keys that are looked up for one value after the other.
pub open spec fn are_keys_of_all(values: Seq<Value>, keys: Seq<Seq<Value>>) -> bool {
    exists|parts: Seq<Seq<Seq<Value>>>|
        #[trigger] are_parts(values, parts) && keys == parts.flatten()
}

pub open spec fn are_parts(values: Seq<Value>, parts: Seq<Seq<Seq<Value>>>) -> bool {
    &&& parts.len() == values.len()
    &&& forall|i: int| 0 <= i < parts.len() ==> are_keys(values[i], #[trigger] parts[i])
}

impl QueryExecutor {
    /// The keys that are looked up for a value.
    pub fn get_equal_variants_from_value(value: &Value) -> (r: Vec<Array>)
        ensures
            are_keys(*value, keys_of(r@)),
    {
        let mut variants: Vec<Array> = Vec::with_capacity(1);
        Self::generate_variants_from_value(value, &mut variants);
        proof {
            let keys = choose|keys: Seq<Seq<Value>>|
                #[trigger] are_keys(*value, keys) && keys_of(variants@) == keys_of(Seq::empty())
                    + keys;
            assert(keys_of(variants@) =~= keys);
        }
        variants
    }

    /// The keys that are looked up for the values of an array; none for another value.
    pub fn get_equal_variants_from_values(values: &Value) -> (r: Vec<Array>)
        ensures
            match *values {
                Value::Array(a) => are_keys_of_all(a.items(), keys_of(r@)),
                _ => r@.len() == 0,
            },
    {
        if let Value::Array(a) = values {
            let items: &Vec<Value> = &a.0;
            let mut variants: Vec<Array> = Vec::with_capacity(items.len());
            let ghost mut parts: Seq<Seq<Seq<Value>>> = Seq::empty();
            assert(keys_of(variants@) =~= parts.flatten());
            let mut i: usize = 0;
            while i < items.len()
                invariant
                    items@ == a.items(),
                    i <= items.len(),
                    are_parts(items@.take(i as int), parts),
                    keys_of(variants@) == parts.flatten(),
                decreases items.len() - i,
            {
                let ghost before = keys_of(variants@);
                Self::generate_variants_from_value(&items[i], &mut variants);
                proof {
                    let keys = choose|keys: Seq<Seq<Value>>|
                        #[trigger] are_keys(items@[i as int], keys) && keys_of(variants@) == before
                            + keys;
                    parts.lemma_flatten_push(keys);
                    parts = parts.push(keys);
                    assert(items@.take(i + 1) =~= items@.take(i as int).push(items@[i as int]));
                }
                i = i + 1;
            }
            assert(items@.take(i as int) =~= items@);
            variants
        } else {
            Vec::new()
        }
    }

    /// Appends the keys that are looked up for a value.
    pub fn generate_variants_from_value(value: &Value, variants: &mut Vec<Array>)
        ensures
            old(variants)@.is_prefix_of(final(variants)@),
            appends_keys(*value, keys_of(old(variants)@), keys_of(final(variants)@)),
    {
        if let Value::Array(a) = value {
            Self::generate_variants_from_array(a, variants);
        } else {
            let mut items: Vec<Value> = Vec::new();
            items.push(value.clone());
            let a: Array = Array::from(items);
            assert(a.items() =~= seq![*value]);
            Self::generate_variants_from_array(&a, variants)
        }
        proof {
            let keys = choose|keys: Seq<Seq<Value>>| #[trigger]
                are_array_keys(as_columns(*value), keys) && keys_of(variants@) == keys_of(
                    old(variants)@,
                ) + keys;
            assert(are_keys(*value, keys));
        }
    }

    /// Appends the keys that are looked up for an array.
    pub fn generate_variants_from_array(array: &Array, variants: &mut Vec<Array>)
        ensures
            old(variants)@.is_prefix_of(final(variants)@),
            exists|keys: Seq<Seq<Value>>| #[trigger]
                are_array_keys(array.items(), keys) && keys_of(final(variants)@) == keys_of(
                    old(variants)@,
                ) + keys,
    {
        let items: &Vec<Value> = &array.0;
        let mut cols_values: Vec<Vec<Value>> = Vec::with_capacity(items.len());
        let mut i: usize = 0;
        while i < items.len()
            invariant
                i <= items.len(),
                are_columns(items@.take(i as int), columns_of(cols_values@)),
            decreases items.len() - i,
        {
            let value: &Value = &items[i];
            let value_variants: Vec<Value> = if let Value::Number(n) = value {
                Self::get_equal_number_variants(n)
            } else {
                let mut only: Vec<Value> = Vec::new();
                only.push(value.clone());
                assert(only@ =~= seq![*value]);
                only
            };
            proof {
                assert(is_column(*value, value_variants@));
                assert(items@.take(i + 1) =~= items@.take(i as int).push(*value));
                assert(columns_of(cols_values@.push(value_variants)) =~= columns_of(
                    cols_values@,
                ).push(value_variants@));
            }
            cols_values.push(value_variants);
            i = i + 1;
        }
        proof {
            assert(items@.take(i as int) =~= items@);
            assert(are_array_keys(
                array.items(),
                choices(Seq::empty(), columns_of(cols_values@), 0),
            ));
        }
        Self::generate_variant(0, Vec::new(), &cols_values, variants);
    }

    /// Appends the choices of one value from each column from `col` on, after a prefix.
    pub fn generate_variant(
        col: usize,
        variant: Vec<Value>,
        cols_values: &Vec<Vec<Value>>,
        variants: &mut Vec<Array>,
    )
        ensures
            old(variants)@.is_prefix_of(final(variants)@),
            keys_of(final(variants)@) == keys_of(old(variants)@) + choices(
                variant@,
                columns_of(cols_values@),
                col as int,
            ),
        decreases cols_values@.len() - col,
    {
        if col < cols_values.len() {
            let values: &Vec<Value> = &cols_values[col];
            let ghost cols = columns_of(cols_values@);
            assert(cols[col as int] == values@);
            let mut i: usize = 0;
            while i < values.len()
                invariant
                    i <= values.len(),
                    col < cols_values.len(),
                    cols == columns_of(cols_values@),
                    cols[col as int] == values@,
                    old(variants)@.is_prefix_of(variants@),
                    keys_of(variants@) == keys_of(old(variants)@) + choices_of(
                        variant@,
                        cols,
                        col as int,
                        i as nat,
                    ),
                decreases values.len() - i,
            {
                let mut current_variant: Vec<Value> = variant.clone();
                assert(current_variant@ =~= variant@);
                current_variant.push(values[i].clone());
                Self::generate_variant(col + 1, current_variant, cols_values, variants);
                i = i + 1;
            }
        } else {
            let array: Array = Array::from(variant);
            variants.push(array);
            assert(keys_of(variants@) =~= keys_of(old(variants)@) + seq![array.items()]);
        }
    }
}

/// A key takes its values from the columns from `col` on, after a prefix.
pub open spec fn is_choice(
    key: Seq<Value>,
    prefix: Seq<Value>,
    cols: Seq<Seq<Value>>,
    col: int,
) -> bool {
    &&& key.len() == prefix.len() + cols.len() - col
    &&& key.take(prefix.len() as int) == prefix
    &&& forall|i: int|
        col <= i < cols.len() ==> (#[trigger] cols[i]).contains(key[prefix.len() + i - col])
}

/// A choice after a prefix is a choice of a first value and a choice after that.
proof fn lemma_choice_step(key: Seq<Value>, prefix: Seq<Value>, cols: Seq<Seq<Value>>, col: int)
    requires
        0 <= col < cols.len(),
    ensures
        is_choice(key, prefix, cols, col) ==> cols[col].contains(key[prefix.len() as int])
            && is_choice(key, prefix.push(key[prefix.len() as int]), cols, col + 1),
        forall|v: Value| #[trigger]
            is_choice(key, prefix.push(v), cols, col + 1) && cols[col].contains(v) ==> is_choice(
                key,
                prefix,
                cols,
                col,
            ) && v == key[prefix.len() as int],
{
    let n = prefix.len() as int;
    if is_choice(key, prefix, cols, col) {
        let longer = prefix.push(key[n]);
        assert(key.take(n + 1) =~= longer);
        assert forall|i: int| col + 1 <= i < cols.len() implies (#[trigger] cols[i]).contains(
            key[longer.len() + i - (col + 1)],
        ) by {
            assert(longer.len() + i - (col + 1) == n + i - col);
        }
    }
    assert forall|v: Value| #[trigger]
        is_choice(key, prefix.push(v), cols, col + 1) && cols[col].contains(v) implies is_choice(
        key,
        prefix,
        cols,
        col,
    ) && v == key[n] by {
        let longer = prefix.push(v);
        assert(key.take(n + 1) == longer);
        assert(key.take(n + 1)[n] == v);
        assert(key.take(n) =~= prefix) by {
            assert(key.take(n) =~= key.take(n + 1).take(n));
            assert(longer.take(n) =~= prefix);
        }
        assert forall|i: int| col <= i < cols.len() implies (#[trigger] cols[i]).contains(
            key[n + i - col],
        ) by {
            if i > col {
                assert(longer.len() + i - (col + 1) == n + i - col);
            }
        }
    }
}

/// The enumeration of the choices holds exactly the choices.
proof fn lemma_choices_complete(
    key: Seq<Value>,
    prefix: Seq<Value>,
    cols: Seq<Seq<Value>>,
    col: int,
)
    requires
        0 <= col <= cols.len(),
    ensures
        choices(prefix, cols, col).contains(key) <==> is_choice(key, prefix, cols, col),
    decreases cols.len() - col, 1nat, 0nat,
{
    if col == cols.len() {
        if is_choice(key, prefix, cols, col) {
            assert(key =~= prefix);
            assert(choices(prefix, cols, col)[0] == key);
        }
        if choices(prefix, cols, col).contains(key) {
            assert(key == prefix);
            assert(key.take(prefix.len() as int) =~= prefix);
        }
    } else {
        lemma_choices_of_complete(key, prefix, cols, col, cols[col].len());
        lemma_choice_step(key, prefix, cols, col);
        if is_choice(key, prefix, cols, col) {
            let v = key[prefix.len() as int];
            let j = choose|j: int| 0 <= j < cols[col].len() && cols[col][j] == v;
            assert(is_choice(key, prefix.push(cols[col][j]), cols, col + 1));
        }
    }
}

proof fn lemma_choices_of_complete(
    key: Seq<Value>,
    prefix: Seq<Value>,
    cols: Seq<Seq<Value>>,
    col: int,
    n: nat,
)
    requires
        0 <= col < cols.len(),
        n <= cols[col].len(),
    ensures
        choices_of(prefix, cols, col, n).contains(key) <==> exists|j: int|
            0 <= j < n && is_choice(key, prefix.push(#[trigger] cols[col][j]), cols, col + 1),
    decreases cols.len() - col, 0nat, n,
{
    if n > 0 {
        let before = choices_of(prefix, cols, col, (n - 1) as nat);
        let last = choices(prefix.push(cols[col][n - 1]), cols, col + 1);
        lemma_choices_of_complete(key, prefix, cols, col, (n - 1) as nat);
        lemma_choices_complete(key, prefix.push(cols[col][n - 1]), cols, col + 1);
        lemma_contains_concat(before, last, key);
    }
}

proof fn lemma_contains_concat(a: Seq<Seq<Value>>, b: Seq<Seq<Value>>, key: Seq<Value>)
    ensures
        (a + b).contains(key) <==> a.contains(key) || b.contains(key),
{
    if a.contains(key) {
        let i = choose|i: int| 0 <= i < a.len() && a[i] == key;
        assert((a + b)[i] == key);
    }
    if b.contains(key) {
        let i = choose|i: int| 0 <= i < b.len() && b[i] == key;
        assert((a + b)[a.len() + i] == key);
    }
    if (a + b).contains(key) {
        let i = choose|i: int| 0 <= i < (a + b).len() && (a + b)[i] == key;
        if i < a.len() {
            assert(a[i] == key);
        } else {
            assert(b[i - a.len()] == key);
        }
    }
}

/// The number of choices.
pub open spec fn count(cols: Seq<Seq<Value>>, col: int) -> nat
    decreases cols.len() - col,
{
    if col < 0 || col >= cols.len() {
        1
    } else {
        cols[col].len() * count(cols, col + 1)
    }
}

proof fn lemma_choices_count(prefix: Seq<Value>, cols: Seq<Seq<Value>>, col: int)
    requires
        0 <= col <= cols.len(),
    ensures
        choices(prefix, cols, col).len() == count(cols, col),
    decreases cols.len() - col, 1nat, 0nat,
{
    if col < cols.len() {
        lemma_choices_of_count(prefix, cols, col, cols[col].len());
    }
}

proof fn lemma_choices_of_count(prefix: Seq<Value>, cols: Seq<Seq<Value>>, col: int, n: nat)
    requires
        0 <= col < cols.len(),
    ensures
        choices_of(prefix, cols, col, n).len() == n * count(cols, col + 1),
    decreases cols.len() - col, 0nat, n,
{
    let c = count(cols, col + 1);
    if n == 0 {
        assert(n * c == 0) by (nonlinear_arith)
            requires
                n == 0,
        ;
    } else {
        lemma_choices_of_count(prefix, cols, col, (n - 1) as nat);
        lemma_choices_count(prefix.push(cols[col][n - 1]), cols, col + 1);
        assert((n - 1) * c + c == n * c) by (nonlinear_arith);
    }
}

/// Where no column holds a value twice, no key is enumerated twice.
proof fn lemma_choices_distinct(prefix: Seq<Value>, cols: Seq<Seq<Value>>, col: int)
    requires
        0 <= col <= cols.len(),
        forall|i: int| 0 <= i < cols.len() ==> (#[trigger] cols[i]).no_duplicates(),
    ensures
        choices(prefix, cols, col).no_duplicates(),
    decreases cols.len() - col, 1nat, 0nat,
{
    if col < cols.len() {
        lemma_choices_of_distinct(prefix, cols, col, cols[col].len());
    }
}

proof fn lemma_choices_of_distinct(prefix: Seq<Value>, cols: Seq<Seq<Value>>, col: int, n: nat)
    requires
        0 <= col < cols.len(),
        n <= cols[col].len(),
        forall|i: int| 0 <= i < cols.len() ==> (#[trigger] cols[i]).no_duplicates(),
    ensures
        choices_of(prefix, cols, col, n).no_duplicates(),
    decreases cols.len() - col, 0nat, n,
{
    if n > 0 {
        let before = choices_of(prefix, cols, col, (n - 1) as nat);
        let v = cols[col][n - 1];
        let last = choices(prefix.push(v), cols, col + 1);
        lemma_choices_of_distinct(prefix, cols, col, (n - 1) as nat);
        lemma_choices_distinct(prefix.push(v), cols, col + 1);
        assert forall|i: int, j: int|
            0 <= i < before.len() && 0 <= j < last.len() implies before[i] != last[j] by {
            let key = before[i];
            if key == last[j] {
                assert(before.contains(key));
                assert(last.contains(key));
                lemma_choices_of_complete(key, prefix, cols, col, (n - 1) as nat);
                lemma_choices_complete(key, prefix.push(v), cols, col + 1);
                let k = choose|k: int|
                    0 <= k < n - 1 && is_choice(
                        key,
                        prefix.push(#[trigger] cols[col][k]),
                        cols,
                        col + 1,
                    );
                lemma_choice_step(key, prefix, cols, col);
                assert(cols[col].contains(cols[col][k]));
                assert(cols[col].contains(v));
                assert(cols[col].no_duplicates());
                assert(cols[col][k] == v);
            }
        }
        assert(choices_of(prefix, cols, col, n) == before + last);
    }
}

/// A value is among those that are looked up for it, none of which occurs twice.
proof fn lemma_column(value: Value, col: Seq<Value>)
    requires
        is_column(value, col),
    ensures
        col.contains(value),
        col.no_duplicates(),
        1 <= col.len() <= 3,
        !(value is Number) ==> col.len() == 1,
{
    match value {
        Value::Number(n) => {
            let v = choose|v: NumberVariants| #[trigger]
                are_variants(n, Rounding::Exact, v) && col == form_values(v);
            law_number_is_among_its_forms(n, Rounding::Exact, v);
            law_forms_are_distinct(v);
        },
        _ => {
            assert(col[0] == value);
        },
    }
}

/// The keys that are looked up for an array are those with, in each column, one of the values
/// that are looked up for its value there.
pub proof fn law_keys_are_the_choices(array: Seq<Value>, cols: Seq<Seq<Value>>, key: Seq<Value>)
    requires
        are_columns(array, cols),
    ensures
        choices(Seq::empty(), cols, 0).contains(key) <==> {
            &&& key.len() == array.len()
            &&& forall|i: int| 0 <= i < array.len() ==> (#[trigger] cols[i]).contains(key[i])
        },
        choices(Seq::empty(), cols, 0).len() == count(cols, 0),
{
    lemma_choices_complete(key, Seq::empty(), cols, 0);
    lemma_choices_count(Seq::empty(), cols, 0);
    assert(key.take(0) =~= Seq::<Value>::empty());
    assert(forall|i: int| #[trigger] cols[i] == cols[i] ==> key[0 + i - 0] == key[i]);
}

/// The array itself is among the keys that are looked up for it.
pub proof fn law_array_is_looked_up(array: Seq<Value>, keys: Seq<Seq<Value>>)
    requires
        are_array_keys(array, keys),
    ensures
        keys.contains(array),
{
    let cols = choose|cols: Seq<Seq<Value>>| #[trigger]
        are_columns(array, cols) && keys == choices(Seq::empty(), cols, 0);
    assert forall|i: int| 0 <= i < array.len() implies (#[trigger] cols[i]).contains(array[i]) by {
        lemma_column(array[i], cols[i]);
    }
    law_keys_are_the_choices(array, cols, array);
}

/// Each of several values is among the keys that are looked up for all of them.
pub proof fn law_each_value_is_looked_up(values: Seq<Value>, keys: Seq<Seq<Value>>, i: int)
    requires
        are_keys_of_all(values, keys),
        0 <= i < values.len(),
    ensures
        keys.contains(as_columns(values[i])),
{
    let parts = choose|parts: Seq<Seq<Seq<Value>>>| #[trigger]
        are_parts(values, parts) && keys == parts.flatten();
    assert(are_keys(values[i], parts[i]));
    law_array_is_looked_up(as_columns(values[i]), parts[i]);
    lemma_flatten_contains(parts, i, as_columns(values[i]));
}

/// What one part contains, all parts together contain.
proof fn lemma_flatten_contains(parts: Seq<Seq<Seq<Value>>>, i: int, key: Seq<Value>)
    requires
        0 <= i < parts.len(),
        parts[i].contains(key),
    ensures
        parts.flatten().contains(key),
    decreases i,
{
    let rest = parts.drop_first();
    lemma_contains_concat(parts.first(), rest.flatten(), key);
    if i > 0 {
        assert(rest[i - 1] == parts[i]);
        lemma_flatten_contains(rest, i - 1, key);
    }
}

/// No key is looked up twice for one array.
pub proof fn law_no_key_twice(array: Seq<Value>, keys: Seq<Seq<Value>>)
    requires
        are_array_keys(array, keys),
    ensures
        keys.no_duplicates(),
{
    let cols = choose|cols: Seq<Seq<Value>>| #[trigger]
        are_columns(array, cols) && keys == choices(Seq::empty(), cols, 0);
    assert forall|i: int| 0 <= i < cols.len() implies (#[trigger] cols[i]).no_duplicates() by {
        lemma_column(array[i], cols[i]);
    }
    lemma_choices_distinct(Seq::empty(), cols, 0);
}

/// For a value that is not an array the same is appended as for the array of this one value.
pub proof fn law_value_is_looked_up_as_one_column(
    value: Value,
    array: Array,
    before: Seq<Seq<Value>>,
    after: Seq<Seq<Value>>,
)
    requires
        !(value is Array),
        array.items() == seq![value],
    ensures
        appends_keys(value, before, after) <==> appends_keys(Value::Array(array), before, after),
{
    if appends_keys(value, before, after) {
        let keys = choose|keys: Seq<Seq<Value>>| #[trigger]
            are_keys(value, keys) && after == before + keys;
        assert(are_keys(Value::Array(array), keys));
    }
    if appends_keys(Value::Array(array), before, after) {
        let keys = choose|keys: Seq<Seq<Value>>| #[trigger]
            are_keys(Value::Array(array), keys) && after == before + keys;
        assert(are_keys(value, keys));
    }
}

/// Two values that may be looked up in one place for a value.
pub open spec fn values_agree(value: Value, x: Value, y: Value) -> bool {
    match value {
        Value::Number(n) => agree(n, x, y),
        _ => x == y,
    }
}

/// Two keys that may be looked up in one place for an array: they differ at most in the doubles
/// that stand for decimals with fractional digits.
pub open spec fn keys_agree(array: Seq<Value>, k: Seq<Value>, l: Seq<Value>) -> bool {
    &&& k.len() == array.len()
    &&& l.len() == array.len()
    &&& forall|c: int| #![trigger k[c]]
        0 <= c < array.len() ==> values_agree(array[c], k[c], l[c])
}

/// Lists of keys that agree one by one.
pub open spec fn all_agree(array: Seq<Value>, ks: Seq<Seq<Value>>, ls: Seq<Seq<Value>>) -> bool {
    &&& ks.len() == ls.len()
    &&& forall|i: int| 0 <= i < ks.len() ==> keys_agree(array, #[trigger] ks[i], ls[i])
}

/// A value other than a decimal with fractional digits.
pub open spec fn is_determined_value(value: Value) -> bool {
    match value {
        Value::Number(n) => is_determined(n),
        _ => true,
    }
}

/// Neither a decimal with fractional digits, nor an array that holds one.
pub open spec fn has_determined_columns(value: Value) -> bool {
    forall|i: int|
        0 <= i < as_columns(value).len() ==> is_determined_value(#[trigger] as_columns(value)[i])
}

/// Two columns for one value agree.
spec fn columns_agree(value: Value, a: Seq<Value>, b: Seq<Value>) -> bool {
    &&& a.len() == b.len()
    &&& forall|j: int| 0 <= j < a.len() ==> values_agree(value, #[trigger] a[j], b[j])
}

proof fn lemma_columns_agree(value: Value, a: Seq<Value>, b: Seq<Value>)
    requires
        is_column(value, a),
        is_column(value, b),
    ensures
        columns_agree(value, a, b),
{
    if let Value::Number(n) = value {
        let v = choose|v: NumberVariants| #[trigger]
            are_variants(n, Rounding::Exact, v) && a == form_values(v);
        let w = choose|w: NumberVariants| #[trigger]
            are_variants(n, Rounding::Exact, w) && b == form_values(w);
        law_forms_are_determined(n, Rounding::Exact, v, w);
    }
}

/// The choices from columns that agree, after prefixes that agree, agree.
proof fn lemma_choices_agree(
    array: Seq<Value>,
    p: Seq<Value>,
    q: Seq<Value>,
    a: Seq<Seq<Value>>,
    b: Seq<Seq<Value>>,
)
    requires
        a.len() == array.len(),
        b.len() == array.len(),
        forall|c: int| 0 <= c < array.len() ==> columns_agree(array[c], #[trigger] a[c], b[c]),
        p.len() <= array.len(),
        keys_agree(array.take(p.len() as int), p, q),
    ensures
        all_agree(array, choices(p, a, p.len() as int), choices(q, b, p.len() as int)),
    decreases a.len() - p.len(), 1nat, 0nat,
{
    let col = p.len() as int;
    if col < a.len() {
        assert(columns_agree(array[col], a[col], b[col]));
        lemma_choices_of_agree(array, p, q, a, b, a[col].len());
    } else {
        assert(array.take(col) =~= array);
    }
}

proof fn lemma_choices_of_agree(
    array: Seq<Value>,
    p: Seq<Value>,
    q: Seq<Value>,
    a: Seq<Seq<Value>>,
    b: Seq<Seq<Value>>,
    n: nat,
)
    requires
        a.len() == array.len(),
        b.len() == array.len(),
        forall|c: int| 0 <= c < array.len() ==> columns_agree(array[c], #[trigger] a[c], b[c]),
        p.len() < array.len(),
        keys_agree(array.take(p.len() as int), p, q),
        n <= a[p.len() as int].len(),
    ensures
        all_agree(
            array,
            choices_of(p, a, p.len() as int, n),
            choices_of(q, b, p.len() as int, n),
        ),
    decreases a.len() - p.len(), 0nat, n,
{
    if n > 0 {
        let col = p.len() as int;
        let x = a[col][n - 1];
        let y = b[col][n - 1];
        assert(columns_agree(array[col], a[col], b[col]));
        assert(values_agree(array[col], x, y));
        assert forall|c: int| #![trigger p.push(x)[c]]
            0 <= c < col + 1 implies values_agree(
            array.take(col + 1)[c],
            p.push(x)[c],
            q.push(y)[c],
        ) by {
            if c < col {
                assert(p.push(x)[c] == p[c] && q.push(y)[c] == q[c]);
                assert(array.take(col)[c] == array[c]);
            }
        }
        lemma_choices_of_agree(array, p, q, a, b, (n - 1) as nat);
        lemma_choices_agree(array, p.push(x), q.push(y), a, b);
    }
}

/// Keys that agree are the same where nothing is left open.
proof fn lemma_determined_keys(array: Seq<Value>, ks: Seq<Seq<Value>>, ls: Seq<Seq<Value>>)
    requires
        all_agree(array, ks, ls),
        forall|c: int| 0 <= c < array.len() ==> is_determined_value(#[trigger] array[c]),
    ensures
        ks == ls,
{
    assert forall|i: int| 0 <= i < ks.len() implies ks[i] == ls[i] by {
        assert(keys_agree(array, ks[i], ls[i]));
        assert forall|c: int| 0 <= c < array.len() implies ks[i][c] == ls[i][c] by {
            assert(is_determined_value(array[c]));
            assert(values_agree(array[c], ks[i][c], ls[i][c]));
        }
        assert(ks[i] =~= ls[i]);
    }
    assert(ks =~= ls);
}

/// The keys that are looked up for an array are always the same, up to the doubles that stand for
/// decimals with fractional digits.
pub proof fn law_keys_are_determined(
    array: Seq<Value>,
    keys: Seq<Seq<Value>>,
    again: Seq<Seq<Value>>,
)
    requires
        are_array_keys(array, keys),
        are_array_keys(array, again),
    ensures
        all_agree(array, keys, again),
        (forall|i: int| 0 <= i < array.len() ==> is_determined_value(#[trigger] array[i])) ==> keys
            == again,
{
    let a = choose|cols: Seq<Seq<Value>>| #[trigger]
        are_columns(array, cols) && keys == choices(Seq::empty(), cols, 0);
    let b = choose|cols: Seq<Seq<Value>>| #[trigger]
        are_columns(array, cols) && again == choices(Seq::empty(), cols, 0);
    assert forall|c: int| 0 <= c < array.len() implies columns_agree(
        array[c],
        #[trigger] a[c],
        b[c],
    ) by {
        assert(is_column(array[c], a[c]) && is_column(array[c], b[c]));
        lemma_columns_agree(array[c], a[c], b[c]);
    }
    lemma_choices_agree(array, Seq::empty(), Seq::empty(), a, b);
    if forall|i: int| 0 <= i < array.len() ==> is_determined_value(#[trigger] array[i]) {
        lemma_determined_keys(array, keys, again);
    }
}

/// What is appended for a value does not depend on what was there before: it is always the same,
/// up to the doubles that stand for decimals with fractional digits.
pub proof fn law_appended_keys_are_the_same(
    value: Value,
    before: Seq<Seq<Value>>,
    after: Seq<Seq<Value>>,
    other_before: Seq<Seq<Value>>,
    other_after: Seq<Seq<Value>>,
)
    requires
        appends_keys(value, before, after),
        appends_keys(value, other_before, other_after),
    ensures
        before.is_prefix_of(after),
        all_agree(
            as_columns(value),
            after.skip(before.len() as int),
            other_after.skip(other_before.len() as int),
        ),
        has_determined_columns(value) ==> after.skip(before.len() as int) == other_after.skip(
            other_before.len() as int,
        ),
{
    let keys = choose|keys: Seq<Seq<Value>>| #[trigger]
        are_keys(value, keys) && after == before + keys;
    let other = choose|keys: Seq<Seq<Value>>| #[trigger]
        are_keys(value, keys) && other_after == other_before + keys;
    assert(after.skip(before.len() as int) =~= keys);
    assert(other_after.skip(other_before.len() as int) =~= other);
    law_keys_are_determined(as_columns(value), keys, other);
}

/// The keys that are looked up for two arrays of values, one after the other, are those for the
/// first followed by those for the second.
pub proof fn law_keys_of_all_concatenate(a: Seq<Value>, b: Seq<Value>, keys: Seq<Seq<Value>>)
    ensures
        are_keys_of_all(a + b, keys) <==> exists|k: Seq<Seq<Value>>, l: Seq<Seq<Value>>|
            #[trigger] are_keys_of_all(a, k) && #[trigger] are_keys_of_all(b, l) && keys == k + l,
{
    let n = a.len() as int;
    if are_keys_of_all(a + b, keys) {
        let parts = choose|parts: Seq<Seq<Seq<Value>>>| #[trigger]
            are_parts(a + b, parts) && keys == parts.flatten();
        let x = parts.take(n);
        let y = parts.skip(n);
        assert forall|i: int| 0 <= i < x.len() implies are_keys(a[i], #[trigger] x[i]) by {
            assert(are_keys((a + b)[i], parts[i]));
        }
        assert forall|i: int| 0 <= i < y.len() implies are_keys(b[i], #[trigger] y[i]) by {
            assert(are_keys((a + b)[n + i], parts[n + i]));
        }
        assert(are_parts(a, x) && are_parts(b, y));
        assert(x + y =~= parts);
        lemma_flatten_concat(x, y);
        assert(are_keys_of_all(a, x.flatten()) && are_keys_of_all(b, y.flatten()));
    }
    if exists|k: Seq<Seq<Value>>, l: Seq<Seq<Value>>|
        #[trigger] are_keys_of_all(a, k) && #[trigger] are_keys_of_all(b, l) && keys == k + l {
        let (k, l) = choose|k: Seq<Seq<Value>>, l: Seq<Seq<Value>>|
            #[trigger] are_keys_of_all(a, k) && #[trigger] are_keys_of_all(b, l) && keys == k + l;
        let x = choose|parts: Seq<Seq<Seq<Value>>>| #[trigger]
            are_parts(a, parts) && k == parts.flatten();
        let y = choose|parts: Seq<Seq<Seq<Value>>>| #[trigger]
            are_parts(b, parts) && l == parts.flatten();
        let parts = x + y;
        assert forall|i: int| 0 <= i < parts.len() implies are_keys(
            (a + b)[i],
            #[trigger] parts[i],
        ) by {
            if i < n {
                assert(are_keys(a[i], x[i]));
            } else {
                assert(are_keys(b[i - n], y[i - n]));
            }
        }
        assert(are_parts(a + b, parts));
        lemma_flatten_concat(x, y);
    }
}

/// One value is looked up in an array of this one value as by itself.
pub proof fn law_keys_of_one_value(value: Value, keys: Seq<Seq<Value>>)
    ensures
        are_keys_of_all(seq![value], keys) <==> are_keys(value, keys),
{
    if are_keys_of_all(seq![value], keys) {
        let parts = choose|parts: Seq<Seq<Seq<Value>>>| #[trigger]
            are_parts(seq![value], parts) && keys == parts.flatten();
        parts.lemma_flatten_one_element();
        assert(are_keys(seq![value][0], parts[0]));
    }
    if are_keys(value, keys) {
        let parts = seq![keys];
        parts.lemma_flatten_one_element();
        assert(are_parts(seq![value], parts));
    }
}

/// Lists of keys for one value after the other that agree.
pub open spec fn parts_agree(
    values: Seq<Value>,
    x: Seq<Seq<Seq<Value>>>,
    y: Seq<Seq<Seq<Value>>>,
) -> bool {
    &&& are_parts(values, x)
    &&& are_parts(values, y)
    &&& forall|i: int|
        0 <= i < values.len() ==> all_agree(as_columns(values[i]), #[trigger] x[i], y[i])
}

/// The keys that are looked up for several values are always the same, up to the doubles that
/// stand for decimals with fractional digits.
pub proof fn law_keys_of_all_are_determined(
    values: Seq<Value>,
    keys: Seq<Seq<Value>>,
    again: Seq<Seq<Value>>,
)
    requires
        are_keys_of_all(values, keys),
        are_keys_of_all(values, again),
    ensures
        exists|x: Seq<Seq<Seq<Value>>>, y: Seq<Seq<Seq<Value>>>| #[trigger]
            parts_agree(values, x, y) && keys == x.flatten() && again == y.flatten(),
        (forall|i: int| 0 <= i < values.len() ==> has_determined_columns(#[trigger] values[i]))
            ==> keys == again,
{
    let x = choose|parts: Seq<Seq<Seq<Value>>>| #[trigger]
        are_parts(values, parts) && keys == parts.flatten();
    let y = choose|parts: Seq<Seq<Seq<Value>>>| #[trigger]
        are_parts(values, parts) && again == parts.flatten();
    assert forall|i: int| 0 <= i < values.len() implies all_agree(
        as_columns(values[i]),
        #[trigger] x[i],
        y[i],
    ) && (has_determined_columns(values[i]) ==> x[i] == y[i]) by {
        assert(are_keys(values[i], x[i]) && are_keys(values[i], y[i]));
        law_keys_are_determined(as_columns(values[i]), x[i], y[i]);
    }
    assert(parts_agree(values, x, y));
    if forall|i: int| 0 <= i < values.len() ==> has_determined_columns(#[trigger] values[i]) {
        assert forall|i: int| 0 <= i < x.len() implies x[i] == y[i] by {
            assert(has_determined_columns(values[i]));
        }
        assert(x =~= y);
    }
}

/// An array without numbers is looked up by one key: itself.
pub proof fn law_one_key_without_numbers(array: Seq<Value>, keys: Seq<Seq<Value>>)
    requires
        are_array_keys(array, keys),
        forall|i: int| 0 <= i < array.len() ==> !(#[trigger] array[i] is Number),
    ensures
        keys == seq![array],
{
    let cols = choose|cols: Seq<Seq<Value>>| #[trigger]
        are_columns(array, cols) && keys == choices(Seq::empty(), cols, 0);
    lemma_choices_count(Seq::empty(), cols, 0);
    lemma_single_columns(array, cols, 0);
    law_array_is_looked_up(array, keys);
    assert(keys =~= seq![array]);
}

proof fn lemma_single_columns(array: Seq<Value>, cols: Seq<Seq<Value>>, col: int)
    requires
        are_columns(array, cols),
        0 <= col <= cols.len(),
        forall|i: int| 0 <= i < array.len() ==> !(#[trigger] array[i] is Number),
    ensures
        count(cols, col) == 1,
    decreases cols.len() - col,
{
    if col < cols.len() {
        lemma_column(array[col], cols[col]);
        lemma_single_columns(array, cols, col + 1);
        assert(cols[col].len() * count(cols, col + 1) == 1) by (nonlinear_arith)
            requires
                cols[col].len() == 1,
                count(cols, col + 1) == 1,
        ;
    }
}

/// A form in which a value is looked up: any other value as it is, a number as its integer, its
/// double or its decimal, in so far as it has them.
pub open spec fn is_form_of(value: Value, x: Value) -> bool {
    match value {
        Value::Number(n) => exists|v: NumberVariants| #[trigger]
            are_variants(n, Rounding::Exact, v) && {
                ||| v.0 is Some && x == Value::Number(Number::Int(v.0->0))
                ||| v.1 is Some && x == Value::Number(Number::Float(v.1->0))
                ||| v.2 is Some && x == Value::Number(Number::Decimal(v.2->0))
            },
        _ => x == value,
    }
}

/// A column holds the forms of its value, up to the double of a decimal with fractional digits.
proof fn lemma_column_holds_form(value: Value, col: Seq<Value>, x: Value) -> (y: Value)
    requires
        is_column(value, col),
        is_form_of(value, x),
    ensures
        col.contains(y),
        values_agree(value, y, x),
        is_determined_value(value) ==> y == x,
{
    match value {
        Value::Number(n) => {
            let v = choose|v: NumberVariants| #[trigger]
                are_variants(n, Rounding::Exact, v) && {
                    ||| v.0 is Some && x == Value::Number(Number::Int(v.0->0))
                    ||| v.1 is Some && x == Value::Number(Number::Float(v.1->0))
                    ||| v.2 is Some && x == Value::Number(Number::Decimal(v.2->0))
                };
            let other = form_values(v);
            assert(is_column(value, other));
            lemma_columns_agree(value, col, other);
            law_values_are_the_forms(v, x);
            let j = choose|j: int| 0 <= j < other.len() && other[j] == x;
            assert(values_agree(value, col[j], other[j]));
            col[j]
        },
        _ => {
            assert(col[0] == x);
            x
        },
    }
}

/// All combinations of the forms of the values of an array are looked up, whatever its length: for
/// each of them there is a key that differs from it at most in the doubles that stand for decimals
/// with fractional digits.
pub proof fn law_every_combination_is_looked_up(
    array: Seq<Value>,
    keys: Seq<Seq<Value>>,
    key: Seq<Value>,
) -> (i: int)
    requires
        are_array_keys(array, keys),
        key.len() == array.len(),
        forall|c: int| 0 <= c < array.len() ==> is_form_of(array[c], #[trigger] key[c]),
    ensures
        0 <= i < keys.len(),
        keys[i].len() == array.len(),
        forall|c: int|
            0 <= c < array.len() ==> values_agree(array[c], #[trigger] keys[i][c], key[c]),
        forall|c: int|
            0 <= c < array.len() && is_determined_value(array[c]) ==> #[trigger] keys[i][c]
                == key[c],
{
    let cols = choose|cols: Seq<Seq<Value>>| #[trigger]
        are_columns(array, cols) && keys == choices(Seq::empty(), cols, 0);
    let found = Seq::new(
        array.len(),
        |c: int|
            choose|y: Value| #[trigger]
                cols[c].contains(y) && values_agree(array[c], y, key[c]) && (is_determined_value(
                    array[c],
                ) ==> y == key[c]),
    );
    assert forall|c: int| 0 <= c < array.len() implies (#[trigger] cols[c]).contains(found[c])
        && values_agree(array[c], found[c], key[c]) && (is_determined_value(array[c]) ==> found[c]
        == key[c]) by {
        assert(is_form_of(array[c], key[c]));
        let y = lemma_column_holds_form(array[c], cols[c], key[c]);
        assert(cols[c].contains(y));
    }
    law_keys_are_the_choices(array, cols, found);
    let i = choose|i: int| 0 <= i < keys.len() && keys[i] == found;
    assert forall|c: int| 0 <= c < array.len() implies values_agree(
        array[c],
        #[trigger] keys[i][c],
        key[c],
    ) && (is_determined_value(array[c]) ==> keys[i][c] == key[c]) by {
        assert(cols[c].contains(found[c]));
    }
    i
}

/// Every form of every number of an array is looked up, with the other columns as they are.
pub proof fn law_every_form_is_looked_up(
    array: Seq<Value>,
    keys: Seq<Seq<Value>>,
    c: int,
    n: Number,
    v: NumberVariants,
    f: Value,
)
    requires
        are_array_keys(array, keys),
        0 <= c < array.len(),
        array[c] == Value::Number(n),
        are_variants(n, Rounding::Exact, v),
        ({
            ||| v.0 is Some && f == Value::Number(Number::Int(v.0->0))
            ||| v.1 is Some && f == Value::Number(Number::Float(v.1->0))
            ||| v.2 is Some && f == Value::Number(Number::Decimal(v.2->0))
        }),
    ensures
        is_determined(n) || !(f->Number_0 is Float) ==> keys.contains(array.update(c, f)),
        exists|g: Value| #[trigger] agree(n, g, f) && keys.contains(array.update(c, g)),
{
    let cols = choose|cols: Seq<Seq<Value>>| #[trigger]
        are_columns(array, cols) && keys == choices(Seq::empty(), cols, 0);
    assert(is_form_of(array[c], f));
    assert(is_column(array[c], cols[c]));
    let g = lemma_column_holds_form(array[c], cols[c], f);
    assert(agree(n, g, f));
    let key = array.update(c, g);
    assert forall|i: int| 0 <= i < array.len() implies (#[trigger] cols[i]).contains(key[i]) by {
        assert(is_column(array[i], cols[i]));
        lemma_column(array[i], cols[i]);
    }
    law_keys_are_the_choices(array, cols, key);
}

/// Nothing but forms of the values of an array is looked up: each key has as many values as the
/// array, each of them a form of the value there.
pub proof fn law_only_forms_are_looked_up(array: Seq<Value>, keys: Seq<Seq<Value>>, i: int)
    requires
        are_array_keys(array, keys),
        0 <= i < keys.len(),
    ensures
        keys[i].len() == array.len(),
        forall|c: int| 0 <= c < array.len() ==> is_form_of(array[c], #[trigger] keys[i][c]),
{
    let cols = choose|cols: Seq<Seq<Value>>| #[trigger]
        are_columns(array, cols) && keys == choices(Seq::empty(), cols, 0);
    law_keys_are_the_choices(array, cols, keys[i]);
    assert(choices(Seq::empty(), cols, 0).contains(keys[i]));
    assert forall|c: int| 0 <= c < array.len() implies is_form_of(
        array[c],
        #[trigger] keys[i][c],
    ) by {
        assert(cols[c].contains(keys[i][c]));
        assert(is_column(array[c], cols[c]));
        if let Value::Number(n) = array[c] {
            let v = choose|v: NumberVariants| #[trigger]
                are_variants(n, Rounding::Exact, v) && cols[c] == form_values(v);
            law_values_are_the_forms(v, keys[i][c]);
        }
    }
}

/// A key followed by each value of a column.
spec fn tails(head: Seq<Value>, col: Seq<Value>) -> Seq<Seq<Value>> {
    Seq::new(col.len(), |j: int| head.push(col[j]))
}

/// One key after the other, each followed by each value of a column.
spec fn extend(heads: Seq<Seq<Value>>, col: Seq<Value>) -> Seq<Seq<Value>>
    decreases heads.len(),
{
    if heads.len() == 0 {
        Seq::empty()
    } else {
        extend(heads.drop_last(), col) + tails(heads.last(), col)
    }
}

proof fn lemma_extend_concat(a: Seq<Seq<Value>>, b: Seq<Seq<Value>>, col: Seq<Value>)
    ensures
        extend(a + b, col) == extend(a, col) + extend(b, col),
    decreases b.len(),
{
    if b.len() == 0 {
        assert(a + b =~= a);
        assert(extend(a, col) + extend(b, col) =~= extend(a, col));
    } else {
        assert((a + b).drop_last() =~= a + b.drop_last());
        assert((a + b).last() == b.last());
        lemma_extend_concat(a, b.drop_last(), col);
        assert(extend(a + b, col) =~= extend(a, col) + extend(b, col));
    }
}

proof fn lemma_extend_at(heads: Seq<Seq<Value>>, col: Seq<Value>, i: int, j: int)
    ensures
        extend(heads, col).len() == heads.len() * col.len(),
        0 <= i < heads.len() && 0 <= j < col.len() ==> 0 <= i * col.len() + j < extend(
            heads,
            col,
        ).len() && extend(heads, col)[i * col.len() + j] == heads[i].push(col[j]),
    decreases heads.len(),
{
    let n = col.len() as int;
    if heads.len() == 0 {
        assert(heads.len() * col.len() == 0) by (nonlinear_arith)
            requires
                heads.len() == 0,
        ;
    } else {
        let before = heads.drop_last();
        let m = before.len() as int;
        lemma_extend_at(before, col, i, j);
        assert((m + 1) * n == m * n + n) by (nonlinear_arith);
        if 0 <= i < m && 0 <= j < n {
            assert(extend(heads, col)[i * n + j] == extend(before, col)[i * n + j]);
        } else if i == m && 0 <= j < n {
            assert(m * n >= 0) by (nonlinear_arith)
                requires
                    m >= 0,
                    n >= 0,
            ;
            assert(extend(heads, col)[m * n + j] == tails(heads.last(), col)[j]);
        }
    }
}

/// A further column at the end extends each choice.
proof fn lemma_choices_extend(
    prefix: Seq<Value>,
    cols: Seq<Seq<Value>>,
    col: Seq<Value>,
    k: int,
)
    requires
        0 <= k <= cols.len(),
    ensures
        choices(prefix, cols.push(col), k) == extend(choices(prefix, cols, k), col),
    decreases cols.len() - k, 1nat, 0nat,
{
    let more = cols.push(col);
    if k < cols.len() {
        assert(more[k] == cols[k]);
        lemma_choices_of_extend(prefix, cols, col, k, cols[k].len());
    } else {
        lemma_last_choices(prefix, more, k, col.len());
        assert(more[k] == col);
        let only = seq![prefix];
        assert(only.drop_last() =~= Seq::<Seq<Value>>::empty());
        assert(extend(Seq::empty(), col) =~= Seq::<Seq<Value>>::empty());
        assert(extend(only, col) =~= tails(prefix, col));
        assert(tails(prefix, col) =~= Seq::new(col.len(), |j: int| prefix.push(more[k][j])));
    }
}

proof fn lemma_choices_of_extend(
    prefix: Seq<Value>,
    cols: Seq<Seq<Value>>,
    col: Seq<Value>,
    k: int,
    n: nat,
)
    requires
        0 <= k < cols.len(),
    ensures
        choices_of(prefix, cols.push(col), k, n) == extend(choices_of(prefix, cols, k, n), col),
    decreases cols.len() - k, 0nat, n,
{
    let more = cols.push(col);
    if n > 0 {
        assert(more[k] == cols[k]);
        let longer = prefix.push(cols[k][n - 1]);
        lemma_choices_of_extend(prefix, cols, col, k, (n - 1) as nat);
        lemma_choices_extend(longer, cols, col, k + 1);
        lemma_extend_concat(
            choices_of(prefix, cols, k, (n - 1) as nat),
            choices(longer, cols, k + 1),
            col,
        );
    }
}

/// The choices from the last column alone.
proof fn lemma_last_choices(prefix: Seq<Value>, cols: Seq<Seq<Value>>, k: int, n: nat)
    requires
        k == cols.len() - 1,
        0 <= k,
        n <= cols[k].len(),
    ensures
        choices_of(prefix, cols, k, n) == Seq::new(n, |j: int| prefix.push(cols[k][j])),
    decreases n,
{
    if n > 0 {
        lemma_last_choices(prefix, cols, k, (n - 1) as nat);
        let last = prefix.push(cols[k][n - 1]);
        assert(choices(last, cols, k + 1) == seq![last]);
        assert(choices_of(prefix, cols, k, n) =~= Seq::new(n, |j: int| prefix.push(cols[k][j])));
    } else {
        assert(choices_of(prefix, cols, k, n) =~= Seq::new(n, |j: int| prefix.push(cols[k][j])));
    }
}

/// Without columns there is one choice, the empty one. With a further column at the end each
/// choice is followed by each value of that column, in the order of both.
pub proof fn law_last_column_varies_fastest(
    cols: Seq<Seq<Value>>,
    col: Seq<Value>,
    i: int,
    j: int,
)
    ensures
        choices(Seq::empty(), Seq::empty(), 0) == seq![Seq::<Value>::empty()],
        choices(Seq::empty(), cols.push(col), 0).len() == choices(Seq::empty(), cols, 0).len()
            * col.len(),
        0 <= i < choices(Seq::empty(), cols, 0).len() && 0 <= j < col.len() ==> choices(
            Seq::empty(),
            cols.push(col),
            0,
        )[i * col.len() + j] == choices(Seq::empty(), cols, 0)[i].push(col[j]),
{
    lemma_choices_extend(Seq::empty(), cols, col, 0);
    lemma_extend_at(choices(Seq::empty(), cols, 0), col, i, j);
}

/// The choices from a column on, after a prefix, are those from the columns that are left, each
/// behind the prefix.
pub proof fn law_choices_follow_their_prefix(
    prefix: Seq<Value>,
    cols: Seq<Seq<Value>>,
    col: int,
    i: int,
)
    requires
        0 <= col <= cols.len(),
    ensures
        choices(prefix, cols, col).len() == choices(Seq::empty(), cols.skip(col), 0).len(),
        0 <= i < choices(prefix, cols, col).len() ==> choices(prefix, cols, col)[i] == prefix
            + choices(Seq::empty(), cols.skip(col), 0)[i],
    decreases cols.len() - col,
{
    assert(cols.skip(col).skip(0) =~= cols.skip(col));
    lemma_choices_behind(prefix, Seq::empty(), cols, col, cols.skip(col), 0);
    assert(prefix + Seq::<Value>::empty() =~= prefix);
}

/// Choices from the same columns, the ones behind what the others are not.
proof fn lemma_choices_behind(
    prefix: Seq<Value>,
    rest: Seq<Value>,
    a: Seq<Seq<Value>>,
    j: int,
    b: Seq<Seq<Value>>,
    k: int,
)
    requires
        0 <= j <= a.len(),
        0 <= k <= b.len(),
        a.skip(j) == b.skip(k),
    ensures
        choices(prefix + rest, a, j).len() == choices(rest, b, k).len(),
        forall|i: int|
            0 <= i < choices(rest, b, k).len() ==> #[trigger] choices(prefix + rest, a, j)[i]
                == prefix + choices(rest, b, k)[i],
    decreases a.len() - j, 1nat, 0nat,
{
    assert(a.len() - j == b.len() - k) by {
        assert(a.skip(j).len() == a.len() - j && b.skip(k).len() == b.len() - k);
    }
    if j < a.len() {
        assert(a[j] == a.skip(j)[0] && b[k] == b.skip(k)[0]);
        lemma_choices_of_behind(prefix, rest, a, j, b, k, a[j].len());
    }
}

proof fn lemma_choices_of_behind(
    prefix: Seq<Value>,
    rest: Seq<Value>,
    a: Seq<Seq<Value>>,
    j: int,
    b: Seq<Seq<Value>>,
    k: int,
    n: nat,
)
    requires
        0 <= j < a.len(),
        0 <= k < b.len(),
        a.skip(j) == b.skip(k),
        n <= a[j].len(),
    ensures
        choices_of(prefix + rest, a, j, n).len() == choices_of(rest, b, k, n).len(),
        forall|i: int|
            0 <= i < choices_of(rest, b, k, n).len() ==> #[trigger] choices_of(
                prefix + rest,
                a,
                j,
                n,
            )[i] == prefix + choices_of(rest, b, k, n)[i],
    decreases a.len() - j, 0nat, n,
{
    if n > 0 {
        assert(a[j] == a.skip(j)[0] && b[k] == b.skip(k)[0]);
        assert(a.skip(j + 1) =~= a.skip(j).skip(1));
        assert(b.skip(k + 1) =~= b.skip(k).skip(1));
        let v = a[j][n - 1];
        assert((prefix + rest).push(v) =~= prefix + rest.push(v));
        lemma_choices_of_behind(prefix, rest, a, j, b, k, (n - 1) as nat);
        lemma_choices_behind(prefix, rest.push(v), a, j + 1, b, k + 1);
    }
}

/// For an array with a further value the keys are those for the array, each followed by each form
/// of the value: the forms of the last value follow each other first.
pub proof fn law_keys_of_a_longer_array(
    array: Seq<Value>,
    value: Value,
    keys: Seq<Seq<Value>>,
) -> (r: (Seq<Seq<Value>>, Seq<Value>))
    requires
        are_array_keys(array.push(value), keys),
    ensures
        ({
            let (heads, col) = r;
            &&& are_array_keys(array, heads)
            &&& match value {
                Value::Number(n) => exists|v: NumberVariants| #[trigger]
                    are_variants(n, Rounding::Exact, v) && col == form_values(v),
                _ => col == seq![value],
            }
            &&& keys.len() == heads.len() * col.len()
            &&& forall|i: int, j: int, at: int|
                0 <= i < heads.len() && 0 <= j < col.len() && at == i * col.len() + j
                    ==> #[trigger] keys[at] == (#[trigger] heads[i]).push(#[trigger] col[j])
        }),
{
    let all = choose|cols: Seq<Seq<Value>>| #[trigger]
        are_columns(array.push(value), cols) && keys == choices(Seq::empty(), cols, 0);
    let cols = all.drop_last();
    let col = all.last();
    let heads = choices(Seq::empty(), cols, 0);
    assert(cols.push(col) =~= all);
    assert(is_column(array.push(value)[array.len() as int], all[array.len() as int]));
    assert forall|i: int| 0 <= i < cols.len() implies is_column(array[i], #[trigger] cols[i]) by {
        assert(is_column(array.push(value)[i], all[i]));
    }
    assert(are_columns(array, cols));
    law_last_column_varies_fastest(cols, col, 0, 0);
    assert forall|i: int, j: int, at: int|
        0 <= i < heads.len() && 0 <= j < col.len() && at == i * col.len()
            + j implies #[trigger] keys[at] == (#[trigger] heads[i]).push(#[trigger] col[j]) by {
        law_last_column_varies_fastest(cols, col, i, j);
    }
    (heads, col)
}

/// An array without values is looked up by the one key without values.
pub proof fn law_keys_of_an_empty_array(keys: Seq<Seq<Value>>)
    ensures
        are_array_keys(Seq::empty(), keys) <==> keys == seq![Seq::<Value>::empty()],
{
    let none = Seq::<Seq<Value>>::empty();
    assert(are_columns(Seq::empty(), none));
    if are_array_keys(Seq::empty(), keys) {
        let cols = choose|cols: Seq<Seq<Value>>| #[trigger]
            are_columns(Seq::empty(), cols) && keys == choices(Seq::empty(), cols, 0);
        assert(cols =~= none);
    }
}

/// An array is looked up by its values, and any other value as the only value of an array; nothing
/// is looked up for no values.
pub proof fn law_values_are_columns(value: Value, array: Array, keys: Seq<Seq<Value>>)
    ensures
        are_keys(Value::Array(array), keys) <==> are_array_keys(array.0@, keys),
        !(value is Array) ==> (are_keys(value, keys) <==> are_array_keys(seq![value], keys)),
        are_keys_of_all(Seq::empty(), keys) <==> keys.len() == 0,
{
    let none = Seq::<Seq<Seq<Value>>>::empty();
    assert(are_parts(Seq::empty(), none));
    assert(none.flatten() =~= Seq::<Seq<Value>>::empty());
    if keys.len() == 0 {
        assert(keys =~= none.flatten());
    }
    if are_keys_of_all(Seq::empty(), keys) {
        let parts = choose|parts: Seq<Seq<Seq<Value>>>| #[trigger]
            are_parts(Seq::empty(), parts) && keys == parts.flatten();
        assert(parts =~= none);
    }
}

/// A key is described by its values, and a list of keys by these.
pub proof fn law_keys_are_their_values(arrays: Seq<Array>, cols: Seq<Vec<Value>>, i: int)
    ensures
        keys_of(arrays).len() == arrays.len(),
        0 <= i < arrays.len() ==> keys_of(arrays)[i] == arrays[i].0@,
        columns_of(cols).len() == cols.len(),
        0 <= i < cols.len() ==> columns_of(cols)[i] == cols[i]@,
{
}

/// What was there before stays, and the keys that follow are those looked up for the value.
pub proof fn law_keys_are_appended(value: Value, before: Seq<Seq<Value>>, after: Seq<Seq<Value>>)
    ensures
        appends_keys(value, before, after) <==> {
            &&& before.len() <= after.len()
            &&& after.take(before.len() as int) == before
            &&& are_keys(value, after.skip(before.len() as int))
        },
{
    if appends_keys(value, before, after) {
        let keys = choose|keys: Seq<Seq<Value>>| #[trigger]
            are_keys(value, keys) && after == before + keys;
        assert(after.skip(before.len() as int) =~= keys);
        assert(after.take(before.len() as int) =~= before);
    }
    if before.len() <= after.len() && after.take(before.len() as int) == before && are_keys(
        value,
        after.skip(before.len() as int),
    ) {
        assert(after =~= before + after.skip(before.len() as int));
    }
}

} // verus!
