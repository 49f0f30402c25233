//! The values that queries compare and return.
use crate::decimal::Decimal;
use crate::double::{as_i64, saturated_int, to_saturated_int};
use crate::shared::share;
use std::sync::Arc;
use vstd::prelude::*;
use vstd::std_specs::convert::FromSpec;

verus! {

/// A number in one of the three forms in which an index stores it.
#[derive(Clone, Copy, Debug, PartialEq, Eq, Structural)]
pub enum Number {
    Int(i64),
    /// A double, by its bits.
    Float(u64),
    Decimal(Decimal),
}

impl Number {
    /// The number as an integer: a double is cut and clamped, a decimal is cut, or zero where
    /// the integer does not fit.
    pub open spec fn spec_to_int(self) -> int {
        match self {
            Number::Int(i) => i as int,
            Number::Float(bits) => saturated_int(bits),
            Number::Decimal(d) => match as_i64(d.int_part()) {
                Some(i) => i as int,
                None => 0,
            },
        }
    }

    pub fn to_int(&self) -> (r: i64)
        ensures
            r == self.spec_to_int(),
    {
        match self {
            Number::Int(i) => *i,
            Number::Float(bits) => to_saturated_int(*bits),
            Number::Decimal(d) => match d.to_int() {
                Some(i) => i,
                None => 0,
            },
        }
    }
}

/// A value of a query or of a record.
#[derive(Debug, PartialEq, Eq)]
pub enum Value {
    /// No value at all.
    Absent,
    Null,
    Bool(bool),
    Number(Number),
    Strand(String),
    Array(Array),
    Object(Object),
    /// A value of any other kind, in its stored form: it is only carried along.
    Encoded(Arc<Vec<u8>>),
}

/// An array of values; one key of an index is such an array, with one value for each column.
#[derive(Debug, PartialEq, Eq)]
pub struct Array(pub Arc<Vec<Value>>);

/// An object: its fields in ascending order of their keys, no key twice.
#[derive(Debug, PartialEq, Eq)]
pub struct Object(pub Arc<Vec<Field>>);

#[derive(Debug, PartialEq, Eq)]
pub struct Field {
    pub key: String,
    pub value: Value,
}

impl Clone for Value {
    fn clone(&self) -> (r: Self)
        ensures
            r == *self,
    {
        match self {
            Value::Absent => Value::Absent,
            Value::Null => Value::Null,
            Value::Bool(b) => Value::Bool(*b),
            Value::Number(n) => Value::Number(*n),
            Value::Strand(s) => Value::Strand(s.clone()),
            Value::Array(a) => Value::Array(a.clone()),
            Value::Object(o) => Value::Object(Object(share(&o.0))),
            Value::Encoded(b) => Value::Encoded(share(b)),
        }
    }
}

impl Clone for Array {
    fn clone(&self) -> (r: Self)
        ensures
            r == *self,
    {
        Array(share(&self.0))
    }
}

impl Array {
    pub open spec fn items(self) -> Seq<Value> {
        self.0@
    }
}

impl From<Vec<Value>> for Array {
    fn from(items: Vec<Value>) -> (r: Self)
    {
        Array(Arc::new(items))
    }
}

impl vstd::std_specs::convert::FromSpecImpl<Vec<Value>> for Array {
    open spec fn obeys_from_spec() -> bool {
        true
    }

    open spec fn from_spec(items: Vec<Value>) -> Self {
        Array(Arc::new(items))
    }
}

/// One end of a range over an index; `Value::Absent` leaves the end open.
#[derive(Debug, PartialEq, Eq)]
pub struct RangeValue {
    pub value: Value,
    pub inclusive: bool,
}

impl Clone for RangeValue {
    fn clone(&self) -> (r: Self)
        ensures
            r == *self,
    {
        RangeValue { value: self.value.clone(), inclusive: self.inclusive }
    }
}

/// An integer is itself. A double or a decimal is cut towards zero; where the integer does not
/// fit, a double gives the nearest one that does, and a decimal gives zero.
pub proof fn law_number_as_an_integer(i: i64, bits: u64, d: Decimal)
    ensures
        Number::Int(i).spec_to_int() == i,
        Number::Float(bits).spec_to_int() == saturated_int(bits),
        i64::MIN <= d.int_part() <= i64::MAX ==> Number::Decimal(d).spec_to_int() == d.int_part(),
        !(i64::MIN <= d.int_part() <= i64::MAX) ==> Number::Decimal(d).spec_to_int() == 0,
{
}

/// An array has the values that it is made of, in their order.
pub proof fn law_array_holds_its_values(items: Vec<Value>)
    ensures
        <Array as FromSpec<Vec<Value>>>::from_spec(items).items() == items@,
{
}

} // verus!
