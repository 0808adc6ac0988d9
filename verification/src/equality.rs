//! When two values are equal: two integers or two sexagesimal numbers where
//! they are the same, two doubles where IEEE 754 says so, and no value of one
//! kind with a value of another.

use crate::binary64::{bits_are_nan, bits_are_zero, is_nan, is_zero};
use crate::value::Value;
use vstd::prelude::*;
use vstd::std_specs::cmp::PartialEqSpecImpl;

verus! {

/// Whether two doubles are equal: neither is a NaN, and they have the same
/// bits or are both zero.
pub open spec fn same_double(a: u64, b: u64) -> bool {
    !is_nan(a) && !is_nan(b) && (a == b || (is_zero(a) && is_zero(b)))
}

/// Whether two values are equal.
pub open spec fn same_value(left: Value, right: Value) -> bool {
    match (left, right) {
        (Value::Integer(a), Value::Integer(b)) => a == b,
        (Value::Float(a), Value::Float(b)) => same_double(a, b),
        (Value::Sexagesimal(a), Value::Sexagesimal(b)) => a == b,
        _ => false,
    }
}

impl PartialEq for Value {
    fn eq(&self, other: &Value) -> (r: bool) {
        match (self, other) {
            (Value::Integer(a), Value::Integer(b)) => *a == *b,
            (Value::Float(a), Value::Float(b)) => !bits_are_nan(*a) && !bits_are_nan(*b) && (*a
                == *b || (bits_are_zero(*a) && bits_are_zero(*b))),
            (Value::Sexagesimal(a), Value::Sexagesimal(b)) => a.integer_part == b.integer_part
                && a.fractional_part == b.fractional_part && a.has_fraction == b.has_fraction,
            _ => false,
        }
    }
}

impl PartialEqSpecImpl for Value {
    open spec fn obeys_eq_spec() -> bool {
        true
    }

    open spec fn eq_spec(&self, other: &Value) -> bool {
        same_value(*self, *other)
    }
}

} // verus!
