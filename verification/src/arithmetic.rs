//! How the three kinds of value combine under the four operators and under
//! negation.
//!
//! Two integers give an integer, by the arithmetic of 64-bit two's
//! complement; their quotient is a double where it is no integer. A double
//! on either side gives a double. A sexagesimal number with an integer gives
//! a sexagesimal number; two sexagesimal numbers give one under `+` and `-`
//! and a double under `*` and `/`. Sexagesimal results are exact: they are
//! computed on counts of sixtieths, and a quotient is rounded to the nearest
//! sixtieth.

use crate::ast::Operator;
use crate::binary64::{difference, is_zero, negation, of_int, product, quotient, sum};
use crate::value::{SexagesimalNum, Value};
use vstd::prelude::*;

verus! {

/// The 64-bit integer that `n` is in two's complement: the one that differs
/// from `n` by a multiple of 2^64.
pub open spec fn wrap(n: int) -> i64 {
    ((n + 0x8000_0000_0000_0000) % 0x1_0000_0000_0000_0000 - 0x8000_0000_0000_0000) as i64
}

/// The integer nearest to `p / q`, a half counting upward; 0 where `q` is 0.
pub open spec fn rounded_ratio(p: int, q: int) -> int {
    if q > 0 {
        (2 * p + q) / (2 * q)
    } else if q < 0 {
        (2 * (-p) + (-q)) / (2 * (-q))
    } else {
        0
    }
}

/// Whether a value is zero as a divisor: the integer 0, a double that is
/// positive or negative zero, a sexagesimal number of no sixtieths.
pub open spec fn is_zero_value(v: Value) -> bool {
    match v {
        Value::Integer(i) => i == 0,
        Value::Float(bits) => is_zero(bits),
        Value::Sexagesimal(s) => s.sixtieths() == 0,
    }
}

/// The sum of two values.
pub open spec fn sum_of(left: Value, right: Value) -> Value {
    match (left, right) {
        (Value::Integer(a), Value::Integer(b)) => Value::Integer(wrap(a + b)),
        (Value::Sexagesimal(a), Value::Sexagesimal(b)) => Value::Sexagesimal(
            SexagesimalNum::of_sixtieths(a.sixtieths() + b.sixtieths()),
        ),
        (Value::Sexagesimal(a), Value::Integer(b)) => Value::Sexagesimal(
            SexagesimalNum::of_sixtieths(a.sixtieths() + b * 60),
        ),
        (Value::Integer(a), Value::Sexagesimal(b)) => Value::Sexagesimal(
            SexagesimalNum::of_sixtieths(a * 60 + b.sixtieths()),
        ),
        _ => Value::Float(sum(left.binary64(), right.binary64())),
    }
}

/// The difference of two values.
pub open spec fn difference_of(left: Value, right: Value) -> Value {
    match (left, right) {
        (Value::Integer(a), Value::Integer(b)) => Value::Integer(wrap(a - b)),
        (Value::Sexagesimal(a), Value::Sexagesimal(b)) => Value::Sexagesimal(
            SexagesimalNum::of_sixtieths(a.sixtieths() - b.sixtieths()),
        ),
        (Value::Sexagesimal(a), Value::Integer(b)) => Value::Sexagesimal(
            SexagesimalNum::of_sixtieths(a.sixtieths() - b * 60),
        ),
        (Value::Integer(a), Value::Sexagesimal(b)) => Value::Sexagesimal(
            SexagesimalNum::of_sixtieths(a * 60 - b.sixtieths()),
        ),
        _ => Value::Float(difference(left.binary64(), right.binary64())),
    }
}

/// The product of two values.
pub open spec fn product_of(left: Value, right: Value) -> Value {
    match (left, right) {
        (Value::Integer(a), Value::Integer(b)) => Value::Integer(wrap(a * b)),
        (Value::Sexagesimal(a), Value::Integer(b)) => Value::Sexagesimal(
            SexagesimalNum::of_sixtieths(a.sixtieths() * b),
        ),
        (Value::Integer(a), Value::Sexagesimal(b)) => Value::Sexagesimal(
            SexagesimalNum::of_sixtieths(a * b.sixtieths()),
        ),
        _ => Value::Float(product(left.binary64(), right.binary64())),
    }
}

/// The quotient of two values, the second of which is not zero.
pub open spec fn quotient_of(left: Value, right: Value) -> Value {
    match (left, right) {
        (Value::Integer(a), Value::Integer(b)) => if a % b == 0 {
            Value::Integer(wrap(a / b))
        } else {
            Value::Float(quotient(of_int(a), of_int(b)))
        },
        (Value::Sexagesimal(a), Value::Integer(b)) => Value::Sexagesimal(
            SexagesimalNum::of_sixtieths(rounded_ratio(a.sixtieths(), b as int)),
        ),
        (Value::Integer(a), Value::Sexagesimal(b)) => Value::Sexagesimal(
            SexagesimalNum::of_sixtieths(rounded_ratio(a * 3600, b.sixtieths())),
        ),
        _ => Value::Float(quotient(left.binary64(), right.binary64())),
    }
}

/// The value with the other sign.
pub open spec fn negation_of(v: Value) -> Value {
    match v {
        Value::Integer(n) => Value::Integer(wrap(-n)),
        Value::Float(bits) => Value::Float(negation(bits)),
        Value::Sexagesimal(s) => Value::Sexagesimal(SexagesimalNum::of_sixtieths(-s.sixtieths())),
    }
}

/// What an operator between two values gives: a value, or `None` where a
/// division has a zero divisor.
pub open spec fn binary_result(op: Operator, left: Value, right: Value) -> Option<Value> {
    match op {
        Operator::Plus => Some(sum_of(left, right)),
        Operator::Minus => Some(difference_of(left, right)),
        Operator::Multiply => Some(product_of(left, right)),
        Operator::Divide => if is_zero_value(right) {
            None
        } else {
            Some(quotient_of(left, right))
        },
    }
}

/// What an operator before a value gives: the value itself under plus, its
/// negation under minus; `None` for the other two operators.
pub open spec fn unary_result(op: Operator, v: Value) -> Option<Value> {
    match op {
        Operator::Plus => Some(v),
        Operator::Minus => Some(negation_of(v)),
        _ => None,
    }
}

/// Brings an integer into 64 bits, in two's complement.
pub fn wrap_to_i64(n: i128) -> (r: i64)
    ensures
        r == wrap(n as int),
{
    let modulus: i128 = 0x1_0000_0000_0000_0000;
    let half: i128 = 0x8000_0000_0000_0000;
    let rest = n % modulus;
    if rest >= half {
        (rest - modulus) as i64
    } else if rest < -half {
        (rest + modulus) as i64
    } else {
        rest as i64
    }
}

/// The floor of `a / b` for a positive `b`.
fn floor_div(a: i128, b: i128) -> (d: i128)
    requires
        b > 0,
        -0x4000_0000_0000_0000_0000_0000_0000_0000 < a < 0x4000_0000_0000_0000_0000_0000_0000_0000,
        b < 0x4000_0000_0000_0000_0000_0000_0000_0000,
    ensures
        d == a as int / b as int,
{
    if a >= 0 {
        a / b
    } else {
        let d = -((-a + b - 1) / b);
        assert(d == a as int / b as int) by (nonlinear_arith)
            requires
                b > 0,
                a < 0,
                d == -((-a + b - 1) / (b as int)),
        ;
        d
    }
}

/// The integer nearest to `p / q`, a half counting upward.
pub fn round_ratio(p: i128, q: i128) -> (r: i128)
    requires
        q != 0,
        -0x1000_0000_0000_0000_0000_0000 < p < 0x1000_0000_0000_0000_0000_0000,
        -0x1000_0000_0000_0000_0000_0000 < q < 0x1000_0000_0000_0000_0000_0000,
    ensures
        r == rounded_ratio(p as int, q as int),
{
    if q > 0 {
        floor_div(2 * p + q, 2 * q)
    } else {
        floor_div(2 * (-p) + (-q), 2 * (-q))
    }
}

/// A sexagesimal number is the number of its count of sixtieths.
pub proof fn lemma_sixtieths_determine(s: SexagesimalNum)
    requires
        s.wf(),
    ensures
        SexagesimalNum::of_sixtieths(s.sixtieths()) == s,
{
}

/// Every count of sixtieths gives a number that keeps the invariant, and
/// the number has that count where its whole units fit in 64 bits.
pub proof fn lemma_of_sixtieths(n: int)
    ensures
        SexagesimalNum::of_sixtieths(n).wf(),
        i64::MIN * 60 <= n < (i64::MAX + 1) * 60 ==> SexagesimalNum::of_sixtieths(n).sixtieths()
            == n,
{
}

/// Every result of an operator between two values keeps the invariant of
/// its value, whatever the operands are.
pub proof fn lemma_binary_result_well_formed(op: Operator, left: Value, right: Value)
    ensures
        binary_result(op, left, right) matches Some(value) ==> value.wf(),
{
}

/// Every result of an operator before a value that keeps its invariant keeps
/// the invariant too.
pub proof fn lemma_unary_result_well_formed(op: Operator, operand: Value)
    requires
        operand.wf(),
    ensures
        unary_result(op, operand) matches Some(value) ==> value.wf(),
{
}

/// Negating a sexagesimal number twice gives the number back. The one
/// number left out has no negation within 64 bits of whole units.
pub proof fn lemma_double_negation(s: SexagesimalNum)
    requires
        s.wf(),
        !(s.integer_part == i64::MIN && s.fractional_part == 0),
    ensures
        negation_of(negation_of(Value::Sexagesimal(s))) == Value::Sexagesimal(s),
{
    lemma_of_sixtieths(-s.sixtieths());
    lemma_sixtieths_determine(s);
}

/// A division by a value that is zero has no result, whatever is divided;
/// every other division has one, and so has every other operation.
pub proof fn lemma_division_by_zero(op: Operator, left: Value, right: Value)
    ensures
        binary_result(op, left, right) is None <==> op == Operator::Divide && is_zero_value(right),
{
}

} // verus!
