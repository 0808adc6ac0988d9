//! IEEE 754 double-precision numbers, held by their bit patterns.
//!
//! The arithmetic is done in software on the bit patterns. Each operation has
//! a name for its result, which depends on the operands alone; what is known of
//! a result beyond that is stated where it is used.

use crate::text::{after_sign, char_is_digit, digits_end};
use rustc_apfloat::ieee::Double;
use rustc_apfloat::{Float, Round};
use vstd::prelude::*;

verus! {

/// The sign bit of a double.
pub const SIGN_BIT: u64 = 0x8000_0000_0000_0000;

/// The double nearest to an integer, ties to even.
pub uninterp spec fn of_int(value: i64) -> u64;

/// The sum of two doubles, rounded to nearest, ties to even.
pub uninterp spec fn sum(a: u64, b: u64) -> u64;

/// The difference of two doubles, rounded to nearest, ties to even.
pub uninterp spec fn difference(a: u64, b: u64) -> u64;

/// The product of two doubles, rounded to nearest, ties to even.
pub uninterp spec fn product(a: u64, b: u64) -> u64;

/// The quotient of two doubles, rounded to nearest, ties to even.
pub uninterp spec fn quotient(a: u64, b: u64) -> u64;

/// The largest integer that is not above a double, held to the range of
/// `i64`; 0 for a NaN.
pub uninterp spec fn floor_int(a: u64) -> i64;

/// The integer nearest to a double, halves away from zero, held to the range
/// of `i64`; 0 for a NaN.
pub uninterp spec fn round_int(a: u64) -> i64;

/// The double nearest to the number that a decimal text denotes, if the
/// conversion takes the text.
pub uninterp spec fn of_decimal(text: Seq<char>) -> Option<u64>;

/// Whether `bits` is positive or negative zero.
pub open spec fn is_zero(bits: u64) -> bool {
    bits == 0 || bits == SIGN_BIT
}

/// Whether `bits` is a NaN: the exponent is all ones and the fraction is
/// not zero.
pub open spec fn is_nan(bits: u64) -> bool {
    (bits & 0x7fff_ffff_ffff_ffff) > 0x7ff0_0000_0000_0000
}

/// The double with the other sign.
pub open spec fn negation(bits: u64) -> u64 {
    bits ^ SIGN_BIT
}

/// Whether the text from `start` on is an exponent: `e` or `E`, an optional
/// sign, and one digit or more up to the end of the text.
pub open spec fn is_exponent(text: Seq<char>, start: int) -> bool {
    &&& 0 <= start < text.len()
    &&& (text[start] == 'e' || text[start] == 'E')
    &&& after_sign(text, start + 1) < text.len()
    &&& digits_end(text, after_sign(text, start + 1)) == text.len()
}

/// The decimal texts with a point that denote a double: an optional sign,
/// digits with one point among them, before them or after them, and an
/// optional exponent.
pub open spec fn is_decimal_literal(text: Seq<char>) -> bool {
    let start = after_sign(text, 0);
    let point = digits_end(text, start);
    let end = digits_end(text, point + 1);
    &&& point < text.len()
    &&& text[point] == '.'
    &&& (start < point || point + 1 < end)
    &&& (end == text.len() || is_exponent(text, end))
}

/// `Float::from_i128` on `Double`: the double nearest to the integer.
#[verifier::external_body]
pub(crate) fn int_to_bits(value: i64) -> (r: u64)
    ensures
        r == of_int(value),
{
    Double::from_i128(value as i128).value.to_bits() as u64
}

/// `Float::add_r` on `Double`, rounding to nearest with ties to even.
#[verifier::external_body]
pub(crate) fn add_bits(a: u64, b: u64) -> (r: u64)
    ensures
        r == sum(a, b),
{
    let x = Double::from_bits(a as u128);
    let y = Double::from_bits(b as u128);
    x.add_r(y, Round::NearestTiesToEven).value.to_bits() as u64
}

/// `Float::sub_r` on `Double`, rounding to nearest with ties to even.
#[verifier::external_body]
pub(crate) fn sub_bits(a: u64, b: u64) -> (r: u64)
    ensures
        r == difference(a, b),
{
    let x = Double::from_bits(a as u128);
    let y = Double::from_bits(b as u128);
    x.sub_r(y, Round::NearestTiesToEven).value.to_bits() as u64
}

/// `Float::mul_r` on `Double`, rounding to nearest with ties to even.
#[verifier::external_body]
pub(crate) fn mul_bits(a: u64, b: u64) -> (r: u64)
    ensures
        r == product(a, b),
{
    let x = Double::from_bits(a as u128);
    let y = Double::from_bits(b as u128);
    x.mul_r(y, Round::NearestTiesToEven).value.to_bits() as u64
}

/// `Float::div_r` on `Double`, rounding to nearest with ties to even.
#[verifier::external_body]
pub(crate) fn div_bits(a: u64, b: u64) -> (r: u64)
    ensures
        r == quotient(a, b),
{
    let x = Double::from_bits(a as u128);
    let y = Double::from_bits(b as u128);
    x.div_r(y, Round::NearestTiesToEven).value.to_bits() as u64
}

/// `Float::to_i128_r` on `Double`, 64 bits wide and rounding downward: the
/// floor of the double as an integer, the nearest bound of `i64` where it
/// does not fit, 0 for a NaN.
#[verifier::external_body]
pub(crate) fn floor_bits(a: u64) -> (r: i64)
    ensures
        r == floor_int(a),
{
    let mut exact = true;
    Double::from_bits(a as u128).to_i128_r(64, Round::TowardNegative, &mut exact).value as i64
}

/// `Float::to_i128_r` on `Double`, 64 bits wide and rounding to nearest with
/// halves away from zero; the nearest bound of `i64` where the result does
/// not fit, 0 for a NaN.
#[verifier::external_body]
pub(crate) fn round_bits(a: u64) -> (r: i64)
    ensures
        r == round_int(a),
{
    let mut exact = true;
    Double::from_bits(a as u128).to_i128_r(64, Round::NearestTiesToAway, &mut exact).value as i64
}

/// `Float::from_str_r` on `Double`, rounding to nearest with ties to even:
/// the double that a decimal text denotes.
#[verifier::external_body]
pub(crate) fn decimal_to_bits(text: &str) -> (r: Option<u64>)
    requires
        is_decimal_literal(text@),
    ensures
        r == of_decimal(text@),
{
    match Double::from_str_r(text, Round::NearestTiesToEven) {
        Ok(parsed) => Some(parsed.value.to_bits() as u64),
        Err(_) => None,
    }
}

/// Whether a double is positive or negative zero.
pub fn bits_are_zero(bits: u64) -> (b: bool)
    ensures
        b == is_zero(bits),
{
    bits == 0 || bits == SIGN_BIT
}

/// Whether a double is a NaN.
pub fn bits_are_nan(bits: u64) -> (b: bool)
    ensures
        b == is_nan(bits),
{
    (bits & 0x7fff_ffff_ffff_ffff) > 0x7ff0_0000_0000_0000
}

/// The double with the other sign.
pub fn negate_bits(bits: u64) -> (r: u64)
    ensures
        r == negation(bits),
{
    bits ^ SIGN_BIT
}

/// Moves over the run of digits of `text` that starts at `start`.
fn skip_digits(text: &Vec<char>, start: usize) -> (end: usize)
    requires
        start <= text.len(),
    ensures
        end == digits_end(text@, start as int),
        start <= end <= text.len(),
{
    let mut i = start;
    while i < text.len() && char_is_digit(text[i])
        invariant
            start <= i <= text.len(),
            digits_end(text@, i as int) == digits_end(text@, start as int),
        decreases text.len() - i,
    {
        i = i + 1;
    }
    i
}

/// Moves over a sign at `start`, if there is one.
fn skip_sign(text: &Vec<char>, start: usize) -> (end: usize)
    requires
        start <= text.len(),
    ensures
        end == after_sign(text@, start as int),
        start <= end <= text.len(),
{
    if start < text.len() && (text[start] == '+' || text[start] == '-') {
        start + 1
    } else {
        start
    }
}

/// Whether a text is a decimal numeral with a point that denotes a double.
pub fn check_decimal_literal(text: &Vec<char>) -> (b: bool)
    ensures
        b == is_decimal_literal(text@),
{
    let start = skip_sign(text, 0);
    let point = skip_digits(text, start);
    if point >= text.len() || text[point] != '.' {
        return false;
    }
    let end = skip_digits(text, point + 1);
    if start == point && point + 1 == end {
        return false;
    }
    if end == text.len() {
        return true;
    }
    if text[end] != 'e' && text[end] != 'E' {
        return false;
    }
    let digits = skip_sign(text, end + 1);
    if digits >= text.len() {
        return false;
    }
    skip_digits(text, digits) == text.len()
}

} // verus!
