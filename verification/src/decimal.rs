//! Integers as decimal text: how an integer is written, which texts denote
//! one, and that the two agree.

use crate::text::{after_sign, char_is_digit, is_digit};
use vstd::prelude::*;

verus! {

/// The character of a digit from 0 to 9.
pub open spec fn digit_char(d: int) -> char {
    ('0' as int + d) as char
}

/// The number that a digit stands for; 0 for any other character.
pub open spec fn digit_value(c: char) -> nat {
    if is_digit(c) {
        (c as int - '0' as int) as nat
    } else {
        0
    }
}

/// A natural number in decimal digits, without leading zeros.
pub open spec fn natural_text(n: nat) -> Seq<char>
    decreases n,
{
    if n < 10 {
        seq![digit_char(n as int)]
    } else {
        natural_text(n / 10).push(digit_char((n % 10) as int))
    }
}

/// An integer in decimal digits, with `-` before a negative one.
pub open spec fn integer_text(n: int) -> Seq<char> {
    if n < 0 {
        seq!['-'] + natural_text((-n) as nat)
    } else {
        natural_text(n as nat)
    }
}

/// Whether every character is a digit.
pub open spec fn all_digits(s: Seq<char>) -> bool {
    forall|i: int| 0 <= i < s.len() ==> is_digit(#[trigger] s[i])
}

/// The number that a run of digits denotes, the most significant first.
pub open spec fn digits_value(s: Seq<char>) -> nat
    decreases s.len(),
{
    if s.len() == 0 {
        0
    } else {
        digits_value(s.drop_last()) * 10 + digit_value(s.last())
    }
}

/// The integer that a text denotes: an optional sign, then one digit or
/// more. `None` for any other text.
pub open spec fn integer_of_text(s: Seq<char>) -> Option<int> {
    let start = after_sign(s, 0);
    let digits = s.subrange(start, s.len() as int);
    if start < s.len() && all_digits(digits) {
        if s[0] == '-' {
            Some(-(digits_value(digits) as int))
        } else {
            Some(digits_value(digits) as int)
        }
    } else {
        None
    }
}

/// The 64-bit integer that a text denotes; `None` where the text denotes no
/// integer or one that does not fit.
pub open spec fn i64_of_text(s: Seq<char>) -> Option<i64> {
    match integer_of_text(s) {
        Some(n) => if i64::MIN <= n <= i64::MAX {
            Some(n as i64)
        } else {
            None
        },
        None => None,
    }
}

/// A text in the form in which integers are written: digits without a
/// redundant leading zero, after `-` for a negative number only.
pub open spec fn is_canonical(s: Seq<char>) -> bool {
    let start: int = if s.len() > 0 && s[0] == '-' {
        1
    } else {
        0
    };
    let digits = s.subrange(start, s.len() as int);
    &&& digits.len() > 0
    &&& all_digits(digits)
    &&& digits.len() == 1 || digits[0] != '0'
    &&& start == 1 ==> digits[0] != '0'
}

/// The value of a prefix of a run of digits is at most that of the whole run.
pub proof fn lemma_digits_value_prefix(s: Seq<char>, k: int)
    requires
        0 <= k <= s.len(),
    ensures
        digits_value(s.subrange(0, k)) <= digits_value(s),
    decreases s.len(),
{
    if k == s.len() {
        assert(s.subrange(0, k) =~= s);
    } else {
        lemma_digits_value_prefix(s.drop_last(), k);
        assert(s.drop_last().subrange(0, k) =~= s.subrange(0, k));
    }
}

/// The text of a natural number is a run of digits that denotes it.
pub proof fn lemma_natural_text(n: nat)
    ensures
        natural_text(n).len() > 0,
        all_digits(natural_text(n)),
        digits_value(natural_text(n)) == n,
        n > 0 ==> natural_text(n)[0] != '0',
    decreases n,
{
    if n < 10 {
        let s = natural_text(n);
        assert(s.drop_last() =~= Seq::<char>::empty());
        assert(digits_value(s.drop_last()) == 0);
    } else {
        lemma_natural_text(n / 10);
        let s = natural_text(n);
        assert(s.drop_last() =~= natural_text(n / 10));
        assert(s[0] == natural_text(n / 10)[0]);
    }
}

/// Writing an integer and reading the text gives the integer back.
pub proof fn lemma_integer_text_parses(n: int)
    ensures
        integer_of_text(integer_text(n)) == Some(n),
        is_canonical(integer_text(n)),
{
    let s = integer_text(n);
    if n < 0 {
        let d = natural_text((-n) as nat);
        lemma_natural_text((-n) as nat);
        assert(s.subrange(1, s.len() as int) =~= d);
    } else {
        lemma_natural_text(n as nat);
        assert(s.subrange(0, s.len() as int) =~= s);
    }
}

/// A run of digits without a redundant leading zero is the text of its value.
pub proof fn lemma_digits_round_trip(d: Seq<char>)
    requires
        d.len() > 0,
        all_digits(d),
        d.len() == 1 || d[0] != '0',
    ensures
        natural_text(digits_value(d)) == d,
        d[0] != '0' ==> digits_value(d) > 0,
    decreases d.len(),
{
    let rest = d.drop_last();
    let c = d.last();
    assert(is_digit(c));
    if d.len() == 1 {
        assert(rest =~= Seq::<char>::empty());
        assert(digits_value(rest) == 0);
        assert(natural_text(digits_value(d)) =~= d);
    } else {
        assert(rest[0] == d[0]);
        assert(all_digits(rest)) by {
            assert forall|i: int| 0 <= i < rest.len() implies is_digit(#[trigger] rest[i]) by {
                assert(rest[i] == d[i]);
            }
        }
        lemma_digits_round_trip(rest);
        let v = digits_value(rest);
        assert(digits_value(d) == v * 10 + digit_value(c));
        assert(natural_text(digits_value(d)) =~= d);
    }
}

/// Reading a text in the written form and writing the integer gives the
/// text back.
pub proof fn lemma_canonical_text_round_trip(s: Seq<char>)
    requires
        is_canonical(s),
    ensures
        integer_of_text(s) is Some,
        integer_text(integer_of_text(s)->0) == s,
{
    if s[0] == '-' {
        let d = s.subrange(1, s.len() as int);
        lemma_digits_round_trip(d);
        assert(integer_text(-(digits_value(d) as int)) =~= s);
    } else {
        let d = s.subrange(0, s.len() as int);
        assert(d =~= s);
        assert(is_digit(d[0]));
        lemma_digits_round_trip(d);
    }
}

/// Appends the digits of `n` to `s`.
pub fn push_natural(s: &mut String, n: u64)
    ensures
        final(s)@ == old(s)@ + natural_text(n as nat),
    decreases n,
{
    if n >= 10 {
        push_natural(s, n / 10);
    }
    let digit = (n % 10) as u8;
    s.push((48u8 + digit) as char);
    proof {
        if n < 10 {
            assert(old(s)@.push(digit_char(n as int)) =~= old(s)@ + natural_text(n as nat));
        } else {
            assert((old(s)@ + natural_text((n / 10) as nat)).push(digit_char((n % 10) as int))
                =~= old(s)@ + natural_text(n as nat));
        }
    }
}

/// Appends the decimal text of `n` to `s`.
pub fn push_integer(s: &mut String, n: i64)
    ensures
        final(s)@ == old(s)@ + integer_text(n as int),
{
    if n < 0 {
        s.push('-');
        push_natural(s, (-(n as i128)) as u64);
        assert(final(s)@ =~= old(s)@ + integer_text(n as int));
    } else {
        push_natural(s, n as u64);
    }
}

/// The decimal text of `n`.
pub fn integer_to_string(n: i64) -> (s: String)
    ensures
        s@ == integer_text(n as int),
{
    let mut s = String::new();
    push_integer(&mut s, n);
    assert(s@ =~= integer_text(n as int));
    s
}

/// Reads `text[from..to]` as a 64-bit integer: an optional sign, then one
/// digit or more. `None` for any other text and for a number out of range.
pub fn parse_i64(text: &Vec<char>, from: usize, to: usize) -> (r: Option<i64>)
    requires
        from <= to <= text.len(),
    ensures
        r == i64_of_text(text@.subrange(from as int, to as int)),
{
    let ghost s = text@.subrange(from as int, to as int);
    let negative = from < to && text[from] == '-';
    let start = if from < to && (text[from] == '+' || text[from] == '-') {
        from + 1
    } else {
        from
    };
    assert(start - from == after_sign(s, 0));
    if start >= to {
        return None;
    }
    let ghost digits = s.subrange(start - from, s.len() as int);
    let limit: u64 = 0x8000_0000_0000_0000;
    let mut magnitude: u64 = 0;
    let mut i = start;
    assert(s.subrange(start - from, i - from) =~= Seq::<char>::empty());
    while i < to
        invariant
            from <= start <= i <= to <= text.len(),
            s == text@.subrange(from as int, to as int),
            digits == s.subrange(start - from, s.len() as int),
            limit == 0x8000_0000_0000_0000,
            start - from == after_sign(s, 0),
            negative == (s[0] == '-'),
            all_digits(digits.subrange(0, i - start)),
            magnitude == digits_value(digits.subrange(0, i - start)),
            magnitude <= limit,
        decreases to - i,
    {
        let c = text[i];
        assert(c == digits[i - start]);
        if !char_is_digit(c) {
            assert(!is_digit(digits[i - start]));
            return None;
        }
        let ghost next_prefix = digits.subrange(0, i + 1 - start);
        assert(next_prefix.drop_last() =~= digits.subrange(0, i - start));
        assert(all_digits(next_prefix)) by {
            assert forall|j: int| 0 <= j < next_prefix.len() implies is_digit(
                #[trigger] next_prefix[j],
            ) by {
                if j < i - start {
                    assert(next_prefix[j] == digits.subrange(0, i - start)[j]);
                }
            }
        }
        let next: u128 = magnitude as u128 * 10 + (c as u32 - '0' as u32) as u128;
        assert(next == digits_value(next_prefix));
        if next > limit as u128 {
            proof {
                lemma_digits_value_prefix(digits, i + 1 - start);
                assert(digits_value(digits) > limit);
            }
            return None;
        }
        magnitude = next as u64;
        i = i + 1;
    }
    assert(digits.subrange(0, i - start) =~= digits);
    if negative {
        if magnitude == limit {
            Some(i64::MIN)
        } else {
            Some(-(magnitude as i64))
        }
    } else if magnitude == limit {
        None
    } else {
        Some(magnitude as i64)
    }
}

} // verus!
