//! The numeric model: the three kinds of value, how numeral text is read,
//! how values are shown, and how a sexagesimal number relates to the reals.

use crate::binary64::{
    add_bits, check_decimal_literal, decimal_to_bits, difference, div_bits, floor_bits, floor_int,
    int_to_bits, is_decimal_literal, mul_bits, of_decimal, of_int, product, quotient, round_bits,
    round_int, sub_bits, sum,
};
use crate::decimal::{
    i64_of_text, integer_text, is_canonical, lemma_canonical_text_round_trip,
    lemma_integer_text_parses, lemma_natural_text, parse_i64, push_integer,
};
use crate::text::{chars_of, is_digit, text_of};
use vstd::prelude::*;

verus! {

/// Why a text is no numeral.
#[derive(Debug, Clone, PartialEq)]
pub enum NumberError {
    /// The text, or a part of it, is malformed; the message says which.
    InvalidFormat(String),
    /// The text is empty.
    EmptyNumber,
    /// The text holds more than one decimal point.
    MultipleDecimals,
    /// A character that is no digit of a base-60 numeral.
    InvalidSexagesimalDigit(char),
}

/// The mathematical value of a [`NumberError`].
pub enum NumberErrorView {
    InvalidFormat(Seq<char>),
    EmptyNumber,
    MultipleDecimals,
    InvalidSexagesimalDigit(char),
}

impl View for NumberError {
    type V = NumberErrorView;

    open spec fn view(&self) -> NumberErrorView {
        match self {
            NumberError::InvalidFormat(message) => NumberErrorView::InvalidFormat(message@),
            NumberError::EmptyNumber => NumberErrorView::EmptyNumber,
            NumberError::MultipleDecimals => NumberErrorView::MultipleDecimals,
            NumberError::InvalidSexagesimalDigit(c) => NumberErrorView::InvalidSexagesimalDigit(*c),
        }
    }
}

impl NumberErrorView {
    /// The error as a sentence.
    pub open spec fn message(self) -> Seq<char> {
        match self {
            NumberErrorView::InvalidFormat(text) => "Invalid number format: '"@ + text + "'"@,
            NumberErrorView::EmptyNumber => "Empty number string"@,
            NumberErrorView::MultipleDecimals => "Multiple decimal points in number"@,
            NumberErrorView::InvalidSexagesimalDigit(c) => "Invalid digit in base-60 number: '"@.push(
                c,
            ) + "'"@,
        }
    }
}

impl NumberError {
    /// The error as a sentence.
    pub fn to_string(&self) -> (s: String)
        ensures
            s@ == self@.message(),
    {
        match self {
            NumberError::InvalidFormat(text) => {
                let mut s = String::from_str("Invalid number format: '");
                s.append(text.as_str());
                s.append("'");
                s
            },
            NumberError::EmptyNumber => String::from_str("Empty number string"),
            NumberError::MultipleDecimals => String::from_str("Multiple decimal points in number"),
            NumberError::InvalidSexagesimalDigit(c) => {
                let mut s = String::from_str("Invalid digit in base-60 number: '");
                s.push(*c);
                s.append("'");
                s
            },
        }
    }
}

/// What is said of a fraction that is no count of sixtieths.
pub open spec fn fraction_out_of_range(fraction: int) -> NumberErrorView {
    NumberErrorView::InvalidFormat(
        "Fractional part must be between 0 and 59, got "@ + integer_text(fraction),
    )
}

/// The error for a fraction that is no count of sixtieths.
fn fraction_error(fraction: i64) -> (e: NumberError)
    ensures
        e@ == fraction_out_of_range(fraction as int),
{
    let mut message = String::from_str("Fractional part must be between 0 and 59, got ");
    push_integer(&mut message, fraction);
    NumberError::InvalidFormat(message)
}

/// A base-60 number with one digit group after the separator: whole units
/// and sixtieths. It stands for `integer_part + fractional_part / 60`.
#[derive(Debug, Clone, Copy, PartialEq, Eq)]
pub struct SexagesimalNum {
    /// The whole units; may be negative.
    pub integer_part: i64,
    /// The sixtieths, from 0 to 59.
    pub fractional_part: i64,
    /// Whether there are any sixtieths: decides how the number is shown.
    pub has_fraction: bool,
}

impl SexagesimalNum {
    /// The invariant: the sixtieths are a digit of base 60, and the flag says
    /// whether the digit is nonzero.
    pub open spec fn wf(self) -> bool {
        &&& 0 <= self.fractional_part < 60
        &&& self.has_fraction == (self.fractional_part != 0)
    }

    /// The number as a count of sixtieths: sixty times the real number that
    /// it stands for.
    pub open spec fn sixtieths(self) -> int {
        self.integer_part * 60 + self.fractional_part
    }

    /// The number with the given parts.
    pub open spec fn of_parts(integer: i64, fractional: i64) -> SexagesimalNum {
        SexagesimalNum {
            integer_part: integer,
            fractional_part: fractional,
            has_fraction: fractional != 0,
        }
    }

    /// The number that is `n` sixtieths. Where its whole units do not fit in
    /// 64 bits, the nearest bound without sixtieths.
    pub open spec fn of_sixtieths(n: int) -> SexagesimalNum {
        if n / 60 > i64::MAX {
            Self::of_parts(i64::MAX, 0)
        } else if n / 60 < i64::MIN {
            Self::of_parts(i64::MIN, 0)
        } else {
            Self::of_parts((n / 60) as i64, (n % 60) as i64)
        }
    }

    /// The number made of a floor and of a rounded count of sixtieths above
    /// it. A count of 60 carries into the whole units; a count that is no
    /// count of sixtieths at all is dropped.
    pub open spec fn of_floor_and_sixtieths(whole: i64, sixtieths: i64) -> SexagesimalNum {
        if sixtieths == 60 {
            if whole < i64::MAX {
                Self::of_parts((whole + 1) as i64, 0)
            } else {
                Self::of_parts(whole, 0)
            }
        } else if 0 <= sixtieths < 60 {
            Self::of_parts(whole, sixtieths)
        } else {
            Self::of_parts(whole, 0)
        }
    }

    /// The double nearest to the real number: the whole units plus the
    /// sixtieths divided by 60, in double arithmetic.
    pub open spec fn binary64(self) -> u64 {
        sum(of_int(self.integer_part), quotient(of_int(self.fractional_part), of_int(60)))
    }

    /// The number nearest to a double: its floor, and the sixtieths nearest
    /// to what is left above the floor.
    pub open spec fn of_binary64(bits: u64) -> SexagesimalNum {
        let whole = floor_int(bits);
        let above = difference(bits, of_int(whole));
        Self::of_floor_and_sixtieths(whole, round_int(product(above, of_int(60))))
    }

    /// How the number is shown: the whole units alone where there are no
    /// sixtieths, else the whole units, `;` and the sixtieths in two digits.
    pub open spec fn text(self) -> Seq<char> {
        if self.has_fraction {
            let fraction = integer_text(self.fractional_part as int);
            let padded = if 0 <= self.fractional_part < 10 {
                seq!['0'] + fraction
            } else {
                fraction
            };
            integer_text(self.integer_part as int).push(';') + padded
        } else {
            integer_text(self.integer_part as int)
        }
    }

    /// The number with the given whole units and sixtieths. Fails where the
    /// sixtieths are negative or 60 and more.
    pub fn new(integer: i64, fractional: i64) -> (r: Result<SexagesimalNum, NumberError>)
        ensures
            0 <= fractional < 60 ==> r == Ok::<SexagesimalNum, NumberError>(
                Self::of_parts(integer, fractional),
            ),
            !(0 <= fractional < 60) ==> r is Err && r->Err_0@ == fraction_out_of_range(
                fractional as int,
            ),
            r is Ok ==> r->Ok_0.wf() && r->Ok_0.sixtieths() == integer * 60 + fractional,
    {
        if fractional < 0 || fractional >= 60 {
            return Err(fraction_error(fractional));
        }
        Ok(
            SexagesimalNum {
                integer_part: integer,
                fractional_part: fractional,
                has_fraction: fractional != 0,
            },
        )
    }

    /// The number that is `n` sixtieths, held to the range of the whole units.
    pub fn from_sixtieths(n: i128) -> (r: SexagesimalNum)
        ensures
            r == Self::of_sixtieths(n as int),
            r.wf(),
    {
        if n >= 60 * 0x8000_0000_0000_0000 {
            SexagesimalNum { integer_part: i64::MAX, fractional_part: 0, has_fraction: false }
        } else if n < -60 * 0x8000_0000_0000_0000 {
            SexagesimalNum { integer_part: i64::MIN, fractional_part: 0, has_fraction: false }
        } else {
            let whole = if n >= 0 {
                n / 60
            } else {
                -((-(n + 1)) / 60) - 1
            };
            let fraction = n - whole * 60;
            assert(whole == n as int / 60 && fraction == n as int % 60);
            SexagesimalNum {
                integer_part: whole as i64,
                fractional_part: fraction as i64,
                has_fraction: fraction != 0,
            }
        }
    }

    /// The number made of a floor and of a rounded count of sixtieths above
    /// it: 60 sixtieths carry into the whole units.
    pub fn from_floor_and_sixtieths(whole: i64, sixtieths: i64) -> (r: SexagesimalNum)
        ensures
            r == Self::of_floor_and_sixtieths(whole, sixtieths),
            r.wf(),
    {
        if sixtieths == 60 {
            if whole < i64::MAX {
                SexagesimalNum { integer_part: whole + 1, fractional_part: 0, has_fraction: false }
            } else {
                SexagesimalNum { integer_part: whole, fractional_part: 0, has_fraction: false }
            }
        } else if 0 <= sixtieths && sixtieths < 60 {
            SexagesimalNum {
                integer_part: whole,
                fractional_part: sixtieths,
                has_fraction: sixtieths != 0,
            }
        } else {
            SexagesimalNum { integer_part: whole, fractional_part: 0, has_fraction: false }
        }
    }

    /// The number as a count of sixtieths.
    pub fn total_sixtieths(&self) -> (n: i128)
        ensures
            n == self.sixtieths(),
    {
        self.integer_part as i128 * 60 + self.fractional_part as i128
    }

    /// The bits of the double nearest to the number.
    pub fn to_f64(&self) -> (bits: u64)
        ensures
            bits == self.binary64(),
    {
        add_bits(
            int_to_bits(self.integer_part),
            div_bits(int_to_bits(self.fractional_part), int_to_bits(60)),
        )
    }

    /// The number nearest to the double with the given bits: the whole units
    /// are its floor, the sixtieths what is left above the floor, times 60
    /// and rounded; 60 sixtieths carry into the whole units.
    pub fn from_f64(bits: u64) -> (r: SexagesimalNum)
        ensures
            r == Self::of_binary64(bits),
            r.wf(),
    {
        let whole = floor_bits(bits);
        let above = sub_bits(bits, int_to_bits(whole));
        let sixtieths = round_bits(mul_bits(above, int_to_bits(60)));
        Self::from_floor_and_sixtieths(whole, sixtieths)
    }

    /// The number as it is shown.
    pub fn to_string(&self) -> (s: String)
        ensures
            s@ == self.text(),
    {
        let mut s = String::new();
        push_integer(&mut s, self.integer_part);
        if self.has_fraction {
            s.push(';');
            let mut fraction = String::new();
            push_integer(&mut fraction, self.fractional_part);
            if 0 <= self.fractional_part && self.fractional_part < 10 {
                s.push('0');
            }
            s.append(fraction.as_str());
            assert(fraction@ =~= integer_text(self.fractional_part as int));
        }
        assert(s@ =~= self.text());
        s
    }
}

/// The result of evaluating an expression.
#[derive(Debug, Clone, Copy)]
pub enum Value {
    /// A 64-bit signed integer.
    Integer(i64),
    /// An IEEE 754 double, held by its bits.
    Float(u64),
    /// A base-60 number.
    Sexagesimal(SexagesimalNum),
}

impl Value {
    /// The invariant of the value: that of the sexagesimal number, where it
    /// is one.
    pub open spec fn wf(self) -> bool {
        match self {
            Value::Sexagesimal(s) => s.wf(),
            _ => true,
        }
    }

    /// The double that stands for the value in double arithmetic.
    pub open spec fn binary64(self) -> u64 {
        match self {
            Value::Integer(i) => of_int(i),
            Value::Float(bits) => bits,
            Value::Sexagesimal(s) => s.binary64(),
        }
    }

    /// The bits of the double that stands for the value in double arithmetic.
    pub fn to_f64(&self) -> (bits: u64)
        ensures
            bits == self.binary64(),
    {
        match self {
            Value::Integer(i) => int_to_bits(*i),
            Value::Float(bits) => *bits,
            Value::Sexagesimal(s) => s.to_f64(),
        }
    }
}

/// How often `c` occurs in `s` from `from` on.
pub open spec fn occurrences(s: Seq<char>, c: char, from: int) -> nat
    decreases s.len() - from,
{
    if 0 <= from < s.len() {
        occurrences(s, c, from + 1) + if s[from] == c {
            1nat
        } else {
            0nat
        }
    } else {
        0
    }
}

/// Where `c` first occurs in `s` from `from` on; the length of `s` where it
/// does not occur.
pub open spec fn first_index(s: Seq<char>, c: char, from: int) -> int
    decreases s.len() - from,
{
    if 0 <= from < s.len() && s[from] != c {
        first_index(s, c, from + 1)
    } else {
        from
    }
}

/// What reading a numeral gives, with the error taken by its view.
pub open spec fn number_result_view(r: Result<Value, NumberError>) -> Result<
    Value,
    NumberErrorView,
> {
    match r {
        Ok(value) => Ok(value),
        Err(e) => Err(e@),
    }
}

/// The value of a base-10 numeral: with one decimal point a double, with
/// none a 64-bit integer.
pub open spec fn base10_value(s: Seq<char>) -> Result<Value, NumberErrorView> {
    let points = occurrences(s, '.', 0);
    if points > 1 {
        Err(NumberErrorView::MultipleDecimals)
    } else if points == 1 {
        if is_decimal_literal(s) && of_decimal(s) is Some {
            Ok(Value::Float(of_decimal(s)->0))
        } else {
            Err(NumberErrorView::InvalidFormat(s))
        }
    } else {
        match i64_of_text(s) {
            Some(n) => Ok(Value::Integer(n)),
            None => Err(NumberErrorView::InvalidFormat(s)),
        }
    }
}

/// The whole units and sixtieths that two texts denote: both are 64-bit
/// integers, the second from 0 to 59.
pub open spec fn parts_value(whole: Seq<char>, fraction: Seq<char>) -> Result<
    SexagesimalNum,
    NumberErrorView,
> {
    match i64_of_text(whole) {
        None => Err(NumberErrorView::InvalidFormat(whole)),
        Some(i) => match i64_of_text(fraction) {
            None => Err(NumberErrorView::InvalidFormat(fraction)),
            Some(f) => if 0 <= f < 60 {
                Ok(SexagesimalNum::of_parts(i, f))
            } else {
                Err(fraction_out_of_range(f as int))
            },
        },
    }
}

/// The value of a numeral written with `;`: a sexagesimal number, where the
/// text holds one `;` between whole units and sixtieths.
pub open spec fn sexagesimal_value(s: Seq<char>) -> Result<Value, NumberErrorView> {
    if occurrences(s, ';', 0) != 1 {
        Err(
            NumberErrorView::InvalidFormat(
                "Sexagesimal numbers must have exactly one ';' separator, got: "@ + s,
            ),
        )
    } else {
        let at = first_index(s, ';', 0);
        match parts_value(s.subrange(0, at), s.subrange(at + 1, s.len() as int)) {
            Ok(number) => Ok(Value::Sexagesimal(number)),
            Err(e) => Err(e),
        }
    }
}

/// The value of a numeral written with `,`: with one comma the double of
/// the whole units and sixtieths on its two sides; more than one comma is
/// not supported.
pub open spec fn comma_value(s: Seq<char>) -> Result<Value, NumberErrorView> {
    let commas = occurrences(s, ',', 0);
    if commas == 0 {
        base10_value(s)
    } else if commas == 1 {
        let at = first_index(s, ',', 0);
        match parts_value(s.subrange(0, at), s.subrange(at + 1, s.len() as int)) {
            Ok(number) => Ok(Value::Float(number.binary64())),
            Err(e) => Err(e),
        }
    } else {
        Err(
            NumberErrorView::InvalidFormat(
                "Multi-position base-60 numbers not yet supported"@,
            ),
        )
    }
}

/// The value of a numeral: empty text is an error; text with `;` is
/// sexagesimal; else text with `,` is in comma form; else it is base 10.
pub open spec fn numeral_value(s: Seq<char>) -> Result<Value, NumberErrorView> {
    if s.len() == 0 {
        Err(NumberErrorView::EmptyNumber)
    } else if occurrences(s, ';', 0) > 0 {
        sexagesimal_value(s)
    } else if occurrences(s, ',', 0) > 0 {
        comma_value(s)
    } else {
        base10_value(s)
    }
}

/// Counts how often `c` occurs in `text`.
fn count_char(text: &Vec<char>, c: char) -> (n: usize)
    ensures
        n == occurrences(text@, c, 0),
{
    let mut n: usize = 0;
    let mut i: usize = text.len();
    while i > 0
        invariant
            i <= text.len(),
            n == occurrences(text@, c, i as int),
            n <= text.len() - i,
        decreases i,
    {
        i = i - 1;
        if text[i] == c {
            n = n + 1;
        }
    }
    n
}

/// Finds where `c` first occurs in `text`.
fn find_char(text: &Vec<char>, c: char) -> (at: usize)
    ensures
        at == first_index(text@, c, 0),
        at <= text.len(),
        at < text.len() ==> text@[at as int] == c,
{
    let mut i: usize = 0;
    while i < text.len() && text[i] != c
        invariant
            i <= text.len(),
            first_index(text@, c, i as int) == first_index(text@, c, 0),
        decreases text.len() - i,
    {
        i = i + 1;
    }
    i
}

/// Reads the whole units before position `at` and the sixtieths after it.
fn parse_parts(text: &Vec<char>, at: usize) -> (r: Result<SexagesimalNum, NumberError>)
    requires
        at < text.len(),
    ensures
        match r {
            Ok(number) => parts_value(
                text@.subrange(0, at as int),
                text@.subrange(at + 1, text.len() as int),
            ) == Ok::<SexagesimalNum, NumberErrorView>(number) && number.wf(),
            Err(e) => parts_value(
                text@.subrange(0, at as int),
                text@.subrange(at + 1, text.len() as int),
            ) == Err::<SexagesimalNum, NumberErrorView>(e@),
        },
{
    let integer = match parse_i64(text, 0, at) {
        Some(i) => i,
        None => {
            return Err(NumberError::InvalidFormat(text_of(text, 0, at)));
        },
    };
    let fractional = match parse_i64(text, at + 1, text.len()) {
        Some(f) => f,
        None => {
            return Err(NumberError::InvalidFormat(text_of(text, at + 1, text.len())));
        },
    };
    SexagesimalNum::new(integer, fractional)
}

/// Reads a base-10 numeral: a double where the text holds one decimal
/// point, a 64-bit integer where it holds none.
pub fn parse_base10(s: &str) -> (r: Result<Value, NumberError>)
    ensures
        number_result_view(r) == base10_value(s@),
{
    let text = chars_of(s);
    let points = count_char(&text, '.');
    if points > 1 {
        return Err(NumberError::MultipleDecimals);
    }
    if points == 1 {
        if check_decimal_literal(&text) {
            match decimal_to_bits(s) {
                Some(bits) => Ok(Value::Float(bits)),
                None => Err(NumberError::InvalidFormat(String::from_str(s))),
            }
        } else {
            Err(NumberError::InvalidFormat(String::from_str(s)))
        }
    } else {
        assert(text@.subrange(0, text.len() as int) =~= text@);
        match parse_i64(&text, 0, text.len()) {
            Some(n) => Ok(Value::Integer(n)),
            None => Err(NumberError::InvalidFormat(String::from_str(s))),
        }
    }
}

/// Reads a numeral written with `;` as a sexagesimal number.
pub fn parse_sexagesimal(s: &str) -> (r: Result<Value, NumberError>)
    ensures
        number_result_view(r) == sexagesimal_value(s@),
        r matches Ok(Value::Sexagesimal(number)) ==> number.wf(),
{
    let text = chars_of(s);
    if count_char(&text, ';') != 1 {
        let mut message = String::from_str(
            "Sexagesimal numbers must have exactly one ';' separator, got: ",
        );
        message.append(s);
        return Err(NumberError::InvalidFormat(message));
    }
    let at = find_char(&text, ';');
    proof {
        lemma_occurs_before_end(text@, ';', 0);
    }
    match parse_parts(&text, at) {
        Ok(number) => Ok(Value::Sexagesimal(number)),
        Err(e) => Err(e),
    }
}

/// Reads a numeral written with `,`: one comma stands between whole units
/// and sixtieths, and the result is the double of the two.
pub fn parse_sexagesimal_comma(s: &str) -> (r: Result<Value, NumberError>)
    ensures
        number_result_view(r) == comma_value(s@),
{
    let text = chars_of(s);
    let commas = count_char(&text, ',');
    if commas == 0 {
        parse_base10(s)
    } else if commas == 1 {
        let at = find_char(&text, ',');
        proof {
            lemma_occurs_before_end(text@, ',', 0);
        }
        match parse_parts(&text, at) {
            Ok(number) => Ok(Value::Float(number.to_f64())),
            Err(e) => Err(e),
        }
    } else {
        Err(
            NumberError::InvalidFormat(
                String::from_str("Multi-position base-60 numbers not yet supported"),
            ),
        )
    }
}

/// Reads a numeral, telling the base-10 and the sexagesimal forms apart.
pub fn parse_number(s: &str) -> (r: Result<Value, NumberError>)
    ensures
        number_result_view(r) == numeral_value(s@),
        r matches Ok(Value::Sexagesimal(number)) ==> number.wf(),
{
    let text = chars_of(s);
    if text.len() == 0 {
        return Err(NumberError::EmptyNumber);
    }
    if count_char(&text, ';') > 0 {
        return parse_sexagesimal(s);
    }
    if count_char(&text, ',') > 0 {
        return parse_sexagesimal_comma(s);
    }
    parse_base10(s)
}

/// A character that occurs from `from` on is first found before the end.
pub proof fn lemma_occurs_before_end(s: Seq<char>, c: char, from: int)
    requires
        0 <= from <= s.len(),
        occurrences(s, c, from) > 0,
    ensures
        from <= first_index(s, c, from) < s.len(),
        s[first_index(s, c, from)] == c,
    decreases s.len() - from,
{
    if from < s.len() && s[from] != c {
        lemma_occurs_before_end(s, c, from + 1);
    }
}

/// A character that does not stand in a text from `from` on occurs there
/// no times.
pub proof fn lemma_absent(s: Seq<char>, c: char, from: int)
    requires
        0 <= from,
        forall|j: int| from <= j < s.len() ==> s[j] != c,
    ensures
        occurrences(s, c, from) == 0,
    decreases s.len() - from,
{
    if from < s.len() {
        lemma_absent(s, c, from + 1);
    }
}

/// A character that stands in a text from `from` on at `at` and nowhere
/// else occurs there once, and is first found at `at`.
pub proof fn lemma_single_occurrence(s: Seq<char>, c: char, at: int, from: int)
    requires
        0 <= from <= at < s.len(),
        s[at] == c,
        forall|j: int| from <= j < s.len() && j != at ==> s[j] != c,
    ensures
        occurrences(s, c, from) == 1,
        first_index(s, c, from) == at,
    decreases at - from,
{
    if from == at {
        lemma_absent(s, c, at + 1);
    } else {
        lemma_single_occurrence(s, c, at, from + 1);
    }
}

/// The text of an integer holds digits and, before them, at most a `-`.
pub proof fn lemma_integer_text_characters(n: int)
    ensures
        forall|j: int|
            0 <= j < integer_text(n).len() ==> is_digit(#[trigger] integer_text(n)[j])
                || integer_text(n)[j] == '-',
{
    if n < 0 {
        lemma_natural_text((-n) as nat);
    } else {
        lemma_natural_text(n as nat);
    }
}

/// Every numeral that is read keeps the invariant of its value.
pub proof fn lemma_numeral_well_formed(s: Seq<char>)
    ensures
        numeral_value(s) matches Ok(value) ==> value.wf(),
{
}

/// Integers round-trip through their text: the text of a 64-bit integer
/// is read as that integer.
pub proof fn lemma_integer_numeral(n: i64)
    ensures
        numeral_value(integer_text(n as int)) == Ok::<Value, NumberErrorView>(Value::Integer(n)),
{
    let s = integer_text(n as int);
    lemma_integer_text_parses(n as int);
    lemma_integer_text_characters(n as int);
    lemma_absent(s, ';', 0);
    lemma_absent(s, ',', 0);
    lemma_absent(s, '.', 0);
    if n < 0 {
        lemma_natural_text((-n) as nat);
    } else {
        lemma_natural_text(n as nat);
    }
}

/// Integer numerals round-trip: a text in the written form of an integer
/// that fits in 64 bits is read as an integer whose text is the same text.
pub proof fn lemma_numeral_round_trip(s: Seq<char>)
    requires
        is_canonical(s),
        i64_of_text(s) is Some,
    ensures
        numeral_value(s) == Ok::<Value, NumberErrorView>(Value::Integer(i64_of_text(s)->0)),
        integer_text(i64_of_text(s)->0 as int) == s,
{
    lemma_canonical_text_round_trip(s);
    let start: int = if s[0] == '-' {
        1
    } else {
        0
    };
    let digits = s.subrange(start, s.len() as int);
    assert forall|j: int| 0 <= j < s.len() implies s[j] != ';' && s[j] != ',' && s[j] != '.' by {
        if j >= start {
            assert(s[j] == digits[j - start]);
        }
    }
    lemma_absent(s, ';', 0);
    lemma_absent(s, ',', 0);
    lemma_absent(s, '.', 0);
}

/// Sexagesimal numerals: the texts of `a` and of `b`, a count of
/// sixtieths, with `;` between them are read as the sexagesimal number
/// of `a` whole units and `b` sixtieths, which is `60 * a + b` sixtieths.
pub proof fn lemma_sexagesimal_numeral(a: i64, b: i64)
    requires
        0 <= b < 60,
    ensures
        numeral_value(integer_text(a as int).push(';') + integer_text(b as int)) == Ok::<
            Value,
            NumberErrorView,
        >(Value::Sexagesimal(SexagesimalNum::of_parts(a, b))),
        SexagesimalNum::of_parts(a, b).wf(),
        SexagesimalNum::of_parts(a, b).sixtieths() == 60 * a + b,
{
    let whole = integer_text(a as int);
    let fraction = integer_text(b as int);
    let s = whole.push(';') + fraction;
    let at = whole.len() as int;
    lemma_integer_text_characters(a as int);
    lemma_integer_text_characters(b as int);
    lemma_integer_text_parses(a as int);
    lemma_integer_text_parses(b as int);
    assert forall|j: int| 0 <= j < s.len() && j != at implies s[j] != ';' by {
        if j < at {
            assert(s[j] == whole[j]);
        } else {
            assert(s[j] == fraction[j - at - 1]);
        }
    }
    lemma_single_occurrence(s, ';', at, 0);
    assert(s.subrange(0, at) =~= whole);
    assert(s.subrange(at + 1, s.len() as int) =~= fraction);
}

} // verus!
