//! Conversions between strings and sequences of characters.

use vstd::prelude::*;

verus! {

/// `String::push` appends the given character to the end of the string.
pub assume_specification[ String::push ](s: &mut String, c: char)
    ensures
        final(s)@ == old(s)@.push(c),
;

/// Whether a character has the Unicode property `Alphabetic`.
pub uninterp spec fn is_alphabetic(c: char) -> bool;

/// `char::is_alphabetic`: says whether the character has the Unicode property
/// `Alphabetic`, which depends on the character alone.
#[verifier::external_body]
fn char_is_alphabetic(c: char) -> (b: bool)
    ensures
        b == is_alphabetic(c),
{
    c.is_alphabetic()
}

/// Whether a character is a letter: within ASCII the letters from `a` to
/// `z` and from `A` to `Z`, beyond ASCII the characters with the Unicode
/// property `Alphabetic`.
pub open spec fn is_letter(c: char) -> bool {
    if c <= '\x7f' {
        'a' <= c <= 'z' || 'A' <= c <= 'Z'
    } else {
        is_alphabetic(c)
    }
}

/// Whether a character is a letter.
pub fn char_is_letter(c: char) -> (b: bool)
    ensures
        b == is_letter(c),
{
    if c <= '\x7f' {
        ('a' <= c && c <= 'z') || ('A' <= c && c <= 'Z')
    } else {
        char_is_alphabetic(c)
    }
}

/// Whether a character is one of the ten ASCII digits.
pub open spec fn is_digit(c: char) -> bool {
    '0' <= c <= '9'
}

/// Whether a character is one of the ten ASCII digits.
pub fn char_is_digit(c: char) -> (b: bool)
    ensures
        b == is_digit(c),
{
    '0' <= c && c <= '9'
}

/// The end of the longest run of digits that starts at `start`.
pub open spec fn digits_end(s: Seq<char>, start: int) -> int
    decreases s.len() - start,
{
    if 0 <= start < s.len() && is_digit(s[start]) {
        digits_end(s, start + 1)
    } else {
        start
    }
}

/// A run of digits ends at or after its start, within the text.
pub proof fn lemma_digits_end_bounds(s: Seq<char>, start: int)
    requires
        0 <= start <= s.len(),
    ensures
        start <= digits_end(s, start) <= s.len(),
    decreases s.len() - start,
{
    if start < s.len() && is_digit(s[start]) {
        lemma_digits_end_bounds(s, start + 1);
    }
}

/// Where the digits of a signed text start: after a leading `+` or `-`.
pub open spec fn after_sign(text: Seq<char>, start: int) -> int {
    if 0 <= start < text.len() && (text[start] == '+' || text[start] == '-') {
        start + 1
    } else {
        start
    }
}

/// The characters of `s`, in order.
pub fn chars_of(s: &str) -> (v: Vec<char>)
    ensures
        v@ == s@,
{
    let mut v: Vec<char> = Vec::new();
    for c in it: s.chars()
        invariant
            it.seq() == s@,
            v@ == s@.subrange(0, it.index() as int),
    {
        v.push(c);
    }
    assert(v@ =~= s@);
    v
}

/// The string made of the characters `v[from..to]`.
pub fn text_of(v: &Vec<char>, from: usize, to: usize) -> (s: String)
    requires
        from <= to <= v.len(),
    ensures
        s@ == v@.subrange(from as int, to as int),
{
    let mut s = String::new();
    let mut i: usize = from;
    while i < to
        invariant
            from <= i <= to <= v.len(),
            s@ == v@.subrange(from as int, i as int),
        decreases to - i,
    {
        s.push(v[i]);
        assert(v@.subrange(from as int, i as int).push(v@[i as int]) =~= v@.subrange(
            from as int,
            i + 1,
        ));
        i = i + 1;
    }
    s
}

} // verus!
