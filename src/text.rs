//! Character classes and conversions between strings and character vectors.
use vstd::prelude::*;

verus! {

/// The White_Space property outside ASCII.
pub uninterp spec fn unicode_whitespace(c: char) -> bool;

/// The Alphabetic property outside ASCII.
pub uninterp spec fn unicode_alphabetic(c: char) -> bool;

pub open spec fn is_ascii_char(c: char) -> bool {
    (c as u32) < 128
}

pub open spec fn is_ascii_letter(c: char) -> bool {
    ('a' <= c && c <= 'z') || ('A' <= c && c <= 'Z')
}

pub open spec fn is_ascii_digit(c: char) -> bool {
    '0' <= c && c <= '9'
}

/// Whitespace: on ASCII, tab through carriage return and the space.
pub open spec fn whitespace(c: char) -> bool {
    if is_ascii_char(c) {
        ('\t' <= c && c <= '\r') || c == ' '
    } else {
        unicode_whitespace(c)
    }
}

/// Alphabetic: on ASCII, the letters; no whitespace character is alphabetic.
pub open spec fn alphabetic(c: char) -> bool {
    if is_ascii_char(c) {
        is_ascii_letter(c)
    } else {
        unicode_alphabetic(c) && !unicode_whitespace(c)
    }
}

/// A decimal digit.
pub open spec fn numeric(c: char) -> bool {
    is_ascii_digit(c)
}

/// Relies on `char::is_whitespace`: the White_Space property, which on ASCII
/// holds of U+0009 to U+000D and of U+0020.
#[verifier::external_body]
pub fn char_is_whitespace(c: char) -> (r: bool)
    ensures
        r == whitespace(c),
        !is_ascii_char(c) ==> r == unicode_whitespace(c),
{
    c.is_whitespace()
}

/// Relies on `char::is_alphabetic`: the Alphabetic property, which on ASCII
/// holds of the letters alone, and which in Unicode's tables no White_Space
/// character has.
#[verifier::external_body]
pub fn char_is_alphabetic(c: char) -> (r: bool)
    ensures
        r == alphabetic(c),
        !is_ascii_char(c) ==> r == unicode_alphabetic(c),
        !is_ascii_char(c) && r ==> !unicode_whitespace(c),
{
    c.is_alphabetic()
}

/// Whether `c` is a decimal digit.
pub fn is_digit(c: char) -> (r: bool)
    ensures
        r == numeric(c),
{
    '0' <= c && c <= '9'
}

/// Relies on `str::chars`: the characters of the string, in order.
#[verifier::external_body]
pub fn chars_of(s: &str) -> (r: Vec<char>)
    ensures
        r@ == s@,
{
    s.chars().collect()
}

/// Relies on `String`'s `FromIterator<char>`: the characters, in order.
#[verifier::external_body]
pub fn string_of(v: &Vec<char>) -> (r: String)
    ensures
        r@ == v@,
{
    v.iter().collect()
}

/// Whether two character sequences are equal.
pub fn same_chars(a: &Vec<char>, b: &Vec<char>) -> (r: bool)
    ensures
        r == (a@ == b@),
{
    if a.len() != b.len() {
        return false;
    }
    let mut i: usize = 0;
    while i < a.len()
        invariant
            a@.len() == b@.len(),
            i <= a@.len(),
            forall|j: int| 0 <= j < i ==> a@[j] == b@[j],
        decreases a@.len() - i,
    {
        if a[i] != b[i] {
            return false;
        }
        i = i + 1;
    }
    assert(a@ =~= b@);
    true
}

} // verus!
