//! The Unicode character classes and case mapping the tokenizer relies on.
use vstd::prelude::*;

verus! {

/// Whether `c` has the Unicode Alphabetic property, as `char::is_alphabetic` reports it.
pub uninterp spec fn alphabetic(c: char) -> bool;

/// Whether `c` is in a Unicode numeric category (Nd, Nl, No), as `char::is_numeric` reports it.
pub uninterp spec fn numeric(c: char) -> bool;

/// Whether `c` has the Unicode White_Space property, as `char::is_whitespace` reports it:
/// the 25 code points U+0009 to U+000D, U+0020, U+0085, U+00A0, U+1680, U+2000 to U+200A,
/// U+2028, U+2029, U+202F, U+205F and U+3000 (PropList.txt of the Unicode Character
/// Database).
pub open spec fn whitespace(c: char) -> bool {
    let u = c as u32;
    ||| 0x09 <= u <= 0x0d
    ||| u == 0x20
    ||| u == 0x85
    ||| u == 0xa0
    ||| u == 0x1680
    ||| 0x2000 <= u <= 0x200a
    ||| u == 0x2028
    ||| u == 0x2029
    ||| u == 0x202f
    ||| u == 0x205f
    ||| u == 0x3000
}

/// The lowercase mapping of a string, as `str::to_lowercase` computes it.
pub uninterp spec fn lowercase(s: Seq<char>) -> Seq<char>;

/// Wraps `char::is_alphabetic`. The contract only names the result `alphabetic(c)`; which
/// characters have the Unicode Alphabetic property is not restated.
#[verifier::external_body]
pub(crate) fn is_letter(c: char) -> (r: bool)
    ensures
        r == alphabetic(c),
{
    c.is_alphabetic()
}

/// Wraps `char::is_numeric`. The contract only names the result `numeric(c)`; which
/// characters are in the numeric categories is not restated.
#[verifier::external_body]
pub(crate) fn is_number(c: char) -> (r: bool)
    ensures
        r == numeric(c),
{
    c.is_numeric()
}

/// Wraps `char::is_whitespace`, which reports the Unicode White_Space property; the
/// contract states that property as its list of code points (see `whitespace`).
#[verifier::external_body]
pub(crate) fn is_space(c: char) -> (r: bool)
    ensures
        r == whitespace(c),
{
    c.is_whitespace()
}

/// Wraps `str::to_lowercase`. The contract only names the result `lowercase(s)`; the
/// Unicode lowercase mappings are not restated.
#[verifier::external_body]
pub(crate) fn to_lowercase(s: &str) -> (r: String)
    ensures
        r@ == lowercase(s@),
{
    s.to_lowercase()
}

/// `String::push`: appends one character.
#[verifier::external_body]
pub(crate) fn push_char(s: &mut String, c: char)
    ensures
        final(s)@ == old(s)@.push(c),
{
    s.push(c);
}

/// `char::from_u32`: the character with this scalar value, and nothing for a surrogate or a
/// number past `0x10FFFF`, as its documentation says.
#[verifier::external_body]
pub(crate) fn char_from_u32(x: u32) -> (r: Option<char>)
    ensures
        r matches Some(c) ==> c as u32 == x,
        r is Some <==> (x < 0xD800 || (0xE000 <= x && x <= 0x10FFFF)),
{
    char::from_u32(x)
}

/// The characters of `s`, in order.
pub fn to_chars(s: &str) -> (v: Vec<char>)
    ensures
        v@ == s@,
{
    let mut v: Vec<char> = Vec::new();
    for c in it: s.chars()
        invariant
            v@ == it.seq().take(it.index() as int),
    {
        v.push(c);
    }
    v
}

} // verus!
