//! Character properties.
//!
//! The ASCII half of every property is computed here. Outside ASCII the standard library's
//! Unicode tables decide, through the wrappers at the end of this file.

use vstd::prelude::*;

verus! {

/// `A` to `Z`.
pub open spec fn ascii_upper(c: char) -> bool {
    'A' <= c <= 'Z'
}

/// `A` to `Z` or `a` to `z`.
pub open spec fn ascii_letter(c: char) -> bool {
    ascii_upper(c) || 'a' <= c <= 'z'
}

/// `0` to `9`.
pub open spec fn ascii_digit(c: char) -> bool {
    '0' <= c <= '9'
}

/// The ASCII range.
pub open spec fn ascii(c: char) -> bool {
    (c as u32) < 0x80
}

/// The characters with the Unicode property `White_Space`.
pub open spec fn whitespace(c: char) -> bool {
    let n = c as u32;
    ||| 0x09 <= n <= 0x0d
    ||| n == 0x20
    ||| n == 0x85
    ||| n == 0xa0
    ||| n == 0x1680
    ||| 0x2000 <= n <= 0x200a
    ||| n == 0x2028
    ||| n == 0x2029
    ||| n == 0x202f
    ||| n == 0x205f
    ||| n == 0x3000
}

/// A letter.
pub open spec fn alphabetic(c: char) -> bool {
    if ascii(c) {
        ascii_letter(c)
    } else {
        unicode_alphabetic(c)
    }
}

/// A letter or a number.
pub open spec fn alphanumeric(c: char) -> bool {
    if ascii(c) {
        ascii_letter(c) || ascii_digit(c)
    } else {
        unicode_alphanumeric(c)
    }
}

/// `c` with an ASCII capital made small.
pub open spec fn lower(c: char) -> char {
    if ascii_upper(c) {
        ((c as u32) + 32) as char
    } else {
        c
    }
}

/// The uppercase of `c`, which may take more than one character.
pub open spec fn uppercase(c: char) -> Seq<char> {
    if !ascii(c) {
        unicode_uppercase(c)
    } else if 'a' <= c <= 'z' {
        seq![((c as u32) - 32) as char]
    } else {
        seq![c]
    }
}

/// `s` with every ASCII capital made small.
pub open spec fn ascii_lowercase(s: Seq<char>) -> Seq<char> {
    s.map_values(|c: char| lower(c))
}

/// Every character of `s` is ASCII.
pub open spec fn all_ascii(s: Seq<char>) -> bool {
    forall|i: int| 0 <= i < s.len() ==> ascii(#[trigger] s[i])
}

/// The lowercase of `s`.
pub open spec fn lowercase(s: Seq<char>) -> Seq<char> {
    if all_ascii(s) {
        ascii_lowercase(s)
    } else {
        unicode_lowercase(s)
    }
}

/// A character is its code, and a small code fits in a byte.
pub proof fn lemma_code(c: char)
    ensures
        (c as u32) as char == c,
        (c as u32) < 0x100 ==> c as u8 == c as u32,
{
}

pub fn is_whitespace(c: char) -> (r: bool)
    ensures
        r == whitespace(c),
{
    let n: u32 = c as u32;
    (0x09 <= n && n <= 0x0d) || n == 0x20 || n == 0x85 || n == 0xa0 || n == 0x1680 || (0x2000 <= n
        && n <= 0x200a) || n == 0x2028 || n == 0x2029 || n == 0x202f || n == 0x205f || n == 0x3000
}

pub fn is_alphabetic(c: char) -> (r: bool)
    ensures
        r == alphabetic(c),
{
    if (c as u32) < 0x80 {
        ('A' <= c && c <= 'Z') || ('a' <= c && c <= 'z')
    } else {
        is_unicode_alphabetic(c)
    }
}

pub fn is_alphanumeric(c: char) -> (r: bool)
    ensures
        r == alphanumeric(c),
{
    if (c as u32) < 0x80 {
        ('A' <= c && c <= 'Z') || ('a' <= c && c <= 'z') || ('0' <= c && c <= '9')
    } else {
        is_unicode_alphanumeric(c)
    }
}

pub fn to_lower(c: char) -> (r: char)
    ensures
        r == lower(c),
{
    if 'A' <= c && c <= 'Z' {
        ((c as u8) + 32) as char
    } else {
        c
    }
}

/// The name of what `char::is_alphabetic` returns.
pub uninterp spec fn unicode_alphabetic(c: char) -> bool;

/// The name of what `char::is_alphanumeric` returns.
pub uninterp spec fn unicode_alphanumeric(c: char) -> bool;

/// The name of the characters that `char::to_uppercase` yields.
pub uninterp spec fn unicode_uppercase(c: char) -> Seq<char>;

/// The name of what `str::to_lowercase` returns.
pub uninterp spec fn unicode_lowercase(s: Seq<char>) -> Seq<char>;

/// Calls `char::is_alphabetic`: whether a character outside ASCII has the Unicode property
/// `Alphabetic`. Which ones do is in the standard library's tables and is not restated.
#[verifier::external_body]
fn is_unicode_alphabetic(c: char) -> (r: bool)
    ensures
        r == unicode_alphabetic(c),
{
    c.is_alphabetic()
}

/// Calls `char::is_alphanumeric`: whether a character outside ASCII is a letter or a number in
/// the sense of Unicode. Which ones are is in the standard library's tables and is not restated.
#[verifier::external_body]
fn is_unicode_alphanumeric(c: char) -> (r: bool)
    ensures
        r == unicode_alphanumeric(c),
{
    c.is_alphanumeric()
}

/// Calls `char::to_uppercase`: the uppercase mapping of a character, which has one or more
/// characters, as a string. The mapping is in the standard library's tables and is not
/// restated.
#[verifier::external_body]
pub(crate) fn to_unicode_uppercase(c: char) -> (r: String)
    ensures
        r@ == unicode_uppercase(c),
        r@.len() > 0,
{
    c.to_uppercase().to_string()
}

/// Calls `str::to_lowercase`: the lowercase of a string. The mapping is in the standard
/// library's tables and is not restated.
#[verifier::external_body]
pub(crate) fn to_unicode_lowercase(s: &str) -> (r: String)
    ensures
        r@ == unicode_lowercase(s@),
{
    s.to_lowercase()
}

/// ASCII letters change case by the distance between the two alphabets, every other ASCII
/// character is left alone, and case goes back and forth. Outside ASCII the capital is what the
/// standard library's table has.
pub proof fn law_ascii_case(c: char)
    ensures
        'A' <= c <= 'Z' ==> lower(c) as int == c as int + ('a' as int - 'A' as int),
        !('A' <= c <= 'Z') ==> lower(c) == c,
        'a' <= c <= 'z' ==> uppercase(c).len() == 1 && uppercase(c)[0] as int == c as int - (
        'a' as int - 'A' as int) && lower(uppercase(c)[0]) == c,
        (c as int) < 128 && !('a' <= c <= 'z') ==> uppercase(c) == seq![c],
        c as int >= 128 ==> uppercase(c) == unicode_uppercase(c),
{
}

/// Of ASCII, the letters are `A` to `Z` and `a` to `z`, and the digits count as alphanumeric
/// besides; outside ASCII the standard library's tables decide.
pub proof fn law_letters_and_digits(c: char)
    ensures
        (c as int) < 128 ==> (alphabetic(c) <==> 'A' <= c <= 'Z' || 'a' <= c <= 'z'),
        (c as int) < 128 ==> (alphanumeric(c) <==> alphabetic(c) || '0' <= c <= '9'),
        c as int >= 128 ==> alphabetic(c) == unicode_alphabetic(c) && alphanumeric(c)
            == unicode_alphanumeric(c),
{
}

/// Of ASCII, white space is the space and tab to carriage return; besides, there are the
/// separators of Unicode.
pub proof fn law_white_space(c: char)
    ensures
        (c as int) < 128 ==> (whitespace(c) <==> c == ' ' || '\t' <= c <= '\r'),
        c as int >= 128 ==> (whitespace(c) <==> c == '\u{85}' || c == '\u{a0}' || c == '\u{1680}' || (
        '\u{2000}' <= c <= '\u{200a}') || c == '\u{2028}' || c == '\u{2029}' || c == '\u{202f}' || c
            == '\u{205f}' || c == '\u{3000}'),
{
}

/// Lowering ASCII letters keeps the length and every other character, and goes character by
/// character.
pub proof fn law_ascii_lowercase(s: Seq<char>, i: int)
    requires
        0 <= i < s.len(),
    ensures
        ascii_lowercase(s).len() == s.len(),
        'A' <= s[i] <= 'Z' ==> ascii_lowercase(s)[i] as int == s[i] as int + 32,
        !('A' <= s[i] <= 'Z') ==> ascii_lowercase(s)[i] == s[i],
{
}

/// The lowercase of a text in ASCII lowers its letters; as soon as one character is outside
/// ASCII, the standard library decides on the whole.
pub proof fn law_lowercase(s: Seq<char>)
    ensures
        (forall|i: int| 0 <= i < s.len() ==> (#[trigger] s[i] as int) < 128) ==> lowercase(s)
            == ascii_lowercase(s),
        (exists|i: int| 0 <= i < s.len() && #[trigger] s[i] as int >= 128) ==> lowercase(s)
            == unicode_lowercase(s),
{
    if forall|i: int| 0 <= i < s.len() ==> (#[trigger] s[i] as int) < 128 {
        assert forall|i: int| 0 <= i < s.len() implies ascii(#[trigger] s[i]) by {
            lemma_ascii(s[i]);
        }
    }
    if exists|i: int| 0 <= i < s.len() && #[trigger] s[i] as int >= 128 {
        let i = choose|i: int| 0 <= i < s.len() && #[trigger] s[i] as int >= 128;
        lemma_ascii(s[i]);
    }
}

proof fn lemma_ascii(c: char)
    ensures
        ascii(c) <==> (c as int) < 128,
{
}

} // verus!
