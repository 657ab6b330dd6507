//! Character classes of the lexer, and comparison of texts.

use vstd::prelude::*;

verus! {

/// Whether a character beyond ASCII has the Unicode `Alphabetic` property.
pub uninterp spec fn unicode_alphabetic(c: char) -> bool;

/// Whether a character beyond ASCII has the Unicode `White_Space` property.
pub uninterp spec fn unicode_white_space(c: char) -> bool;

/// Whether a character is a letter: in ASCII `a` to `z` and `A` to `Z`, and
/// beyond ASCII what has the Unicode `Alphabetic` property.
pub open spec fn char_is_alphabetic(c: char) -> bool {
    if c <= '\x7f' {
        ('a' <= c && c <= 'z') || ('A' <= c && c <= 'Z')
    } else {
        unicode_alphabetic(c)
    }
}

/// Whether a character is white space: in ASCII the blank and the
/// characters from the tabulator to the carriage return, and beyond ASCII
/// what has the Unicode `White_Space` property.
pub open spec fn char_is_whitespace(c: char) -> bool {
    if c <= '\x7f' {
        c == ' ' || ('\t' <= c && c <= '\r')
    } else {
        unicode_white_space(c)
    }
}

/// `char::is_alphabetic` of the standard library decides the Unicode
/// `Alphabetic` property from the character alone. Of the ASCII characters
/// the letters have it and no other; beyond ASCII the contract only names
/// the answer.
pub assume_specification[ char::is_alphabetic ](c: char) -> (r: bool)
    ensures
        c <= '\x7f' ==> r == (('a' <= c && c <= 'z') || ('A' <= c && c <= 'Z')),
        c > '\x7f' ==> r == unicode_alphabetic(c),
;

/// `char::is_whitespace` of the standard library decides the Unicode
/// `White_Space` property from the character alone. Of the ASCII characters
/// the blank and the five from U+0009 to U+000D have it and no other; beyond
/// ASCII the contract only names the answer.
pub assume_specification[ char::is_whitespace ](c: char) -> (r: bool)
    ensures
        c <= '\x7f' ==> r == (c == ' ' || ('\t' <= c && c <= '\r')),
        c > '\x7f' ==> r == unicode_white_space(c),
;

/// A decimal digit, `0` to `9`.
pub open spec fn is_decimal_digit(c: char) -> bool {
    '0' <= c && c <= '9'
}

/// A character that may continue an identifier: a letter, an underscore, a
/// decimal digit, or a square bracket of an array type.
pub open spec fn is_ident_part(c: char) -> bool {
    char_is_alphabetic(c) || c == '_' || is_decimal_digit(c) || c == '[' || c == ']'
}

/// Decides [`char_is_whitespace`].
pub fn whitespace(c: char) -> (r: bool)
    ensures
        r == char_is_whitespace(c),
{
    c.is_whitespace()
}

/// Decides [`is_ident_part`].
pub fn ident_part(c: char) -> (r: bool)
    ensures
        r == is_ident_part(c),
{
    c.is_alphabetic() || c == '_' || ('0' <= c && c <= '9') || c == '[' || c == ']'
}

/// Whether two texts hold the same characters.
pub fn same_text(a: &str, b: &str) -> (r: bool)
    ensures
        r == (a@ == b@),
{
    let n = a.unicode_len();
    if n != b.unicode_len() {
        return false;
    }
    let mut i: usize = 0;
    while i < n
        invariant
            i <= n,
            n == a@.len(),
            n == b@.len(),
            forall|j: int| 0 <= j < i ==> a@[j] == b@[j],
        decreases n - i,
    {
        if a.get_char(i) != b.get_char(i) {
            return false;
        }
        i += 1;
    }
    assert(a@ =~= b@);
    true
}

} // verus!
