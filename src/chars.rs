//! Character classes used by the lexer, and the UTF-8 width of a character.
use vstd::prelude::*;

verus! {

/// `c` is an ASCII decimal digit.
pub open spec fn spec_is_digit(c: char) -> bool {
    '0' <= c && c <= '9'
}

/// `c` is a line break.
pub open spec fn spec_is_linebreak(c: char) -> bool {
    c == '\n'
}

/// `c` is skipped between tokens: space, tab, line feed or carriage return.
pub open spec fn spec_is_whitespace(c: char) -> bool {
    c == ' ' || c == '\t' || c == '\n' || c == '\r'
}

/// `c` opens a number literal.
pub open spec fn spec_is_start_of_number(c: char) -> bool {
    spec_is_digit(c) || c == '.'
}

/// `c` is an ASCII letter.
pub open spec fn spec_is_ascii_letter(c: char) -> bool {
    ('a' <= c && c <= 'z') || ('A' <= c && c <= 'Z')
}

/// Whether `c` has the Unicode `Alphabetic` property, as `char::is_alphabetic` decides it.
pub uninterp spec fn alphabetic(c: char) -> bool;

/// `c` may open an identifier: an underscore, an ASCII letter, or a non-ASCII
/// character with the Unicode `Alphabetic` property.
pub open spec fn spec_is_letter(c: char) -> bool {
    c == '_' || spec_is_ascii_letter(c) || ((c as u32) > 0x7f && alphabetic(c))
}

/// `c` may continue an identifier: a letter or an ASCII digit.
pub open spec fn spec_is_ident_char(c: char) -> bool {
    spec_is_letter(c) || spec_is_digit(c)
}

/// Relies on `char::is_alphabetic`: whether `c` has the Unicode `Alphabetic`
/// property, which depends on the character alone.
#[verifier::external_body]
fn unicode_alphabetic(c: char) -> (r: bool)
    ensures
        r == alphabetic(c),
{
    c.is_alphabetic()
}

/// Checks if the char is a line break.
pub fn is_linebreak(c: &char) -> (r: bool)
    ensures
        r == spec_is_linebreak(*c),
{
    *c == '\n'
}

/// Checks if the char is whitespace between tokens.
pub fn is_whitespace(c: &char) -> (r: bool)
    ensures
        r == spec_is_whitespace(*c),
{
    *c == ' ' || *c == '\t' || *c == '\n' || *c == '\r'
}

/// Checks if the char can open a number literal.
pub fn is_start_of_number(c: &char) -> (r: bool)
    ensures
        r == spec_is_start_of_number(*c),
{
    is_digit(c) || *c == '.'
}

/// Checks if the char is an ASCII digit.
pub fn is_digit(c: &char) -> (r: bool)
    ensures
        r == spec_is_digit(*c),
{
    '0' <= *c && *c <= '9'
}

/// Checks if the char can open an identifier.
pub fn is_letter(c: &char) -> (r: bool)
    ensures
        r == spec_is_letter(*c),
{
    if *c == '_' || ('a' <= *c && *c <= 'z') || ('A' <= *c && *c <= 'Z') {
        true
    } else if (*c as u32) > 0x7f {
        unicode_alphabetic(*c)
    } else {
        false
    }
}

/// Checks if the char can continue an identifier.
pub fn is_ident_char(c: &char) -> (r: bool)
    ensures
        r == spec_is_ident_char(*c),
{
    is_letter(c) || is_digit(c)
}

/// Number of bytes in the UTF-8 encoding of `c`.
pub open spec fn utf8_width(c: char) -> nat {
    if (c as u32) < 0x80 {
        1
    } else if (c as u32) < 0x800 {
        2
    } else if (c as u32) < 0x10000 {
        3
    } else {
        4
    }
}

/// Number of bytes in the UTF-8 encoding of `s`.
pub open spec fn utf8_len(s: Seq<char>) -> nat
    decreases s.len(),
{
    if s.len() == 0 {
        0
    } else {
        utf8_width(s[0]) + utf8_len(s.drop_first())
    }
}

/// Byte offset of the character at index `i` of `s`.
pub open spec fn byte_offset(s: Seq<char>, i: int) -> nat {
    utf8_len(s.take(i))
}

/// Number of bytes in the UTF-8 encoding of `c`.
pub fn char_width(c: char) -> (r: usize)
    ensures
        r == utf8_width(c),
{
    let u = c as u32;
    if u < 0x80 {
        1
    } else if u < 0x800 {
        2
    } else if u < 0x10000 {
        3
    } else {
        4
    }
}

/// The UTF-8 length of a concatenation is the sum of the lengths.
pub proof fn lemma_utf8_len_concat(a: Seq<char>, b: Seq<char>)
    ensures
        utf8_len(a + b) == utf8_len(a) + utf8_len(b),
    decreases a.len(),
{
    if a.len() == 0 {
        assert(a + b =~= b);
    } else {
        assert((a + b).drop_first() =~= a.drop_first() + b);
        lemma_utf8_len_concat(a.drop_first(), b);
    }
}

/// Stepping over one character adds its width to the byte offset.
pub proof fn lemma_byte_offset_step(s: Seq<char>, i: int)
    requires
        0 <= i < s.len(),
    ensures
        byte_offset(s, i + 1) == byte_offset(s, i) + utf8_width(s[i]),
{
    assert(s.take(i + 1) =~= s.take(i) + seq![s[i]]);
    lemma_utf8_len_concat(s.take(i), seq![s[i]]);
    assert(seq![s[i]].drop_first() =~= Seq::<char>::empty());
    reveal_with_fuel(utf8_len, 2);
}

/// A byte offset is never past the end of the text.
pub proof fn lemma_byte_offset_bound(s: Seq<char>, i: int)
    requires
        0 <= i <= s.len(),
    ensures
        byte_offset(s, i) <= utf8_len(s),
        byte_offset(s, s.len() as int) == utf8_len(s),
{
    assert(s =~= s.take(i) + s.skip(i));
    lemma_utf8_len_concat(s.take(i), s.skip(i));
    assert(s.take(s.len() as int) =~= s);
}

/// The UTF-8 encoding that vstd describes has `utf8_len` bytes.
pub proof fn lemma_encode_utf8_len(s: Seq<char>)
    ensures
        vstd::utf8::encode_utf8(s).len() == utf8_len(s),
    decreases s.len(),
{
    if s.len() > 0 {
        vstd::utf8::char_is_scalar(s[0]);
        lemma_encode_utf8_len(s.drop_first());
    }
}

} // verus!
