//! Character classes and the few character and string operations of std
//! that the tokenizer relies on.
use vstd::prelude::*;
use vstd::utf8::is_scalar;

verus! {

/// Unicode's White_Space property, which is what char::is_whitespace tests:
/// U+0009 to U+000D, U+0020, U+0085, U+00A0, U+1680, U+2000 to U+200A,
/// U+2028, U+2029, U+202F, U+205F and U+3000.
pub open spec fn white_space(c: char) -> bool {
    let v = c as u32;
    (0x09 <= v <= 0x0D) || v == 0x20 || v == 0x85 || v == 0xA0 || v == 0x1680 || (0x2000 <= v
        <= 0x200A) || v == 0x2028 || v == 0x2029 || v == 0x202F || v == 0x205F || v == 0x3000
}

pub fn is_whitespace(c: char) -> (r: bool)
    ensures
        r == white_space(c),
{
    let v = c as u32;
    (0x09 <= v && v <= 0x0D) || v == 0x20 || v == 0x85 || v == 0xA0 || v == 0x1680 || (0x2000
        <= v && v <= 0x200A) || v == 0x2028 || v == 0x2029 || v == 0x202F || v == 0x205F || v
        == 0x3000
}

/// What char::is_alphabetic answers (Unicode's Alphabetic property).
pub uninterp spec fn alphabetic(c: char) -> bool;

/// What char::is_numeric answers (the general categories Nd, Nl and No).
pub uninterp spec fn numeric(c: char) -> bool;

/// Whether a character is alphabetic: on ASCII exactly the Latin letters.
pub open spec fn letter(c: char) -> bool {
    if (c as u32) < 0x80 {
        ('a' <= c <= 'z') || ('A' <= c <= 'Z')
    } else {
        alphabetic(c)
    }
}

/// Whether a character is numeric: on ASCII exactly the decimal digits.
pub open spec fn digit(c: char) -> bool {
    if (c as u32) < 0x80 {
        '0' <= c <= '9'
    } else {
        numeric(c)
    }
}

/// Relies on char::is_alphabetic, which tests the Alphabetic property and
/// on ASCII holds of `a..=z` and `A..=Z` alone.
#[verifier::external_body]
pub(crate) fn is_alphabetic(c: char) -> (r: bool)
    ensures
        r == alphabetic(c),
        r == letter(c),
{
    c.is_alphabetic()
}

/// Relies on char::is_numeric, which tests the numeric general categories
/// and on ASCII holds of `0..=9` alone.
#[verifier::external_body]
pub(crate) fn is_numeric(c: char) -> (r: bool)
    ensures
        r == numeric(c),
        r == digit(c),
{
    c.is_numeric()
}

/// A character that may continue a word: alphabetic or numeric (what
/// char::is_alphanumeric documents itself to be), or an underscore.
pub open spec fn word_char(c: char) -> bool {
    letter(c) || digit(c) || c == '_'
}

pub(crate) fn is_word_char(c: char) -> (r: bool)
    ensures
        r == word_char(c),
{
    is_alphabetic(c) || is_numeric(c) || c == '_'
}

/// Relies on char::from_u32: `Some` exactly for a Unicode scalar value,
/// and then the character with that value.
#[verifier::external_body]
pub(crate) fn char_from_u32(v: u32) -> (r: Option<char>)
    ensures
        r == (if is_scalar(v) { Some(v as char) } else { None::<char> }),
{
    char::from_u32(v)
}

/// Relies on String::push: appends one character.
#[verifier::external_body]
fn push_char(s: &mut String, c: char)
    ensures
        final(s)@ == old(s)@.push(c),
{
    s.push(c)
}

/// The string made of the given characters, in order.
pub(crate) fn string_of(chars: &Vec<char>) -> (r: String)
    ensures
        r@ == chars@,
{
    let mut s = String::new();
    let mut i: usize = 0;
    while i < chars.len()
        invariant
            i <= chars.len(),
            s@ == chars@.subrange(0, i as int),
        decreases chars.len() - i,
    {
        push_char(&mut s, chars[i]);
        i = i + 1;
        assert(s@ =~= chars@.subrange(0, i as int));
    }
    assert(s@ =~= chars@);
    s
}

/// The characters that make up operators: `+ - * / , . = > < | & ? : ; ( ) [ ] { }`.
pub open spec fn operator_char(c: char) -> bool {
    c == '+' || c == '-' || c == '*' || c == '/' || c == ',' || c == '.' || c == '='
        || c == '>' || c == '<' || c == '|' || c == '&' || c == '?' || c == ':' || c == ';'
        || c == '(' || c == ')' || c == '[' || c == ']' || c == '{' || c == '}'
}

/// Operator characters are none of letters, digits, whitespace, the
/// underscore and the quote, so a token's first character picks one mode.
pub proof fn lemma_operator_class_disjoint(c: char)
    requires
        operator_char(c),
    ensures
        !letter(c),
        !digit(c),
        !white_space(c),
        c != '_',
        c != '"',
{
}

pub fn is_operator(c: char) -> (r: bool)
    ensures
        r == operator_char(c),
{
    match c {
        '+' | '-' | '*' | '/' | ',' | '.' | '=' | '>' | '<' | '|' | '&' | '?' | ':' | ';' | '('
        | ')' | '[' | ']' | '{' | '}' => true,
        _ => false,
    }
}

} // verus!
