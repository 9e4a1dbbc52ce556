//! Character classes of the language.

use vstd::prelude::*;
use crate::token::NumberBase;

verus! {

/// Tab, line feed, vertical tab, form feed, carriage return and space.
pub open spec fn spec_is_whitespace(c: char) -> bool {
    c == '\u{0009}' || c == '\u{000A}' || c == '\u{000B}' || c == '\u{000C}' || c == '\u{000D}'
        || c == '\u{0020}'
}

/// The control characters of ASCII: U+0000 to U+001F, and U+007F.
pub open spec fn is_ascii_control(c: char) -> bool {
    c as u32 <= 0x1F || c == '\u{007F}'
}

/// The operators, brackets, separators and quotes, none of which an identifier can hold.
pub open spec fn is_reserved_symbol(c: char) -> bool {
    c == '+' || c == '-' || c == '*' || c == '/' || c == '%' || c == '^' || c == '#' || c == '&'
        || c == '~' || c == '|' || c == '<' || c == '>' || c == '=' || c == '(' || c == ')' || c
        == '{' || c == '}' || c == '[' || c == ']' || c == ';' || c == ':' || c == ',' || c == '.'
        || c == '\\' || c == '\'' || c == '"'
}

/// `0` to `9`.
pub open spec fn spec_is_decimal_digit(c: char) -> bool {
    '0' <= c <= '9'
}

/// `0` to `9`, `a` to `f` and `A` to `F`.
pub open spec fn spec_is_hexadecimal_digit(c: char) -> bool {
    '0' <= c <= '9' || 'a' <= c <= 'f' || 'A' <= c <= 'F'
}

/// The digits of a number written in `base`.
pub open spec fn is_digit_of(base: NumberBase, c: char) -> bool {
    match base {
        NumberBase::Decimal => spec_is_decimal_digit(c),
        NumberBase::Hexadecimal => spec_is_hexadecimal_digit(c),
    }
}

/// A character that can stand in an identifier after its first: any character
/// but the ASCII control characters, whitespace and the reserved symbols.
pub open spec fn spec_is_ident_continue(c: char) -> bool {
    !is_ascii_control(c) && !spec_is_whitespace(c) && !is_reserved_symbol(c)
}

/// A character that can start an identifier: as `spec_is_ident_continue`, without the digits.
pub open spec fn spec_is_ident_start(c: char) -> bool {
    !spec_is_decimal_digit(c) && spec_is_ident_continue(c)
}

#[verifier::when_used_as_spec(spec_is_whitespace)]
pub fn is_whitespace(c: char) -> (b: bool)
    ensures
        b == spec_is_whitespace(c),
{
    matches!(
        c,
        '\u{0009}'   // \t
        | '\u{000A}' // \n
        | '\u{000B}' // vertical tab
        | '\u{000C}' // form feed
        | '\u{000D}' // \r
        | '\u{0020}' // space
    )
}

/// Checks if `c` is valid as a non-first character of an identifier.
#[verifier::when_used_as_spec(spec_is_ident_continue)]
pub fn is_ident_continue(c: char) -> (b: bool)
    ensures
        b == spec_is_ident_continue(c),
{
    let code: u32 = c as u32;
    !(code <= 0x1F || code == 0x7F) && !is_whitespace(c) && !matches!(
        c,
        '+' | '-' | '*' | '/' | '%' | '^' | '#' | '&' | '~' | '|' | '<' | '>' | '=' | '(' | ')'
            | '{' | '}' | '[' | ']' | ';' | ':' | ',' | '.' | '\\' | '\'' | '"'
    )
}

/// Checks if `c` is valid as a first character of an identifier.
#[verifier::when_used_as_spec(spec_is_ident_start)]
pub fn is_ident_start(c: char) -> (b: bool)
    ensures
        b == spec_is_ident_start(c),
{
    !is_decimal_digit(c) && is_ident_continue(c)
}

#[verifier::when_used_as_spec(spec_is_decimal_digit)]
pub fn is_decimal_digit(c: char) -> (b: bool)
    ensures
        b == spec_is_decimal_digit(c),
{
    matches!(c, '0'..='9')
}

#[verifier::when_used_as_spec(spec_is_hexadecimal_digit)]
pub fn is_hexadecimal_digit(c: char) -> (b: bool)
    ensures
        b == spec_is_hexadecimal_digit(c),
{
    matches!(c, '0'..='9' | 'a'..='f' | 'A'..='F')
}

/// Checks if `c` is `=`, of which the level of a long bracket is made.
pub fn is_equals_sign(c: char) -> (b: bool)
    ensures
        b == (c == '='),
{
    c == '='
}

/// Checks if `c` is anything but a line feed.
pub fn is_not_line_feed(c: char) -> (b: bool)
    ensures
        b == (c != '\n'),
{
    c != '\n'
}

} // verus!
