//! The lexical grammar, stated over a text and positions in it.
//!
//! A text is a sequence of characters. Every function here reads it at an index
//! and says where the thing that starts there ends, and what kind of thing it is.
//! Nothing here is executable: the lexer is proved to do what these functions say.

use vstd::prelude::*;
use crate::classify::{
    spec_is_decimal_digit,
    is_digit_of,
    spec_is_ident_continue,
    spec_is_ident_start,
    spec_is_whitespace,
};
use crate::encoding::byte_len;
use crate::grammar_facts::{lemma_escape_bounds, lemma_scan_token_bounds};
use crate::token::{LiteralKind, NumberBase, Token, TokenKind};

verus! {

/// The character that stands for "nothing left to read".
pub const EOF_CHAR: char = '\0';

/// The character of `s` at index `i`, or `EOF_CHAR` where `s` has none.
pub open spec fn char_at(s: Seq<char>, i: int) -> char {
    if 0 <= i < s.len() {
        s[i]
    } else {
        EOF_CHAR
    }
}

/// The end of the longest run of characters satisfying `p` that starts at index
/// `i` of `s`: the first index from `i` on whose character does not satisfy `p`, or
/// the length of `s` if there is none.
pub open spec fn run_end(s: Seq<char>, i: int, p: spec_fn(char) -> bool) -> int
    decreases s.len() - i,
{
    if 0 <= i < s.len() && p(s[i]) {
        run_end(s, i + 1, p)
    } else {
        i
    }
}

/// The whitespace characters, as a predicate.
pub open spec fn whitespace() -> spec_fn(char) -> bool {
    |c: char| spec_is_whitespace(c)
}

/// The characters that an identifier holds after its first, as a predicate.
pub open spec fn ident_continue() -> spec_fn(char) -> bool {
    |c: char| spec_is_ident_continue(c)
}

/// The character `=`, as a predicate.
pub open spec fn equals_sign() -> spec_fn(char) -> bool {
    |c: char| c == '='
}

/// Every character but the line feed, as a predicate.
pub open spec fn not_line_feed() -> spec_fn(char) -> bool {
    |c: char| c != '\n'
}

/// The digits of `base`, as a predicate.
pub open spec fn digit_of(base: NumberBase) -> spec_fn(char) -> bool {
    |c: char| is_digit_of(base, c)
}

/// A token's kind and the index at which it ends.
pub ghost struct Scan {
    pub kind: TokenKind,
    pub end: int,
}

/// Where delimited content ends, and whether its closing delimiter was found.
pub ghost struct Extent {
    pub end: int,
    pub terminated: bool,
}

// Numbers

/// The kind of a number with these flags.
pub open spec fn number_kind(base: NumberBase, empty_number: bool, empty_exponent: bool)
    -> TokenKind {
    TokenKind::Literal { kind: LiteralKind::Number { base, empty_number, empty_exponent } }
}

/// `e` and `E` open the exponent of a decimal number, `p` and `P` that of a hexadecimal one.
pub open spec fn is_exponent_marker(base: NumberBase, c: char) -> bool {
    match base {
        NumberBase::Decimal => c == 'e' || c == 'E',
        NumberBase::Hexadecimal => c == 'p' || c == 'P',
    }
}

/// Where the digits of an exponent start whose marker stands just before `i`:
/// at `i`, or after the sign at `i`.
pub open spec fn exponent_digits_start(s: Seq<char>, i: int) -> int {
    if char_at(s, i) == '-' || char_at(s, i) == '+' {
        i + 1
    } else {
        i
    }
}

/// Where an exponent ends whose marker stands just before `i`. Its digits are
/// decimal in either base.
pub open spec fn exponent_end(s: Seq<char>, i: int) -> int {
    run_end(s, exponent_digits_start(s, i), digit_of(NumberBase::Decimal))
}

/// An exponent with a marker, perhaps a sign, and no digit.
pub open spec fn exponent_is_empty(s: Seq<char>, i: int) -> bool {
    exponent_end(s, i) == exponent_digits_start(s, i)
}

/// Where the fractional part ends of a number whose integer part ends at `i`:
/// at `i` unless a `.` stands there, which the digits of `base` then follow.
pub open spec fn fraction_end(s: Seq<char>, i: int, base: NumberBase) -> int {
    if char_at(s, i) == '.' {
        run_end(s, i + 1, digit_of(base))
    } else {
        i
    }
}

/// A number in `base` whose integer part ends at `i`: the fractional part and
/// the exponent, as far as it has them.
pub open spec fn scan_number_tail(s: Seq<char>, i: int, base: NumberBase) -> Scan {
    let marker = fraction_end(s, i, base);
    if is_exponent_marker(base, char_at(s, marker)) {
        Scan {
            kind: number_kind(base, false, exponent_is_empty(s, marker + 1)),
            end: exponent_end(s, marker + 1),
        }
    } else {
        Scan { kind: number_kind(base, false, false), end: marker }
    }
}

/// What may follow a leading `0` in a decimal number.
pub open spec fn continues_decimal(c: char) -> bool {
    spec_is_decimal_digit(c) || c == '.' || c == 'e' || c == 'E'
}

/// A number whose first digit, `first_digit`, stands just before `i`.
///
/// `0x` or `0X` makes it hexadecimal, and without a digit behind the prefix it is
/// an empty number. A `0` that nothing of a number follows is reported with
/// `empty_exponent` set, though it has no exponent at all.
pub open spec fn scan_number(s: Seq<char>, i: int, first_digit: char) -> Scan {
    let next = char_at(s, i);
    if first_digit == '0' && (next == 'x' || next == 'X') {
        let digits = run_end(s, i + 1, digit_of(NumberBase::Hexadecimal));
        if digits == i + 1 {
            Scan { kind: number_kind(NumberBase::Hexadecimal, true, false), end: i + 1 }
        } else {
            scan_number_tail(s, digits, NumberBase::Hexadecimal)
        }
    } else if first_digit == '0' && !continues_decimal(next) {
        Scan { kind: number_kind(NumberBase::Decimal, false, true), end: i }
    } else {
        scan_number_tail(
            s,
            run_end(s, i, digit_of(NumberBase::Decimal)),
            NumberBase::Decimal,
        )
    }
}

// Strings

/// Where the escape ends whose backslash stands at `i`: after the one character
/// that follows the backslash, and after the whitespace behind it if that
/// character is `z`.
pub open spec fn escape_end(s: Seq<char>, i: int) -> int {
    if i + 1 >= s.len() {
        i + 1
    } else if s[i + 1] == 'z' {
        run_end(s, i + 2, whitespace())
    } else {
        i + 2
    }
}

/// The content of a short string from `i` on, the opening `quote` being behind.
///
/// It ends after the next `quote` that no backslash escapes, and is then
/// terminated; or before a line feed that no backslash escapes, or where the
/// text ends, and is then not.
pub open spec fn scan_short_string(s: Seq<char>, i: int, quote: char) -> Extent
    decreases s.len() - i,
{
    if i < 0 || i >= s.len() {
        Extent { end: i, terminated: false }
    } else if s[i] == quote {
        Extent { end: i + 1, terminated: true }
    } else if s[i] == '\\' {
        proof {
            lemma_escape_bounds(s, i);
        }
        scan_short_string(s, escape_end(s, i), quote)
    } else if s[i] == '\n' {
        Extent { end: i, terminated: false }
    } else {
        scan_short_string(s, i + 1, quote)
    }
}

/// A closing long bracket of `level` stands at `i`: a `]`, then exactly `level`
/// times `=`, then a `]`.
pub open spec fn closes_at(s: Seq<char>, i: int, level: int) -> bool {
    &&& char_at(s, i) == ']'
    &&& run_end(s, i + 1, equals_sign()) == i + 1 + level
    &&& char_at(s, i + 1 + level) == ']'
}

/// The content of a long bracket of `level` from `i` on, the opening bracket
/// being behind: it ends after the first closing bracket of the same level, and
/// is then terminated, or where the text ends, and is then not.
pub open spec fn scan_long_bracket(s: Seq<char>, i: int, level: int) -> Extent
    decreases s.len() - i,
{
    if i < 0 || i >= s.len() {
        Extent { end: i, terminated: false }
    } else if closes_at(s, i, level) {
        Extent { end: i + level + 2, terminated: true }
    } else {
        scan_long_bracket(s, i + 1, level)
    }
}

/// A long string whose first `[` stands just before `i`.
///
/// The `=` from `i` on give the level. Where a second `[` follows them the
/// content starts; where none does, the token ends with them, unterminated.
pub open spec fn scan_long_string(s: Seq<char>, i: int) -> Scan {
    let level_end = run_end(s, i, equals_sign());
    let level = (level_end - i) as usize;
    if char_at(s, level_end) == '[' {
        let body = scan_long_bracket(s, level_end + 1, level_end - i);
        Scan {
            kind: TokenKind::Literal {
                kind: LiteralKind::LongString { level, terminated: body.terminated },
            },
            end: body.end,
        }
    } else {
        Scan {
            kind: TokenKind::Literal { kind: LiteralKind::LongString { level, terminated: false } },
            end: level_end,
        }
    }
}

// Comments

/// `[`, any number of `=`, and `[` stand from `i` on.
pub open spec fn opens_long_bracket_at(s: Seq<char>, i: int) -> bool {
    char_at(s, i) == '[' && char_at(s, run_end(s, i + 1, equals_sign())) == '['
}

/// A comment whose second `-` stands at `i`.
///
/// With a long bracket opening right behind the `--` it is a long comment, which
/// runs as the bracket's content does. Without, it is a short comment, which
/// runs up to the next line feed or the end of the text.
pub open spec fn scan_comment(s: Seq<char>, i: int) -> Scan {
    if opens_long_bracket_at(s, i + 1) {
        let level_end = run_end(s, i + 2, equals_sign());
        let body = scan_long_bracket(s, level_end + 1, level_end - (i + 2));
        Scan { kind: TokenKind::LongComment { terminated: body.terminated }, end: body.end }
    } else {
        Scan { kind: TokenKind::ShortComment, end: run_end(s, i + 1, not_line_feed()) }
    }
}

// Tokens

/// The token that the character `c` is by itself, if it is one.
pub open spec fn punctuation(c: char) -> Option<TokenKind> {
    if c == ';' {
        Some(TokenKind::Semi)
    } else if c == ',' {
        Some(TokenKind::Comma)
    } else if c == '.' {
        Some(TokenKind::Dot)
    } else if c == '(' {
        Some(TokenKind::OpenParen)
    } else if c == ')' {
        Some(TokenKind::CloseParen)
    } else if c == '{' {
        Some(TokenKind::OpenBrace)
    } else if c == '}' {
        Some(TokenKind::CloseBrace)
    } else if c == '[' {
        Some(TokenKind::OpenBracket)
    } else if c == ']' {
        Some(TokenKind::CloseBracket)
    } else if c == '#' {
        Some(TokenKind::Hash)
    } else if c == '~' {
        Some(TokenKind::Tilde)
    } else if c == ':' {
        Some(TokenKind::Colon)
    } else if c == '=' {
        Some(TokenKind::Eq)
    } else if c == '<' {
        Some(TokenKind::Lt)
    } else if c == '>' {
        Some(TokenKind::Gt)
    } else if c == '-' {
        Some(TokenKind::Minus)
    } else if c == '+' {
        Some(TokenKind::Plus)
    } else if c == '*' {
        Some(TokenKind::Star)
    } else if c == '/' {
        Some(TokenKind::Slash)
    } else if c == '^' {
        Some(TokenKind::Caret)
    } else if c == '%' {
        Some(TokenKind::Percent)
    } else {
        None
    }
}

/// The token that starts at index `i` of `s`.
pub open spec fn scan_token(s: Seq<char>, i: int) -> Scan
    recommends
        0 <= i < s.len(),
{
    let c = s[i];
    let next = char_at(s, i + 1);
    if spec_is_whitespace(c) {
        Scan { kind: TokenKind::Whitespace, end: run_end(s, i + 1, whitespace()) }
    } else if c == '-' && next == '-' {
        scan_comment(s, i + 1)
    } else if spec_is_decimal_digit(c) {
        scan_number(s, i + 1, c)
    } else if c == '\'' || c == '"' {
        let body = scan_short_string(s, i + 1, c);
        Scan {
            kind: TokenKind::Literal {
                kind: LiteralKind::ShortString { quote: c, terminated: body.terminated },
            },
            end: body.end,
        }
    } else if c == '[' && (next == '[' || next == '=') {
        scan_long_string(s, i + 1)
    } else if punctuation(c) is Some {
        Scan { kind: punctuation(c)->0, end: i + 1 }
    } else if spec_is_ident_start(c) {
        Scan { kind: TokenKind::Ident, end: run_end(s, i + 1, ident_continue()) }
    } else {
        Scan { kind: TokenKind::Unknown, end: i + 1 }
    }
}

/// The first token of the text `s`, which is not empty.
pub open spec fn first_token(s: Seq<char>) -> Token
    recommends
        s.len() > 0,
{
    let first = scan_token(s, 0);
    Token { kind: first.kind, len: byte_len(s.take(first.end)) as u32 }
}

/// The tokens of the text `s`, in order.
///
/// The first token starts at the first character, each further one where the
/// one before it ended, and the last one ends where the text does. A token's
/// `len` is the number of bytes that its characters take in UTF-8, cut to 32 bits.
pub open spec fn lex(s: Seq<char>) -> Seq<Token>
    decreases s.len(),
    via lex_decreases
{
    if s.len() == 0 {
        Seq::empty()
    } else {
        seq![first_token(s)] + lex(s.skip(scan_token(s, 0).end))
    }
}

#[via_fn]
proof fn lex_decreases(s: Seq<char>) {
    if s.len() != 0 {
        lemma_scan_token_bounds(s, 0);
    }
}

/// The text of each token of `s`, in order.
pub open spec fn lexemes(s: Seq<char>) -> Seq<Seq<char>>
    decreases s.len(),
    via lexemes_decreases
{
    if s.len() == 0 {
        Seq::empty()
    } else {
        let end = scan_token(s, 0).end;
        seq![s.take(end)] + lexemes(s.skip(end))
    }
}

#[via_fn]
proof fn lexemes_decreases(s: Seq<char>) {
    if s.len() != 0 {
        lemma_scan_token_bounds(s, 0);
    }
}

} // verus!
