//! The lexer: the cursor's methods that read one token, and `tokenize`.

use vstd::prelude::*;
use vstd::utf8::encode_utf8;
use crate::classify::{
    is_decimal_digit,
    is_equals_sign,
    is_hexadecimal_digit,
    is_ident_continue,
    is_ident_start,
    is_not_line_feed,
    is_whitespace,
};
use crate::cursor::{decides, Cursor};
use crate::encoding::byte_len;
use crate::grammar::{
    char_at,
    digit_of,
    equals_sign,
    exponent_end,
    exponent_is_empty,
    first_token,
    ident_continue,
    lex,
    not_line_feed,
    run_end,
    scan_comment,
    scan_long_bracket,
    scan_long_string,
    scan_number,
    scan_short_string,
    scan_token,
    whitespace,
};
use crate::grammar_facts::{
    lemma_long_bracket_skips,
    lemma_run_end_is_maximal,
    lemma_run_end_resumes,
    lemma_scan_token_bounds,
};
use crate::laws::{law_lengths_cover_text, law_round_trip, lengths_fit, slices, total_len};
use crate::token::{LiteralKind, NumberBase, Token, TokenKind};

verus! {

impl<'a> Cursor<'a> {
    /// Consumes decimal digits as long as there are any, and tells whether
    /// there was one.
    pub fn consume_decimal_digits(&mut self) -> (has_digits: bool)
        ensures
            final(self).text() == old(self).text(),
            0 <= old(self).pos() <= final(self).pos() <= old(self).text().len(),
            final(self).pos() == run_end(
                old(self).text(),
                old(self).pos(),
                digit_of(NumberBase::Decimal),
            ),
            has_digits == (final(self).pos() > old(self).pos()),
    {
        let mut has_digits = false;
        while is_decimal_digit(self.peek())
            invariant
                self.text() == old(self).text(),
                old(self).pos() <= self.pos(),
                has_digits == (self.pos() > old(self).pos()),
                run_end(self.text(), self.pos(), digit_of(NumberBase::Decimal)) == run_end(
                    old(self).text(),
                    old(self).pos(),
                    digit_of(NumberBase::Decimal),
                ),
            decreases self.text().len() - self.pos(),
        {
            has_digits = true;
            self.consume();
        }
        has_digits
    }

    /// Consumes hexadecimal digits as long as there are any, and tells whether
    /// there was one.
    pub fn consume_hexadecimal_digits(&mut self) -> (has_digits: bool)
        ensures
            final(self).text() == old(self).text(),
            0 <= old(self).pos() <= final(self).pos() <= old(self).text().len(),
            final(self).pos() == run_end(
                old(self).text(),
                old(self).pos(),
                digit_of(NumberBase::Hexadecimal),
            ),
            has_digits == (final(self).pos() > old(self).pos()),
    {
        let mut has_digits = false;
        while is_hexadecimal_digit(self.peek())
            invariant
                self.text() == old(self).text(),
                old(self).pos() <= self.pos(),
                has_digits == (self.pos() > old(self).pos()),
                run_end(self.text(), self.pos(), digit_of(NumberBase::Hexadecimal)) == run_end(
                    old(self).text(),
                    old(self).pos(),
                    digit_of(NumberBase::Hexadecimal),
                ),
            decreases self.text().len() - self.pos(),
        {
            has_digits = true;
            self.consume();
        }
        has_digits
    }

    /// Consumes the exponent of a number, its marker being behind: a sign, if
    /// there is one, and decimal digits. Returns `true` if at least one digit
    /// was met, and `false` otherwise.
    pub fn consume_number_exponent(&mut self) -> (has_digits: bool)
        ensures
            final(self).text() == old(self).text(),
            0 <= old(self).pos() <= final(self).pos() <= old(self).text().len(),
            final(self).pos() == exponent_end(old(self).text(), old(self).pos()),
            has_digits == !exponent_is_empty(old(self).text(), old(self).pos()),
    {
        let sign = self.peek();
        if sign == '-' || sign == '+' {
            self.consume();
        }
        self.consume_decimal_digits()
    }

    /// Reads a number whose first digit, `first_digit`, has been consumed.
    pub fn number(&mut self, first_digit: char) -> (kind: TokenKind)
        ensures
            final(self).text() == old(self).text(),
            0 <= old(self).pos() <= final(self).pos() <= old(self).text().len(),
            kind == scan_number(old(self).text(), old(self).pos(), first_digit).kind,
            final(self).pos() == scan_number(old(self).text(), old(self).pos(), first_digit).end,
    {
        let mut base = NumberBase::Decimal;
        if first_digit == '0' {
            // Attempt to parse encoding base.
            let next = self.peek();
            if next == 'x' || next == 'X' {
                base = NumberBase::Hexadecimal;
                self.consume();
                // Base prefix was provided, but there were no digits
                // after it, e.g. `0x`.
                if !self.consume_hexadecimal_digits() {
                    return TokenKind::Literal {
                        kind: LiteralKind::Number {
                            base,
                            empty_number: true,
                            empty_exponent: false,
                        },
                    };
                }
            } else if is_decimal_digit(next) || next == '.' || next == 'e' || next == 'E' {
                // Not a base prefix.
                self.consume_decimal_digits();
            } else {
                // Just a `0`.
                return TokenKind::Literal {
                    kind: LiteralKind::Number { base, empty_number: false, empty_exponent: true },
                };
            }
        } else {
            // No base prefix, parse number in the usual way.
            self.consume_decimal_digits();
        }
        if self.peek() == '.' {
            self.consume();
            match base {
                NumberBase::Decimal => {
                    self.consume_decimal_digits();
                },
                NumberBase::Hexadecimal => {
                    self.consume_hexadecimal_digits();
                },
            }
        }
        let marker = self.peek();
        let has_exponent = match base {
            NumberBase::Decimal => marker == 'e' || marker == 'E',
            NumberBase::Hexadecimal => marker == 'p' || marker == 'P',
        };
        let mut empty_exponent = false;
        if has_exponent {
            self.consume();
            empty_exponent = !self.consume_number_exponent();
        }
        TokenKind::Literal { kind: LiteralKind::Number { base, empty_number: false, empty_exponent } }
    }

    /// Reads a short string up to its end, the opening `quote` being behind.
    pub fn short_string(&mut self, quote: char) -> (kind: TokenKind)
        ensures
            final(self).text() == old(self).text(),
            0 <= old(self).pos() <= final(self).pos() <= old(self).text().len(),
            kind == (TokenKind::Literal {
                kind: LiteralKind::ShortString {
                    quote,
                    terminated: scan_short_string(
                        old(self).text(),
                        old(self).pos(),
                        quote,
                    ).terminated,
                },
            }),
            final(self).pos() == scan_short_string(old(self).text(), old(self).pos(), quote).end,
    {
        let mut terminated = false;
        proof {
            self.lemma_pos_in_bounds();
        }
        while !self.is_eof()
            invariant_except_break
                !terminated,
                scan_short_string(self.text(), self.pos(), quote) == scan_short_string(
                    old(self).text(),
                    old(self).pos(),
                    quote,
                ),
            invariant
                self.text() == old(self).text(),
                0 <= old(self).pos() <= self.pos() <= self.text().len(),
            ensures
                self.text() == old(self).text(),
                0 <= old(self).pos() <= self.pos() <= self.text().len(),
                self.pos() == scan_short_string(old(self).text(), old(self).pos(), quote).end,
                terminated == scan_short_string(
                    old(self).text(),
                    old(self).pos(),
                    quote,
                ).terminated,
            decreases self.text().len() - self.pos(),
        {
            let c = self.peek();
            if c == quote {
                self.consume();
                terminated = true;
                break ;
            } else if c == '\\' {
                self.consume();
                // consume escaped character.
                if self.consume() == Some('z') {
                    // consume whitespaces after `\z`.
                    self.consume_while(is_whitespace);
                    assert(decides(is_whitespace, whitespace()));
                }
            } else if c == '\n' {
                break ;
            } else {
                self.consume();
            }
        }
        TokenKind::Literal { kind: LiteralKind::ShortString { quote, terminated } }
    }

    /// Reads the content of a long bracket of `level` up to its end, the
    /// opening bracket being behind, and tells whether the closing bracket was
    /// found.
    pub fn consume_long_string_content(&mut self, level: usize) -> (terminated: bool)
        ensures
            final(self).text() == old(self).text(),
            0 <= old(self).pos() <= final(self).pos() <= old(self).text().len(),
            terminated == scan_long_bracket(
                old(self).text(),
                old(self).pos(),
                level as int,
            ).terminated,
            final(self).pos() == scan_long_bracket(
                old(self).text(),
                old(self).pos(),
                level as int,
            ).end,
    {
        let mut terminated = false;
        proof {
            self.lemma_pos_in_bounds();
        }
        while !self.is_eof()
            invariant_except_break
                !terminated,
                scan_long_bracket(self.text(), self.pos(), level as int) == scan_long_bracket(
                    old(self).text(),
                    old(self).pos(),
                    level as int,
                ),
            invariant
                self.text() == old(self).text(),
                0 <= old(self).pos() <= self.pos() <= self.text().len(),
            ensures
                self.text() == old(self).text(),
                0 <= old(self).pos() <= self.pos() <= self.text().len(),
                self.pos() == scan_long_bracket(
                    old(self).text(),
                    old(self).pos(),
                    level as int,
                ).end,
                terminated == scan_long_bracket(
                    old(self).text(),
                    old(self).pos(),
                    level as int,
                ).terminated,
            decreases self.text().len() - self.pos(),
        {
            let ghost start = self.pos();
            if self.consume() == Some(']') {
                let close_level = self.count_and_consume_while(is_equals_sign);
                if close_level == level && self.peek() == ']' {
                    self.consume();
                    terminated = true;
                    break ;
                }
                proof {
                    lemma_run_end_is_maximal(self.text(), start + 1, equals_sign());
                    lemma_long_bracket_skips(self.text(), start, self.pos(), level as int);
                }
            }
        }
        terminated
    }

    /// Reads a long string, its first `[` being behind and a second `[` or a
    /// `=` ahead.
    pub fn long_string(&mut self) -> (kind: TokenKind)
        requires
            char_at(old(self).text(), old(self).pos()) == '[' || char_at(
                old(self).text(),
                old(self).pos(),
            ) == '=',
        ensures
            final(self).text() == old(self).text(),
            0 <= old(self).pos() <= final(self).pos() <= old(self).text().len(),
            kind == scan_long_string(old(self).text(), old(self).pos()).kind,
            final(self).pos() == scan_long_string(old(self).text(), old(self).pos()).end,
    {
        let level = self.count_and_consume_while(is_equals_sign);
        if self.peek() == '[' {
            self.consume();
            let terminated = self.consume_long_string_content(level);
            TokenKind::Literal { kind: LiteralKind::LongString { level, terminated } }
        } else {
            TokenKind::Literal { kind: LiteralKind::LongString { level, terminated: false } }
        }
    }

    /// Reads a comment, its first `-` being behind and its second `-` ahead.
    pub fn comment(&mut self) -> (kind: TokenKind)
        requires
            char_at(old(self).text(), old(self).pos()) == '-',
        ensures
            final(self).text() == old(self).text(),
            0 <= old(self).pos() < final(self).pos() <= old(self).text().len(),
            kind == scan_comment(old(self).text(), old(self).pos()).kind,
            final(self).pos() == scan_comment(old(self).text(), old(self).pos()).end,
    {
        let ghost start = self.pos();
        self.consume();
        if self.peek() == '[' {
            self.consume();
            let open_level = self.count_and_consume_while(is_equals_sign);
            if self.peek() == '[' {
                self.consume();
                let terminated = self.consume_long_string_content(open_level);
                return TokenKind::LongComment { terminated };
            }
            proof {
                lemma_run_end_is_maximal(self.text(), start + 2, equals_sign());
                lemma_run_end_resumes(self.text(), start + 1, self.pos(), not_line_feed());
            }
        }
        self.consume_while(is_not_line_feed);
        TokenKind::ShortComment
    }

    /// Reads whitespace up to its end.
    pub fn whitespace(&mut self) -> (kind: TokenKind)
        ensures
            final(self).text() == old(self).text(),
            0 <= old(self).pos() <= final(self).pos() <= old(self).text().len(),
            kind == TokenKind::Whitespace,
            final(self).pos() == run_end(old(self).text(), old(self).pos(), whitespace()),
    {
        self.consume_while(is_whitespace);
        assert(decides(is_whitespace, whitespace()));
        TokenKind::Whitespace
    }

    /// Reads the token that starts where the cursor stands.
    ///
    /// The token's length counts from the last reset, so it is the length of
    /// this token where the cursor was reset just before.
    pub fn advance_token(&mut self) -> (token: Token)
        requires
            old(self).pos() < old(self).text().len(),
        ensures
            final(self).text() == old(self).text(),
            0 <= old(self).pos() < final(self).pos() <= old(self).text().len(),
            token.kind == scan_token(old(self).text(), old(self).pos()).kind,
            final(self).pos() == scan_token(old(self).text(), old(self).pos()).end,
            token.len == byte_len(final(self).consumed()) as u32,
    {
        let first_char = match self.consume() {
            Some(c) => c,
            None => '\0',
        };
        proof {
            lemma_scan_token_bounds(self.text(), self.pos() - 1);
        }
        let token_kind = if is_whitespace(first_char) {
            // Whitespace sequence.
            self.whitespace()
        } else if first_char == '-' {
            // Minus or comment
            if self.peek() == '-' {
                self.comment()
            } else {
                TokenKind::Minus
            }
        } else if is_decimal_digit(first_char) {
            // Numeric literal.
            self.number(first_char)
        } else if first_char == '\'' || first_char == '"' {
            // String literal.
            self.short_string(first_char)
        } else if first_char == '[' {
            let next = self.peek();
            if next == '[' || next == '=' {
                self.long_string()
            } else {
                TokenKind::OpenBracket
            }
        } else {
            match first_char {
                // One-symbol tokens.
                ';' => TokenKind::Semi,
                ',' => TokenKind::Comma,
                '.' => TokenKind::Dot,
                '(' => TokenKind::OpenParen,
                ')' => TokenKind::CloseParen,
                '{' => TokenKind::OpenBrace,
                '}' => TokenKind::CloseBrace,
                ']' => TokenKind::CloseBracket,
                '#' => TokenKind::Hash,
                '~' => TokenKind::Tilde,
                ':' => TokenKind::Colon,
                '=' => TokenKind::Eq,
                '<' => TokenKind::Lt,
                '>' => TokenKind::Gt,
                '+' => TokenKind::Plus,
                '*' => TokenKind::Star,
                '/' => TokenKind::Slash,
                '^' => TokenKind::Caret,
                '%' => TokenKind::Percent,
                _ => {
                    if is_ident_start(first_char) {
                        // Identifier.
                        self.consume_while(is_ident_continue);
                        assert(decides(is_ident_continue, ident_continue()));
                        TokenKind::Ident
                    } else {
                        TokenKind::Unknown
                    }
                },
            }
        };
        Token::new(token_kind, self.len_consumed())
    }

    /// Reads the next token of what is left, if anything is left.
    ///
    /// The cursor is reset first, so the token's length is its own.
    pub fn next_token(&mut self) -> (token: Option<Token>)
        ensures
            old(self).remaining().len() == 0 ==> token.is_none() && final(self).remaining() == old(
                self,
            ).remaining(),
            old(self).remaining().len() > 0 ==> token == Some(first_token(old(self).remaining()))
                && final(self).remaining() == old(self).remaining().skip(
                scan_token(old(self).remaining(), 0).end,
            ),
    {
        if self.is_eof() {
            None
        } else {
            self.reset_len_consumed();
            Some(self.advance_token())
        }
    }
}

/// Reads `input` from its start to its end and returns its tokens.
///
/// The tokens are those that the grammar gives the text. They cover it: unless
/// a token is longer than a `u32` can tell, their lengths add up to the length
/// of `input` in bytes, and cutting `input` by them gives it back piece by
/// piece.
pub fn tokenize(input: &str) -> (tokens: Vec<Token>)
    ensures
        tokens@ == lex(input@),
        lengths_fit(input@) ==> total_len(tokens@) == byte_len(input@),
        lengths_fit(input@) ==> slices(encode_utf8(input@), tokens@).flatten() == encode_utf8(
            input@,
        ),
{
    let mut cursor = Cursor::new(input);
    let mut tokens: Vec<Token> = Vec::new();
    assert(cursor.remaining() =~= input@);
    assert(tokens@ + lex(cursor.remaining()) =~= lex(input@));
    loop
        invariant
            tokens@ + lex(cursor.remaining()) == lex(input@),
        ensures
            tokens@ == lex(input@),
        decreases cursor.remaining().len(),
    {
        let ghost before = cursor.remaining();
        match cursor.next_token() {
            Some(token) => {
                proof {
                    lemma_scan_token_bounds(before, 0);
                    assert(lex(before) == seq![token] + lex(cursor.remaining()));
                    assert(tokens@.push(token) + lex(cursor.remaining()) =~= tokens@ + lex(before));
                }
                tokens.push(token);
            },
            None => {
                assert(tokens@ + lex(cursor.remaining()) =~= tokens@);
                break ;
            },
        }
    }
    proof {
        if lengths_fit(input@) {
            law_lengths_cover_text(input@);
            law_round_trip(input@);
        }
    }
    tokens
}

} // verus!
