use tua_lexer::{strip_hashbang, tokenize, LiteralKind, NumberBase, Token, TokenKind};

fn number(base: NumberBase, empty_number: bool, empty_exponent: bool) -> TokenKind {
    TokenKind::Literal { kind: LiteralKind::Number { base, empty_number, empty_exponent } }
}

#[test]
fn hexadecimal_prefix_without_digits_is_an_empty_number() {
    let tokens = tokenize("0x");
    assert_eq!(
        tokens,
        vec![Token { kind: number(NumberBase::Hexadecimal, true, false), len: 2 }]
    );
}

#[test]
fn exponent_marker_without_digits_is_an_empty_exponent() {
    let tokens = tokenize("314.16e");
    assert_eq!(tokens, vec![Token { kind: number(NumberBase::Decimal, false, true), len: 7 }]);
}

#[test]
fn long_string_is_not_closed_by_a_bracket_of_another_level() {
    let input = "[==[\nlong\n]=]";
    let tokens = tokenize(input);
    assert_eq!(
        tokens,
        vec![Token {
            kind: TokenKind::Literal {
                kind: LiteralKind::LongString { level: 2, terminated: false }
            },
            len: input.len() as u32,
        }]
    );
    assert_eq!(tokens[0].len, 13);
}

#[test]
fn long_comment_is_not_closed_by_a_bracket_of_another_level() {
    let tokens = tokenize("--[=[ ]]");
    assert_eq!(tokens, vec![Token { kind: TokenKind::LongComment { terminated: false }, len: 8 }]);
}

#[test]
fn escaped_z_takes_the_whitespace_behind_it() {
    let input = "'a\\z   b'";
    let tokens = tokenize(input);
    assert_eq!(
        tokens,
        vec![Token {
            kind: TokenKind::Literal {
                kind: LiteralKind::ShortString { quote: '\'', terminated: true }
            },
            len: 9,
        }]
    );
}

#[test]
fn hashbang_counts_only_on_the_first_line() {
    assert_eq!(strip_hashbang("#!/bin/tua\nrest"), Some(10));
    assert_eq!(strip_hashbang("\n#!/bin/tua"), None);
}

#[test]
fn hashbang_on_a_later_line_is_lexed_as_punctuation_and_identifiers() {
    let kinds: Vec<TokenKind> = tokenize("\n#!/bin/tua").iter().map(|t| t.kind).collect();
    assert_eq!(
        kinds,
        vec![
            TokenKind::Whitespace,
            TokenKind::Hash,
            TokenKind::Ident,
            TokenKind::Slash,
            TokenKind::Ident,
            TokenKind::Slash,
            TokenKind::Ident,
        ]
    );
}

#[test]
fn short_string_ends_only_with_its_quote_a_line_feed_or_the_text() {
    let string = |quote, terminated| TokenKind::Literal {
        kind: LiteralKind::ShortString { quote, terminated },
    };
    assert_eq!(tokenize("'a\0b'"), vec![Token { kind: string('\'', true), len: 5 }]);
    assert_eq!(tokenize("\"a\rb\""), vec![Token { kind: string('"', true), len: 5 }]);
    assert_eq!(
        tokenize("'a\nb"),
        vec![
            Token { kind: string('\'', false), len: 2 },
            Token { kind: TokenKind::Whitespace, len: 1 },
            Token { kind: TokenKind::Ident, len: 1 },
        ]
    );
    assert_eq!(tokenize("\"a"), vec![Token { kind: string('"', false), len: 2 }]);
    assert_eq!(tokenize("'a\\"), vec![Token { kind: string('\'', false), len: 3 }]);
    assert_eq!(tokenize("'a\\\nb'"), vec![Token { kind: string('\'', true), len: 6 }]);
    assert_eq!(tokenize("'a\\'"), vec![Token { kind: string('\'', false), len: 4 }]);
}

#[test]
fn lone_zero_is_flagged_as_an_empty_exponent() {
    assert_eq!(tokenize("0"), vec![Token { kind: number(NumberBase::Decimal, false, true), len: 1 }]);
    assert_eq!(
        tokenize("0;"),
        vec![
            Token { kind: number(NumberBase::Decimal, false, true), len: 1 },
            Token { kind: TokenKind::Semi, len: 1 },
        ]
    );
    assert_eq!(
        tokenize("00"),
        vec![Token { kind: number(NumberBase::Decimal, false, false), len: 2 }]
    );
    assert_eq!(
        tokenize("0."),
        vec![Token { kind: number(NumberBase::Decimal, false, false), len: 2 }]
    );
    assert_eq!(tokenize("7"), vec![Token { kind: number(NumberBase::Decimal, false, false), len: 1 }]);
}

#[test]
fn exponent_marker_goes_with_the_base() {
    assert_eq!(
        tokenize("0x1e5"),
        vec![Token { kind: number(NumberBase::Hexadecimal, false, false), len: 5 }]
    );
    assert_eq!(
        tokenize("0x1p5"),
        vec![Token { kind: number(NumberBase::Hexadecimal, false, false), len: 5 }]
    );
    assert_eq!(
        tokenize("1p5"),
        vec![
            Token { kind: number(NumberBase::Decimal, false, false), len: 1 },
            Token { kind: TokenKind::Ident, len: 2 },
        ]
    );
    assert_eq!(
        tokenize("0x1.8p"),
        vec![Token { kind: number(NumberBase::Hexadecimal, false, true), len: 6 }]
    );
}

#[test]
fn unknown_is_one_character() {
    assert_eq!(
        tokenize("|&"),
        vec![
            Token { kind: TokenKind::Unknown, len: 1 },
            Token { kind: TokenKind::Unknown, len: 1 },
        ]
    );
    assert_eq!(tokenize("\\"), vec![Token { kind: TokenKind::Unknown, len: 1 }]);
    assert_eq!(tokenize("\u{7f}"), vec![Token { kind: TokenKind::Unknown, len: 1 }]);
    assert_eq!(tokenize("\0"), vec![Token { kind: TokenKind::Unknown, len: 1 }]);
}

#[test]
fn every_punctuation_mark_is_its_own_token() {
    let kinds: Vec<TokenKind> =
        tokenize(";,.(){}[]#~:=<>-+*/^%").iter().map(|token| token.kind).collect();
    assert_eq!(
        kinds,
        vec![
            TokenKind::Semi,
            TokenKind::Comma,
            TokenKind::Dot,
            TokenKind::OpenParen,
            TokenKind::CloseParen,
            TokenKind::OpenBrace,
            TokenKind::CloseBrace,
            TokenKind::OpenBracket,
            TokenKind::CloseBracket,
            TokenKind::Hash,
            TokenKind::Tilde,
            TokenKind::Colon,
            TokenKind::Eq,
            TokenKind::Lt,
            TokenKind::Gt,
            TokenKind::Minus,
            TokenKind::Plus,
            TokenKind::Star,
            TokenKind::Slash,
            TokenKind::Caret,
            TokenKind::Percent,
        ]
    );
}

#[test]
fn keywords_are_identifiers() {
    for word in ["local", "function", "end", "nil", "goto"] {
        assert_eq!(tokenize(word), vec![Token { kind: TokenKind::Ident, len: word.len() as u32 }]);
    }
}

#[test]
fn long_bracket_without_second_bracket_is_an_unterminated_long_string() {
    let long = |level, terminated| TokenKind::Literal {
        kind: LiteralKind::LongString { level, terminated },
    };
    assert_eq!(tokenize("[=="), vec![Token { kind: long(2, false), len: 3 }]);
    assert_eq!(
        tokenize("[=a"),
        vec![Token { kind: long(1, false), len: 2 }, Token { kind: TokenKind::Ident, len: 1 }]
    );
    assert_eq!(tokenize("[[]]"), vec![Token { kind: long(0, true), len: 4 }]);
    assert_eq!(tokenize("[=[]=]"), vec![Token { kind: long(1, true), len: 6 }]);
    assert_eq!(tokenize("[=[]==]=]"), vec![Token { kind: long(1, true), len: 9 }]);
    assert_eq!(tokenize("["), vec![Token { kind: TokenKind::OpenBracket, len: 1 }]);
}
