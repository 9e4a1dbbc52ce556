//! The tokens that the lexer produces: a kind and a length, nothing of the text itself.

use vstd::prelude::*;

verus! {

/// One lexeme: what it is and how many bytes of the source it covers.
///
/// The text is not kept. A caller that wants it slices the source by `len`,
/// token after token.
#[derive(Clone, Copy, Debug, PartialEq, Eq, Structural)]
pub struct Token {
    pub kind: TokenKind,
    pub len: u32,
}

impl Token {
    /// A token of `kind` that covers `len` bytes.
    pub fn new(kind: TokenKind, len: u32) -> (token: Token)
        ensures
            token == (Token { kind, len }),
    {
        Token { kind, len }
    }
}

/// The kinds of lexeme.
#[derive(Clone, Copy, Debug, PartialEq, Eq, Structural)]
pub enum TokenKind {
    // Multi-char tokens:
    /// `-- short comment`
    ShortComment,
    /// `--[[ long comment ]]`
    /// `--[=[ long comment ]=]`
    LongComment { terminated: bool },
    /// Any sequence of whitespace characters.
    Whitespace,
    /// Identifiers. Keywords are identifiers too at this level.
    Ident,
    /// `"string"`, `3`, `314.16e-2`
    /// See `LiteralKind` for more details.
    Literal { kind: LiteralKind },
    // One-char tokens:
    /// ";"
    Semi,
    /// ","
    Comma,
    /// "."
    Dot,
    /// "("
    OpenParen,
    /// ")"
    CloseParen,
    /// "{"
    OpenBrace,
    /// "}"
    CloseBrace,
    /// "["
    OpenBracket,
    /// "]"
    CloseBracket,
    /// "#"
    Hash,
    /// "~"
    Tilde,
    /// ":"
    Colon,
    /// "="
    Eq,
    /// "<"
    Lt,
    /// ">"
    Gt,
    /// "-"
    Minus,
    /// "+"
    Plus,
    /// "*"
    Star,
    /// "/"
    Slash,
    /// "^"
    Caret,
    /// "%"
    Percent,
    /// A character that starts no token of the language.
    Unknown,
}

#[derive(Clone, Copy, Debug, PartialEq, Eq, PartialOrd, Ord, Structural)]
pub enum LiteralKind {
    /// `3`, `3.0`, `3.1416`, `314.16e-2`, `0.31416E1`, `0xff`, `0x56`
    Number { base: NumberBase, empty_number: bool, empty_exponent: bool },
    /// `'abc'`, `"abc"`
    ShortString { quote: char, terminated: bool },
    /// `[[abc]]`, `[=[abc]=]`
    LongString { level: usize, terminated: bool },
}

/// Base of a `Number` literal, as its prefix gives it.
#[derive(Clone, Copy, Debug, PartialEq, Eq, PartialOrd, Ord, Structural)]
pub enum NumberBase {
    /// The literal has no prefix.
    Decimal,
    /// The literal starts with `0x` or `0X`.
    Hexadecimal,
}

} // verus!
