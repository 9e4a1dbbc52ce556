//! Low-level Tua lexer.
//!
//! The lexer turns a text into tokens, each a kind and a length in bytes. It
//! does not keep the text of a token, intern anything or report errors: what is
//! wrong with a token is a flag on its kind, and the text of a token is found
//! again by slicing the source with the lengths.
//!
//! Keywords are not told from identifiers here, and literals are not decoded.
//! The parser's own lexer does that on top of these tokens.
//!
//! What a text's tokens are is defined in [`grammar`], and [`tokenize`] is
//! proved to return exactly them. [`laws`] holds what follows for every text.

pub mod token;
pub mod classify;
pub mod encoding;
pub mod grammar;
pub mod grammar_facts;
pub mod cursor;
pub mod lexer;
pub mod hashbang;
pub mod laws;
pub mod syntax_pos;

pub use crate::cursor::Cursor;
pub use crate::hashbang::strip_hashbang;
pub use crate::lexer::tokenize;
pub use crate::syntax_pos::BytePos;
pub use crate::token::{LiteralKind, NumberBase, Token, TokenKind};
