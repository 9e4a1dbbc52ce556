//! What holds of every text and its tokens.
//!
//! The tokens of a text cover it: each starts where the one before ended, none
//! is empty, and the last ends with the text. A token's length is a `u32`, so
//! what is said here of lengths is said of texts in which no token is longer
//! than a `u32` can tell, which holds of every text of less than 4 GiB.

use vstd::prelude::*;
use vstd::utf8::*;
use crate::encoding::{byte_len, lemma_byte_len_lower, lemma_byte_len_split, lemma_encode_concat};
use crate::grammar::{first_token, lex, lexemes, scan_token};
use crate::grammar_facts::lemma_scan_token_bounds;
use crate::token::{LiteralKind, Token, TokenKind};

verus! {

/// The sum of the lengths of `tokens`.
pub open spec fn total_len(tokens: Seq<Token>) -> nat
    decreases tokens.len(),
{
    if tokens.len() == 0 {
        0
    } else {
        tokens[0].len as nat + total_len(tokens.drop_first())
    }
}

/// `bytes` cut into consecutive pieces, one for each of `tokens` and as long as
/// that token says.
pub open spec fn slices(bytes: Seq<u8>, tokens: Seq<Token>) -> Seq<Seq<u8>>
    decreases tokens.len(),
{
    if tokens.len() == 0 {
        Seq::empty()
    } else {
        seq![bytes.take(tokens[0].len as int)] + slices(
            bytes.skip(tokens[0].len as int),
            tokens.drop_first(),
        )
    }
}

/// No token of `s` takes more bytes than a `u32` can tell.
pub open spec fn lengths_fit(s: Seq<char>) -> bool {
    forall|i: int| 0 <= i < lexemes(s).len() ==> byte_len(#[trigger] lexemes(s)[i]) <= u32::MAX
}

/// The first token of a text whose lengths fit has its true length, and the
/// lengths of the rest of the text fit too.
proof fn lemma_lengths_fit_unfolds(s: Seq<char>)
    requires
        s.len() > 0,
        lengths_fit(s),
    ensures
        byte_len(s.take(scan_token(s, 0).end)) <= u32::MAX,
        lengths_fit(s.skip(scan_token(s, 0).end)),
{
    let end = scan_token(s, 0).end;
    let rest = lexemes(s.skip(end));
    assert(lexemes(s)[0] == s.take(end));
    assert forall|i: int| 0 <= i < rest.len() implies byte_len(#[trigger] rest[i])
        <= u32::MAX by {
        assert(lexemes(s)[i + 1] == rest[i]);
    }
}

/// Where the first token of a text is a short string, the text starts with
/// its quote.
proof fn lemma_first_short_string(s: Seq<char>)
    requires
        s.len() > 0,
    ensures
        scan_token(s, 0).kind matches TokenKind::Literal {
            kind: LiteralKind::ShortString { quote, .. },
        } ==> (quote == '\'' || quote == '"') && s[0] == quote,
{
}

/// The lengths of a text of at most `u32::MAX` bytes fit.
pub proof fn lemma_short_text_fits(s: Seq<char>)
    requires
        byte_len(s) <= u32::MAX,
    ensures
        lengths_fit(s),
    decreases s.len(),
{
    if s.len() > 0 {
        let end = scan_token(s, 0).end;
        lemma_scan_token_bounds(s, 0);
        lemma_byte_len_split(s, end);
        lemma_short_text_fits(s.skip(end));
        let rest = lexemes(s.skip(end));
        assert forall|i: int| 0 <= i < lexemes(s).len() implies byte_len(#[trigger] lexemes(s)[i])
            <= u32::MAX by {
            if i > 0 {
                assert(lexemes(s)[i] == rest[i - 1]);
            }
        }
    }
}

/// A text has as many tokens as lexemes, and each token has the length of its
/// lexeme in bytes, cut to 32 bits.
pub proof fn law_tokens_measure_lexemes(s: Seq<char>)
    ensures
        lex(s).len() == lexemes(s).len(),
        forall|i: int|
            0 <= i < lex(s).len() ==> (#[trigger] lex(s)[i]).len == byte_len(lexemes(s)[i]) as u32,
    decreases s.len(),
{
    if s.len() > 0 {
        let end = scan_token(s, 0).end;
        lemma_scan_token_bounds(s, 0);
        law_tokens_measure_lexemes(s.skip(end));
        let rest = lex(s.skip(end));
        assert forall|i: int| 0 <= i < lex(s).len() implies (#[trigger] lex(s)[i]).len == byte_len(
            lexemes(s)[i],
        ) as u32 by {
            if i > 0 {
                assert(lex(s)[i] == rest[i - 1]);
                assert(lexemes(s)[i] == lexemes(s.skip(end))[i - 1]);
            }
        }
    }
}

/// No lexeme is empty, and the lexemes of a text, one after the other, are the
/// text: they leave no gap and do not overlap.
pub proof fn law_lexemes_cover_text(s: Seq<char>)
    ensures
        forall|i: int| 0 <= i < lexemes(s).len() ==> (#[trigger] lexemes(s)[i]).len() > 0,
        lexemes(s).flatten() == s,
    decreases s.len(),
{
    if s.len() > 0 {
        let end = scan_token(s, 0).end;
        lemma_scan_token_bounds(s, 0);
        law_lexemes_cover_text(s.skip(end));
        let rest = lexemes(s.skip(end));
        assert forall|i: int| 0 <= i < lexemes(s).len() implies (#[trigger] lexemes(s)[i]).len()
            > 0 by {
            if i > 0 {
                assert(lexemes(s)[i] == rest[i - 1]);
            }
        }
        assert(lexemes(s).drop_first() =~= rest);
        assert(lexemes(s).flatten() =~= s.take(end) + rest.flatten());
        assert(s.take(end) + s.skip(end) =~= s);
    } else {
        assert(lexemes(s).flatten() =~= s);
    }
}

/// The lengths of the tokens of a text add up to the length of the text in
/// bytes.
pub proof fn law_lengths_cover_text(s: Seq<char>)
    requires
        lengths_fit(s),
    ensures
        total_len(lex(s)) == byte_len(s),
    decreases s.len(),
{
    if s.len() > 0 {
        let end = scan_token(s, 0).end;
        lemma_scan_token_bounds(s, 0);
        lemma_lengths_fit_unfolds(s);
        law_lengths_cover_text(s.skip(end));
        lemma_byte_len_split(s, end);
        assert(lex(s).drop_first() =~= lex(s.skip(end)));
        assert(lex(s)[0] == first_token(s));
    } else {
        assert(encode_utf8(s) =~= Seq::<u8>::empty());
    }
}

/// No token is empty.
pub proof fn law_tokens_not_empty(s: Seq<char>)
    requires
        lengths_fit(s),
    ensures
        forall|i: int| 0 <= i < lex(s).len() ==> (#[trigger] lex(s)[i]).len > 0,
{
    law_tokens_measure_lexemes(s);
    law_lexemes_cover_text(s);
    assert forall|i: int| 0 <= i < lex(s).len() implies (#[trigger] lex(s)[i]).len > 0 by {
        lemma_byte_len_lower(lexemes(s)[i]);
    }
}

/// Cutting the bytes of a text by the lengths of its tokens gives, for each
/// token, the bytes of its lexeme; and these pieces, one after the other, are
/// the bytes of the text.
pub proof fn law_round_trip(s: Seq<char>)
    requires
        lengths_fit(s),
    ensures
        slices(encode_utf8(s), lex(s)).len() == lexemes(s).len(),
        forall|i: int|
            0 <= i < lexemes(s).len() ==> (#[trigger] slices(encode_utf8(s), lex(s))[i])
                == encode_utf8(lexemes(s)[i]),
        slices(encode_utf8(s), lex(s)).flatten() == encode_utf8(s),
    decreases s.len(),
{
    let bytes = encode_utf8(s);
    if s.len() > 0 {
        let end = scan_token(s, 0).end;
        let rest = s.skip(end);
        lemma_scan_token_bounds(s, 0);
        lemma_lengths_fit_unfolds(s);
        law_round_trip(rest);
        lemma_encode_concat(s.take(end), rest);
        assert(s.take(end) + rest =~= s);
        assert(lex(s).drop_first() =~= lex(rest));
        assert(lex(s)[0] == first_token(s));
        let n = lex(s)[0].len as int;
        assert(n == byte_len(s.take(end)));
        assert(bytes.take(n) =~= encode_utf8(s.take(end)));
        assert(bytes.skip(n) =~= encode_utf8(rest));
        let pieces = slices(bytes, lex(s));
        let rest_pieces = slices(encode_utf8(rest), lex(rest));
        assert(pieces =~= seq![bytes.take(n)] + rest_pieces);
        assert forall|i: int| 0 <= i < lexemes(s).len() implies (#[trigger] pieces[i])
            == encode_utf8(lexemes(s)[i]) by {
            if i > 0 {
                assert(pieces[i] == rest_pieces[i - 1]);
                assert(lexemes(s)[i] == lexemes(rest)[i - 1]);
            }
        }
        assert(pieces.drop_first() =~= rest_pieces);
        assert(pieces.flatten() =~= bytes.take(n) + rest_pieces.flatten());
        assert(bytes.take(n) + bytes.skip(n) =~= bytes);
    } else {
        assert(bytes =~= Seq::<u8>::empty());
        assert(slices(bytes, lex(s)).flatten() =~= bytes);
    }
}

/// A short string opens with one of the two quotes, `'` and `"`, and its token
/// tells which.
pub proof fn law_quotes_are_delimiters(s: Seq<char>)
    ensures
        forall|i: int|
            0 <= i < lex(s).len() ==> ((#[trigger] lex(s)[i]).kind matches TokenKind::Literal {
                kind: LiteralKind::ShortString { quote, .. },
            } ==> (quote == '\'' || quote == '"') && lexemes(s)[i][0] == quote),
    decreases s.len(),
{
    if s.len() > 0 {
        let end = scan_token(s, 0).end;
        lemma_scan_token_bounds(s, 0);
        law_quotes_are_delimiters(s.skip(end));
        law_tokens_measure_lexemes(s);
        law_tokens_measure_lexemes(s.skip(end));
        law_lexemes_cover_text(s);
        let rest = lex(s.skip(end));
        assert forall|i: int| 0 <= i < lex(s).len() implies ((#[trigger] lex(s)[i]).kind matches TokenKind::Literal {
            kind: LiteralKind::ShortString { quote, .. },
        } ==> (quote == '\'' || quote == '"') && lexemes(s)[i][0] == quote) by {
            if i > 0 {
                assert(lex(s)[i] == rest[i - 1]);
                assert(lexemes(s)[i] == lexemes(s.skip(end))[i - 1]);
            } else {
                lemma_first_short_string(s);
            }
        }
    }
}

/// The tokens depend on the characters of the text and on nothing else: two
/// inputs that hold the same characters have the same tokens.
pub proof fn law_deterministic(a: &str, b: &str)
    requires
        a@ == b@,
    ensures
        lex(a@) == lex(b@),
{
}

} // verus!
