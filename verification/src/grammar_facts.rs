//! What holds of the grammar whatever the text: where runs, strings and
//! brackets end, and that no token is empty or runs past the end of the text.

use vstd::prelude::*;
use crate::classify::{
    spec_is_decimal_digit,
    spec_is_ident_continue,
    spec_is_ident_start,
    spec_is_whitespace,
};
use crate::grammar::{
    char_at,
    closes_at,
    digit_of,
    equals_sign,
    escape_end,
    exponent_digits_start,
    exponent_end,
    fraction_end,
    ident_continue,
    is_exponent_marker,
    not_line_feed,
    opens_long_bracket_at,
    punctuation,
    run_end,
    scan_comment,
    scan_long_bracket,
    scan_long_string,
    scan_number,
    scan_number_tail,
    scan_short_string,
    scan_token,
    whitespace,
};
use crate::token::{NumberBase, TokenKind};

verus! {

/// A run ends between its start and the end of the text.
pub proof fn lemma_run_end_bounds(s: Seq<char>, i: int, p: spec_fn(char) -> bool)
    requires
        0 <= i <= s.len(),
    ensures
        i <= run_end(s, i, p) <= s.len(),
    decreases s.len() - i,
{
    if i < s.len() && p(s[i]) {
        lemma_run_end_bounds(s, i + 1, p);
    }
}

/// Every character of a run satisfies the predicate, and the character behind
/// it, if there is one, does not.
pub proof fn lemma_run_end_is_maximal(s: Seq<char>, i: int, p: spec_fn(char) -> bool)
    requires
        0 <= i <= s.len(),
    ensures
        forall|k: int| i <= k < run_end(s, i, p) ==> p(#[trigger] s[k]),
        run_end(s, i, p) < s.len() ==> !p(s[run_end(s, i, p)]),
    decreases s.len() - i,
{
    if i < s.len() && p(s[i]) {
        lemma_run_end_is_maximal(s, i + 1, p);
    }
}

/// A run that is entered in its middle ends where it would have ended.
pub proof fn lemma_run_end_resumes(s: Seq<char>, i: int, j: int, p: spec_fn(char) -> bool)
    requires
        0 <= i <= j <= s.len(),
        forall|k: int| i <= k < j ==> p(#[trigger] s[k]),
    ensures
        run_end(s, i, p) == run_end(s, j, p),
    decreases j - i,
{
    if i < j {
        lemma_run_end_resumes(s, i + 1, j, p);
    }
}

/// The exponent of a number ends between its start and the end of the text.
proof fn lemma_exponent_bounds(s: Seq<char>, i: int)
    requires
        0 <= i <= s.len(),
    ensures
        i <= exponent_digits_start(s, i) <= exponent_end(s, i) <= s.len(),
{
    lemma_run_end_bounds(s, exponent_digits_start(s, i), digit_of(NumberBase::Decimal));
}

/// The fractional part and the exponent of a number end within the text.
proof fn lemma_number_tail_bounds(s: Seq<char>, i: int, base: NumberBase)
    requires
        0 <= i <= s.len(),
    ensures
        i <= scan_number_tail(s, i, base).end <= s.len(),
{
    if char_at(s, i) == '.' {
        lemma_run_end_bounds(s, i + 1, digit_of(base));
    }
    let marker = fraction_end(s, i, base);
    if is_exponent_marker(base, char_at(s, marker)) {
        lemma_exponent_bounds(s, marker + 1);
    }
}

/// A number ends within the text.
proof fn lemma_number_bounds(s: Seq<char>, i: int, first_digit: char)
    requires
        0 <= i <= s.len(),
    ensures
        i <= scan_number(s, i, first_digit).end <= s.len(),
{
    let next = char_at(s, i);
    if first_digit == '0' && (next == 'x' || next == 'X') {
        lemma_run_end_bounds(s, i + 1, digit_of(NumberBase::Hexadecimal));
        let digits = run_end(s, i + 1, digit_of(NumberBase::Hexadecimal));
        lemma_number_tail_bounds(s, digits, NumberBase::Hexadecimal);
    } else {
        lemma_run_end_bounds(s, i, digit_of(NumberBase::Decimal));
        lemma_number_tail_bounds(
            s,
            run_end(s, i, digit_of(NumberBase::Decimal)),
            NumberBase::Decimal,
        );
    }
}

/// An escape takes at least its backslash and ends within the text.
pub proof fn lemma_escape_bounds(s: Seq<char>, i: int)
    requires
        0 <= i < s.len(),
    ensures
        i < escape_end(s, i) <= s.len(),
{
    if i + 1 < s.len() && s[i + 1] == 'z' {
        lemma_run_end_bounds(s, i + 2, whitespace());
    }
}

/// Content in which no closing bracket of `level` stands from `i` up to `j`
/// ends where the content from `j` on ends.
pub proof fn lemma_long_bracket_skips(s: Seq<char>, i: int, j: int, level: int)
    requires
        0 <= i <= j <= s.len(),
        forall|k: int| i <= k < j ==> !closes_at(s, k, level),
    ensures
        scan_long_bracket(s, i, level) == scan_long_bracket(s, j, level),
    decreases j - i,
{
    if i < j {
        lemma_long_bracket_skips(s, i + 1, j, level);
    }
}

/// A closing bracket spelled out: `]` at `i`, `=` at each of the `level`
/// indices behind it, and `]` behind those.
pub proof fn law_closing_bracket_spelled_out(s: Seq<char>, i: int, level: int)
    requires
        0 <= i,
        0 <= level,
    ensures
        closes_at(s, i, level) <==> {
            &&& i + level + 1 < s.len()
            &&& s[i] == ']'
            &&& forall|k: int| i < k <= i + level ==> #[trigger] s[k] == '='
            &&& s[i + level + 1] == ']'
        },
{
    if i + level + 1 < s.len() {
        lemma_run_end_is_maximal(s, i + 1, equals_sign());
        lemma_run_end_bounds(s, i + 1, equals_sign());
        if forall|k: int| i < k <= i + level ==> #[trigger] s[k] == '=' {
            assert forall|k: int| i + 1 <= k < i + 1 + level implies equals_sign()(
                #[trigger] s[k],
            ) by {}
            lemma_run_end_resumes(s, i + 1, i + 1 + level, equals_sign());
        }
    } else if i < s.len() {
        lemma_run_end_bounds(s, i + 1, equals_sign());
    }
}

/// A short string that is terminated ends with its closing quote. One that is
/// not ends with the text or in front of a line feed.
pub proof fn law_short_string_ends(s: Seq<char>, i: int, quote: char)
    requires
        0 <= i <= s.len(),
    ensures
        ({
            let body = scan_short_string(s, i, quote);
            &&& i <= body.end <= s.len()
            &&& body.terminated ==> i < body.end && s[body.end - 1] == quote
            &&& !body.terminated ==> body.end == s.len() || s[body.end] == '\n'
        }),
    decreases s.len() - i,
{
    if i < s.len() && s[i] != quote {
        if s[i] == '\\' {
            lemma_escape_bounds(s, i);
            law_short_string_ends(s, escape_end(s, i), quote);
        } else if s[i] != '\n' {
            law_short_string_ends(s, i + 1, quote);
        }
    }
}

/// The content of a long bracket ends with the first closing bracket of its
/// level that stands in it, and with the text if none does.
pub proof fn law_long_bracket_ends_at_first_closing(s: Seq<char>, i: int, level: int)
    requires
        0 <= i <= s.len(),
        0 <= level,
    ensures
        ({
            let body = scan_long_bracket(s, i, level);
            let closing = if body.terminated {
                body.end - level - 2
            } else {
                s.len() as int
            };
            &&& i <= closing <= body.end <= s.len()
            &&& body.terminated ==> closes_at(s, closing, level)
            &&& !body.terminated ==> body.end == s.len()
            &&& forall|k: int| i <= k < closing ==> !closes_at(s, k, level)
        }),
    decreases s.len() - i,
{
    if i < s.len() && !closes_at(s, i, level) {
        law_long_bracket_ends_at_first_closing(s, i + 1, level);
    }
}

/// A long string ends within the text.
proof fn lemma_long_string_bounds(s: Seq<char>, i: int)
    requires
        0 <= i <= s.len(),
    ensures
        i <= scan_long_string(s, i).end <= s.len(),
{
    lemma_run_end_bounds(s, i, equals_sign());
    let level_end = run_end(s, i, equals_sign());
    if char_at(s, level_end) == '[' {
        law_long_bracket_ends_at_first_closing(s, level_end + 1, level_end - i);
    }
}

/// A comment takes at least its second `-` and ends within the text.
proof fn lemma_comment_bounds(s: Seq<char>, i: int)
    requires
        0 <= i < s.len(),
    ensures
        i < scan_comment(s, i).end <= s.len(),
{
    if opens_long_bracket_at(s, i + 1) {
        lemma_run_end_bounds(s, i + 2, equals_sign());
        let level_end = run_end(s, i + 2, equals_sign());
        law_long_bracket_ends_at_first_closing(s, level_end + 1, level_end - (i + 2));
    } else {
        lemma_run_end_bounds(s, i + 1, not_line_feed());
    }
}

/// A token is never empty and never runs past the end of the text.
pub proof fn lemma_scan_token_bounds(s: Seq<char>, i: int)
    requires
        0 <= i < s.len(),
    ensures
        i < scan_token(s, i).end <= s.len(),
{
    let c = s[i];
    let next = char_at(s, i + 1);
    if spec_is_whitespace(c) {
        lemma_run_end_bounds(s, i + 1, whitespace());
    } else if c == '-' && next == '-' {
        lemma_comment_bounds(s, i + 1);
    } else if spec_is_decimal_digit(c) {
        lemma_number_bounds(s, i + 1, c);
    } else if c == '\'' || c == '"' {
        law_short_string_ends(s, i + 1, c);
    } else if c == '[' && (next == '[' || next == '=') {
        lemma_long_string_bounds(s, i + 1);
    } else if punctuation(c) is Some {
    } else if spec_is_ident_start(c) {
        lemma_run_end_bounds(s, i + 1, ident_continue());
    }
}

/// What the text of a token is like, for the kinds that say nothing more of it.
///
/// Whitespace and identifiers are runs that no character of their class
/// follows. A short comment starts with `--` and holds no line feed; a line
/// feed or the end of the text follows it. A punctuation mark and an unknown
/// character stand alone.
pub proof fn law_token_shapes(s: Seq<char>, i: int)
    requires
        0 <= i < s.len(),
    ensures
        ({
            let token = scan_token(s, i);
            &&& i < token.end <= s.len()
            &&& token.kind == TokenKind::Whitespace ==> {
                &&& forall|k: int| i <= k < token.end ==> spec_is_whitespace(#[trigger] s[k])
                &&& !spec_is_whitespace(char_at(s, token.end))
            }
            &&& token.kind == TokenKind::Ident ==> {
                &&& spec_is_ident_start(s[i])
                &&& forall|k: int| i < k < token.end ==> spec_is_ident_continue(#[trigger] s[k])
                &&& !spec_is_ident_continue(char_at(s, token.end))
            }
            &&& token.kind == TokenKind::ShortComment ==> {
                &&& s[i] == '-' && char_at(s, i + 1) == '-'
                &&& forall|k: int| i <= k < token.end ==> #[trigger] s[k] != '\n'
                &&& token.end == s.len() || s[token.end] == '\n'
            }
            &&& token.kind == TokenKind::Unknown ==> {
                &&& token.end == i + 1
                &&& !spec_is_ident_start(s[i]) && !spec_is_whitespace(s[i])
                &&& !spec_is_decimal_digit(s[i]) && punctuation(s[i]) is None
            }
            &&& !(token.kind is Whitespace || token.kind is Ident || token.kind is ShortComment
                || token.kind is LongComment || token.kind is Literal || token.kind is Unknown)
                ==> token.end == i + 1 && punctuation(s[i]) == Some(token.kind)
        }),
{
    lemma_scan_token_bounds(s, i);
    let c = s[i];
    let next = char_at(s, i + 1);
    if spec_is_whitespace(c) {
        lemma_run_end_is_maximal(s, i + 1, whitespace());
    } else if c == '-' && next == '-' {
        if !opens_long_bracket_at(s, i + 2) {
            lemma_run_end_is_maximal(s, i + 2, not_line_feed());
        }
    } else if spec_is_decimal_digit(c) {
    } else if c == '\'' || c == '"' {
    } else if c == '[' && (next == '[' || next == '=') {
    } else if punctuation(c) is Some {
    } else if spec_is_ident_start(c) {
        lemma_run_end_is_maximal(s, i + 1, ident_continue());
    }
}

} // verus!
