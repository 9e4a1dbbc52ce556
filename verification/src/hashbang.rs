//! The interpreter directive that a source file may start with.
//!
//! `#!/usr/bin/env tua` on the first line is not part of the language. A caller
//! measures it here and cuts it off before the text goes to the lexer.

use vstd::prelude::*;
use crate::cursor::Cursor;
use crate::encoding::{byte_len, lemma_byte_len_step};
use crate::grammar::{not_line_feed, run_end};

verus! {

/// The text starts with `#!`, with nothing before it.
pub open spec fn has_hashbang(s: Seq<char>) -> bool {
    s.len() >= 2 && s[0] == '#' && s[1] == '!'
}

/// Where the line ends that holds index `from` of `s`, its terminator not
/// counted: before the next line feed, and before the carriage return in front
/// of that line feed if there is one; or where the text ends.
pub open spec fn line_end(s: Seq<char>, from: int) -> int {
    let feed = run_end(s, from, not_line_feed());
    if from < feed < s.len() && s[feed - 1] == '\r' {
        feed - 1
    } else {
        feed
    }
}

/// The length in bytes of the first line of a text that starts with `#!`.
pub open spec fn hashbang_len(s: Seq<char>) -> nat {
    byte_len(s.take(line_end(s, 2)))
}

/// Measures the hashbang line of `input`, if it starts with one.
///
/// The hashbang must start with `#!` literally, with nothing before it. Any
/// first line that does so counts, whatever a platform would make of it.
pub fn strip_hashbang(input: &str) -> (len: Option<usize>)
    ensures
        has_hashbang(input@) ==> len == Some(hashbang_len(input@) as usize) && hashbang_len(input@)
            <= usize::MAX,
        !has_hashbang(input@) ==> len.is_none(),
{
    let mut cursor = Cursor::new(input);
    if cursor.consume() != Some('#') {
        return None;
    }
    if cursor.consume() != Some('!') {
        return None;
    }
    let mut after_carriage_return = false;
    loop
        invariant
            has_hashbang(input@),
            cursor.text() == input@,
            2 <= cursor.pos() <= input@.len(),
            run_end(input@, cursor.pos(), not_line_feed()) == run_end(input@, 2, not_line_feed()),
            after_carriage_return == (cursor.pos() > 2 && input@[cursor.pos() - 1] == '\r'),
        decreases input@.len() - cursor.pos(),
    {
        if cursor.is_eof() {
            return Some(cursor.bytes_consumed());
        }
        let c = cursor.peek();
        if c == '\n' {
            let line = cursor.bytes_consumed();
            if after_carriage_return {
                proof {
                    lemma_byte_len_step(input@, cursor.pos() - 1);
                }
                return Some(line - 1);
            }
            return Some(line);
        }
        after_carriage_return = c == '\r';
        cursor.consume();
    }
}

} // verus!
