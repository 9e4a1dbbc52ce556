//! A cursor over a text: it reads one character at a time, looks one character
//! ahead, and knows how many bytes it has read since it was last reset.

use vstd::prelude::*;
use vstd::utf8::*;
use crate::encoding::{
    byte_len,
    lemma_byte_len_lower,
    lemma_byte_len_split,
    lemma_char_width,
    lemma_encode_injective,
    len_utf8,
};
use crate::grammar::{char_at, run_end, EOF_CHAR};

verus! {

/// The executable predicate `f` can be called on every character, and what it
/// answers is what `p` says.
pub open spec fn decides<F: Fn(char) -> bool>(f: F, p: spec_fn(char) -> bool) -> bool {
    &&& forall|c: char| call_requires(f, (c,))
    &&& forall|c: char, b: bool| call_ensures(f, (c,), b) ==> b == p(c)
}

/// A reader of the text it was made on, or last reset on.
///
/// It stands at the index `pos()` of `text()`. Reading moves it on; a reset
/// makes what is left its whole text. It keeps a view into the input and
/// copies nothing.
pub struct Cursor<'a> {
    /// The length in bytes of what was left to read at the last reset.
    initial_len: usize,
    /// What is left to read now.
    rest: &'a str,
    /// What was left to read at the last reset.
    origin: Ghost<Seq<char>>,
}

impl<'a> Cursor<'a> {
    #[verifier::type_invariant]
    spec fn is_suffix(&self) -> bool {
        &&& self.rest@.len() <= self.origin@.len()
        &&& self.rest@ == self.origin@.skip(self.origin@.len() - self.rest@.len())
        &&& self.initial_len == byte_len(self.origin@)
    }

    /// The text that the cursor reads: what was left of the input at the last reset.
    pub closed spec fn text(&self) -> Seq<char> {
        self.origin@
    }

    /// How many characters of `text()` have been read.
    pub closed spec fn pos(&self) -> int {
        if self.rest@.len() <= self.origin@.len() {
            self.origin@.len() - self.rest@.len()
        } else {
            0
        }
    }

    /// The cursor stands inside its text, or at its end.
    pub proof fn lemma_pos_in_bounds(&self)
        ensures
            0 <= self.pos() <= self.text().len(),
    {
    }

    /// What is left to read.
    pub open spec fn remaining(&self) -> Seq<char> {
        self.text().skip(self.pos())
    }

    /// What has been read since the last reset.
    pub open spec fn consumed(&self) -> Seq<char> {
        self.text().take(self.pos())
    }

    /// A cursor at the start of `input`.
    pub fn new(input: &'a str) -> (cursor: Cursor<'a>)
        ensures
            cursor.text() == input@,
            cursor.pos() == 0,
    {
        assert(input@.skip(0) =~= input@);
        Cursor { initial_len: input.as_bytes().len(), rest: input, origin: Ghost(input@) }
    }

    /// Peeks the next symbol from the input stream without consuming it.
    /// If there is none, `EOF_CHAR` is returned. Getting `EOF_CHAR` does not
    /// always mean the end of the text, which `is_eof` tells.
    pub fn peek(&self) -> (c: char)
        ensures
            c == char_at(self.text(), self.pos()),
            0 <= self.pos() <= self.text().len(),
    {
        proof {
            use_type_invariant(self);
        }
        let mut chars = self.rest.chars();
        match chars.next() {
            Some(c) => c,
            None => EOF_CHAR,
        }
    }

    /// Checks if there is nothing more to consume.
    pub fn is_eof(&self) -> (eof: bool)
        ensures
            eof == (self.pos() == self.text().len()),
            0 <= self.pos() <= self.text().len(),
    {
        proof {
            use_type_invariant(self);
        }
        self.rest.is_empty()
    }

    /// The number of bytes consumed since the last reset.
    pub fn bytes_consumed(&self) -> (n: usize)
        ensures
            n == byte_len(self.consumed()),
            0 <= self.pos() <= self.text().len(),
    {
        proof {
            use_type_invariant(self);
            lemma_byte_len_split(self.origin@, self.origin@.len() - self.rest@.len());
        }
        self.initial_len - self.rest.as_bytes().len()
    }

    /// The number of bytes consumed since the last reset, cut to 32 bits.
    pub fn len_consumed(&self) -> (n: u32)
        ensures
            n == byte_len(self.consumed()) as u32,
            0 <= self.pos() <= self.text().len(),
    {
        #[verifier::truncate]
        (self.bytes_consumed() as u32)
    }

    /// Resets the number of bytes consumed to 0: what is left becomes the text.
    pub fn reset_len_consumed(&mut self)
        ensures
            final(self).text() == old(self).remaining(),
            final(self).pos() == 0,
    {
        proof {
            use_type_invariant(&*self);
            assert(self.rest@.skip(0) =~= self.rest@);
        }
        *self = Cursor {
            initial_len: self.rest.as_bytes().len(),
            rest: self.rest,
            origin: Ghost(self.rest@),
        };
    }

    /// Moves to the next character, and returns the one passed over.
    pub fn consume(&mut self) -> (c: Option<char>)
        ensures
            final(self).text() == old(self).text(),
            0 <= old(self).pos() <= final(self).pos() <= old(self).text().len(),
            old(self).pos() < old(self).text().len() ==> c == Some(
                old(self).text()[old(self).pos()],
            ) && final(self).pos() == old(self).pos() + 1,
            old(self).pos() == old(self).text().len() ==> c.is_none() && final(self).pos() == old(
                self,
            ).pos(),
    {
        proof {
            use_type_invariant(&*self);
        }
        let mut chars = self.rest.chars();
        match chars.next() {
            Some(c) => {
                let width = len_utf8(c);
                proof {
                    let s = self.rest@;
                    let bytes = encode_utf8(s);
                    encode_utf8_first_scalar(s);
                    encode_utf8_valid_utf8(s);
                    lemma_char_width(c);
                    assert(pop_first_scalar(bytes) =~= encode_utf8(s.drop_first()));
                    encode_utf8_valid_utf8(s.drop_first());
                    reveal_with_fuel(is_char_boundary, 2);
                    assert(is_char_boundary(bytes, width as int));
                }
                let (_, tail) = self.rest.split_at(width);
                proof {
                    let s = self.rest@;
                    assert(encode_utf8(tail@) =~= encode_utf8(s.drop_first()));
                    lemma_encode_injective(tail@, s.drop_first());
                    assert(old(self).text().skip(old(self).pos() + 1) =~= s.drop_first());
                }
                self.rest = tail;
                Some(c)
            },
            None => None,
        }
    }

    /// Consumes symbols while `predicate` returns true or until the end of the
    /// text is reached.
    pub fn consume_while<F: Fn(char) -> bool>(&mut self, predicate: F)
        requires
            forall|c: char| call_requires(predicate, (c,)),
        ensures
            final(self).text() == old(self).text(),
            0 <= old(self).pos() <= final(self).pos() <= old(self).text().len(),
            forall|p: spec_fn(char) -> bool|
                decides(predicate, p) ==> final(self).pos() == #[trigger] run_end(
                    old(self).text(),
                    old(self).pos(),
                    p,
                ),
    {
        proof {
            use_type_invariant(&*self);
        }
        while !self.is_eof() && predicate(self.peek())
            invariant
                forall|c: char| call_requires(predicate, (c,)),
                self.text() == old(self).text(),
                0 <= old(self).pos() <= self.pos() <= self.text().len(),
                forall|p: spec_fn(char) -> bool|
                    decides(predicate, p) ==> run_end(self.text(), self.pos(), p)
                        == #[trigger] run_end(old(self).text(), old(self).pos(), p),
            decreases self.text().len() - self.pos(),
        {
            self.consume();
        }
    }

    /// Consumes symbols while `predicate` returns true or until the end of the
    /// text is reached, and counts them.
    pub fn count_and_consume_while<F: Fn(char) -> bool>(&mut self, predicate: F) -> (count: usize)
        requires
            forall|c: char| call_requires(predicate, (c,)),
        ensures
            final(self).text() == old(self).text(),
            0 <= old(self).pos() <= final(self).pos() <= old(self).text().len(),
            count == final(self).pos() - old(self).pos(),
            forall|p: spec_fn(char) -> bool|
                decides(predicate, p) ==> final(self).pos() == #[trigger] run_end(
                    old(self).text(),
                    old(self).pos(),
                    p,
                ),
    {
        let mut count: usize = 0;
        proof {
            use_type_invariant(&*self);
            lemma_byte_len_lower(self.origin@);
        }
        while !self.is_eof() && predicate(self.peek())
            invariant
                forall|c: char| call_requires(predicate, (c,)),
                self.text() == old(self).text(),
                0 <= old(self).pos() <= self.pos() <= self.text().len(),
                count == self.pos() - old(self).pos(),
                self.text().len() <= usize::MAX,
                forall|p: spec_fn(char) -> bool|
                    decides(predicate, p) ==> run_end(self.text(), self.pos(), p)
                        == #[trigger] run_end(old(self).text(), old(self).pos(), p),
            decreases self.text().len() - self.pos(),
        {
            count += 1;
            self.consume();
        }
        count
    }
}

} // verus!
