//! Lengths in bytes: how much room a text takes once it is encoded in UTF-8.
//!
//! The lexer reads characters and reports bytes. What the encoding is, vstd
//! defines; here is what the lexer needs to know of its length.

use vstd::prelude::*;
use vstd::utf8::*;

verus! {

/// Number of bytes that the UTF-8 encoding of `chars` occupies.
pub open spec fn byte_len(chars: Seq<char>) -> nat {
    encode_utf8(chars).len()
}

/// Number of bytes that the UTF-8 encoding of the single character `c` occupies.
pub open spec fn char_width(c: char) -> nat {
    if c as u32 <= 0x7F {
        1
    } else if c as u32 <= 0x7FF {
        2
    } else if c as u32 <= 0xFFFF {
        3
    } else {
        4
    }
}

/// `char_width` is the length of the encoding that vstd's model of UTF-8 gives to `c`.
pub proof fn lemma_char_width(c: char)
    ensures
        encode_scalar(c as u32).len() == char_width(c),
        1 <= char_width(c) <= 4,
{
}

/// Width in bytes of `c` once encoded.
pub fn len_utf8(c: char) -> (w: usize)
    ensures
        w == char_width(c),
{
    let v: u32 = c as u32;
    if v <= 0x7F {
        1
    } else if v <= 0x7FF {
        2
    } else if v <= 0xFFFF {
        3
    } else {
        4
    }
}

/// Encoding distributes over concatenation.
pub proof fn lemma_encode_concat(a: Seq<char>, b: Seq<char>)
    ensures
        encode_utf8(a + b) == encode_utf8(a) + encode_utf8(b),
    decreases a.len(),
{
    if a.len() == 0 {
        assert(a + b =~= b);
        assert(encode_utf8(a) + encode_utf8(b) =~= encode_utf8(b));
    } else {
        lemma_encode_concat(a.drop_first(), b);
        assert((a + b).drop_first() =~= a.drop_first() + b);
        assert(encode_utf8(a + b) =~= encode_utf8(a) + encode_utf8(b));
    }
}

/// The byte length of a text is the sum of the byte lengths of its two parts at any cut.
pub proof fn lemma_byte_len_split(s: Seq<char>, n: int)
    requires
        0 <= n <= s.len(),
    ensures
        byte_len(s) == byte_len(s.take(n)) + byte_len(s.skip(n)),
{
    lemma_encode_concat(s.take(n), s.skip(n));
    assert(s.take(n) + s.skip(n) =~= s);
}

/// One character more takes as many bytes more as the character is wide.
pub proof fn lemma_byte_len_step(s: Seq<char>, n: int)
    requires
        0 <= n < s.len(),
    ensures
        byte_len(s.take(n + 1)) == byte_len(s.take(n)) + char_width(s[n]),
{
    let last = seq![s[n]];
    lemma_encode_concat(s.take(n), last);
    assert(s.take(n + 1) =~= s.take(n) + last);
    lemma_char_width(s[n]);
    assert(last.drop_first() =~= Seq::<char>::empty());
    assert(encode_utf8(last.drop_first()) =~= Seq::<u8>::empty());
    assert(encode_utf8(last) =~= encode_scalar(last[0] as u32));
}

/// Every character takes at least one byte.
pub proof fn lemma_byte_len_lower(s: Seq<char>)
    ensures
        s.len() <= byte_len(s),
    decreases s.len(),
{
    if s.len() > 0 {
        lemma_char_width(s[0]);
        lemma_byte_len_lower(s.drop_first());
    }
}

/// Two texts with the same encoding are the same text.
pub proof fn lemma_encode_injective(a: Seq<char>, b: Seq<char>)
    requires
        encode_utf8(a) == encode_utf8(b),
    ensures
        a == b,
{
    encode_utf8_decode_utf8(a);
    encode_utf8_decode_utf8(b);
}

} // verus!
