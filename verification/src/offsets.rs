//! Byte offsets into the UTF-8 form of a text, and the characters they
//! fall on.

use crate::text::to_chars;
use vstd::prelude::*;
use vstd::utf8::{char_is_scalar, encode_scalar, encode_utf8};

verus! {

/// The number of bytes that `c` takes in UTF-8: from 1 to 4.
pub open spec fn width(c: char) -> int {
    encode_scalar(c as u32).len() as int
}

/// The number of bytes that `text` takes in UTF-8.
pub open spec fn byte_len(text: Seq<char>) -> int {
    encode_utf8(text).len() as int
}

/// The byte offset at which the character `k` of `text` begins; for `k`
/// the length of `text`, its length in bytes.
pub open spec fn byte_offset(text: Seq<char>, k: int) -> int {
    byte_len(text.take(k))
}

/// The index of the first character of `text`, from `k` on, that begins at
/// the byte `offset` or behind it; the length of `text` if there is none.
pub open spec fn char_index_from(text: Seq<char>, offset: int, k: int) -> int
    decreases text.len() - k,
{
    if k < 0 || k >= text.len() || byte_offset(text, k) >= offset {
        k
    } else {
        char_index_from(text, offset, k + 1)
    }
}

/// The index of the first character of `text` that begins at the byte
/// `offset` or behind it; the length of `text` if there is none.
pub open spec fn char_index(text: Seq<char>, offset: int) -> int {
    char_index_from(text, offset, 0)
}

/// The bytes of two texts, one after the other, are the bytes of the texts
/// joined.
pub proof fn lemma_encode_concat(a: Seq<char>, b: Seq<char>)
    ensures
        encode_utf8(a + b) == encode_utf8(a) + encode_utf8(b),
    decreases a.len(),
{
    if a.len() == 0 {
        assert(a + b == b);
        assert(encode_utf8(a) + encode_utf8(b) == encode_utf8(b));
    } else {
        assert((a + b).drop_first() == a.drop_first() + b);
        lemma_encode_concat(a.drop_first(), b);
        assert(encode_utf8(a + b) == encode_scalar(a[0] as u32) + (encode_utf8(a.drop_first())
            + encode_utf8(b)));
        assert(encode_scalar(a[0] as u32) + (encode_utf8(a.drop_first()) + encode_utf8(b))
            == encode_utf8(a) + encode_utf8(b));
    }
}

/// A character takes from 1 to 4 bytes.
pub proof fn lemma_width_bounds(c: char)
    ensures
        1 <= width(c) <= 4,
{
    char_is_scalar(c);
}

/// The next character begins where this one ends.
pub proof fn lemma_byte_offset_step(text: Seq<char>, k: int)
    requires
        0 <= k < text.len(),
    ensures
        byte_offset(text, k + 1) == byte_offset(text, k) + width(text[k]),
        byte_offset(text, k) < byte_offset(text, k + 1),
{
    assert(text.take(k + 1) == text.take(k) + seq![text[k]]);
    lemma_encode_concat(text.take(k), seq![text[k]]);
    let one = seq![text[k]];
    assert(one.drop_first() == Seq::<char>::empty());
    assert(encode_utf8(one) == encode_scalar(text[k] as u32) + encode_utf8(one.drop_first()));
    assert(encode_utf8(Seq::<char>::empty()).len() == 0);
    lemma_width_bounds(text[k]);
}

/// Later characters begin at later bytes, and none beyond the end.
pub proof fn lemma_byte_offset_increasing(text: Seq<char>, j: int, k: int)
    requires
        0 <= j <= k <= text.len(),
    ensures
        byte_offset(text, j) + (k - j) <= byte_offset(text, k),
        byte_offset(text, text.len() as int) == byte_len(text),
    decreases k - j,
{
    assert(text.take(text.len() as int) == text);
    if j < k {
        lemma_byte_offset_increasing(text, j, k - 1);
        lemma_byte_offset_step(text, k - 1);
    }
}

/// The bytes of a part of a text are the bytes between the offsets of its
/// ends.
pub proof fn lemma_byte_len_subrange(text: Seq<char>, j: int, k: int)
    requires
        0 <= j <= k <= text.len(),
    ensures
        byte_offset(text, k) == byte_offset(text, j) + byte_len(text.subrange(j, k)),
{
    assert(text.take(k) == text.take(j) + text.subrange(j, k));
    lemma_encode_concat(text.take(j), text.subrange(j, k));
}

/// The character found for the offset at which character `k` begins is `k`.
pub proof fn lemma_char_index_of_offset(text: Seq<char>, k: int)
    requires
        0 <= k <= text.len(),
    ensures
        char_index(text, byte_offset(text, k)) == k,
{
    lemma_char_index_walk(text, byte_offset(text, k), k, 0);
}

proof fn lemma_char_index_walk(text: Seq<char>, offset: int, k: int, from: int)
    requires
        0 <= from <= k <= text.len(),
        offset == byte_offset(text, k),
    ensures
        char_index_from(text, offset, from) == k,
    decreases k - from,
{
    if from < k {
        lemma_byte_offset_increasing(text, from, k);
        lemma_char_index_walk(text, offset, k, from + 1);
    }
}

/// The number of bytes that `c` takes in UTF-8.
pub fn utf8_width(c: char) -> (w: usize)
    ensures
        w == width(c),
        1 <= w <= 4,
{
    proof {
        char_is_scalar(c);
    }
    let v: u32 = c as u32;
    if v <= 0x7F {
        1
    } else if v <= 0x7FF {
        2
    } else if v <= 0xFFFF {
        3
    } else {
        4
    }
}

/// The byte offset at which the character `k` of `text` begins.
pub fn offset_of(text: &str, k: usize) -> (offset: usize)
    requires
        k <= text@.len(),
    ensures
        offset == byte_offset(text@, k as int),
{
    let chars = to_chars(text);
    let total: usize = text.as_bytes().len();
    let mut offset: usize = 0;
    let mut i: usize = 0;
    assert(chars@.take(0) == Seq::<char>::empty());
    while i < k
        invariant
            i <= k <= chars.len(),
            total == byte_len(chars@),
            offset == byte_offset(chars@, i as int),
        decreases k - i,
    {
        proof {
            lemma_byte_offset_step(chars@, i as int);
            lemma_byte_offset_increasing(chars@, i + 1, chars@.len() as int);
        }
        offset = offset + utf8_width(chars[i]);
        i += 1;
    }
    offset
}

/// The index of the first character of `text` that begins at the byte
/// `offset` or behind it.
pub fn index_at(text: &Vec<char>, offset: usize) -> (k: usize)
    ensures
        k == char_index(text@, offset as int),
        k <= text.len(),
{
    let mut k: usize = 0;
    let mut left: usize = offset;
    assert(text@.take(0) == Seq::<char>::empty());
    while k < text.len() && left > 0
        invariant
            k <= text.len(),
            left <= offset,
            byte_offset(text@, k as int) + left == offset || (left == 0 && byte_offset(
                text@,
                k as int,
            ) >= offset),
            char_index_from(text@, offset as int, k as int) == char_index(text@, offset as int),
        decreases text.len() - k,
    {
        proof {
            lemma_byte_offset_step(text@, k as int);
        }
        let w = utf8_width(text[k]);
        left = if w >= left { 0 } else { left - w };
        k += 1;
    }
    k
}

} // verus!
