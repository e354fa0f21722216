//! Byte offsets into text.
//!
//! A string is a sequence of characters, but highlight ranges count bytes of
//! its UTF-8 encoding. This module says what the stretch of text between two
//! byte offsets is, and cuts it out of a `str`.

use vstd::prelude::*;
use vstd::utf8::*;

verus! {

/// The number of bytes that `text` takes.
pub open spec fn byte_len(text: Seq<char>) -> int {
    encode_utf8(text).len() as int
}

/// Whether the byte offset `at` lies between two characters of `text`, or at
/// its start or end.
pub open spec fn is_boundary(text: Seq<char>, at: int) -> bool {
    0 <= at <= byte_len(text) && is_char_boundary(encode_utf8(text), at)
}

/// The characters of `text` whose bytes lie in `[from, to)`, for two
/// boundaries `from <= to`.
pub open spec fn slice(text: Seq<char>, from: int, to: int) -> Seq<char> {
    decode_utf8(encode_utf8(text).subrange(from, to))
}

/// Only an offset within the text is between two of its characters.
pub proof fn lemma_boundary_in_bounds(text: Seq<char>, at: int)
    ensures
        is_char_boundary(encode_utf8(text), at) ==> is_boundary(text, at),
{
    encode_utf8_valid_utf8(text);
}

/// The bytes between two boundaries are themselves well-formed UTF-8.
pub proof fn lemma_slice_valid(text: Seq<char>, from: int, to: int)
    requires
        from <= to,
        is_boundary(text, from),
        is_boundary(text, to),
    ensures
        valid_utf8(encode_utf8(text).subrange(from, to)),
        is_char_boundary(encode_utf8(text).subrange(0, to), from),
{
    let bytes = encode_utf8(text);
    encode_utf8_valid_utf8(text);
    valid_utf8_split(bytes, to);
    let head = bytes.subrange(0, to);
    lemma_boundary_within(bytes, 0, to, from);
    valid_utf8_split(head, from);
    assert(head.subrange(from, head.len() as int) =~= bytes.subrange(from, to));
}

/// A boundary of a byte sequence is also one of each stretch between two
/// boundaries that holds it.
proof fn lemma_boundary_within(bytes: Seq<u8>, from: int, to: int, at: int)
    requires
        valid_utf8(bytes),
        0 <= from <= at <= to <= bytes.len(),
        is_char_boundary(bytes, at),
        valid_utf8(bytes.subrange(from, to)),
    ensures
        is_char_boundary(bytes.subrange(from, to), at - from),
{
    let part = bytes.subrange(from, to);
    if at == from {
    } else if at == to {
        is_char_boundary_start_end_of_seq(part);
    } else {
        is_char_boundary_iff_not_is_continuation_byte(bytes, at);
        is_char_boundary_iff_not_is_continuation_byte(part, at - from);
    }
}

/// Two stretches that meet at a boundary make up the stretch across both.
pub proof fn lemma_slice_concat(text: Seq<char>, from: int, mid: int, to: int)
    requires
        from <= mid <= to,
        is_boundary(text, from),
        is_boundary(text, mid),
        is_boundary(text, to),
    ensures
        slice(text, from, mid) + slice(text, mid, to) == slice(text, from, to),
{
    let bytes = encode_utf8(text);
    let part = bytes.subrange(from, to);
    encode_utf8_valid_utf8(text);
    lemma_slice_valid(text, from, to);
    lemma_boundary_within(bytes, from, to, mid);
    decode_utf8_split(part, mid - from);
    assert(part.subrange(0, mid - from) =~= bytes.subrange(from, mid));
    assert(part.subrange(mid - from, part.len() as int) =~= bytes.subrange(mid, to));
}

/// The stretch from the start to the end is the whole text.
pub proof fn lemma_slice_whole(text: Seq<char>)
    ensures
        is_boundary(text, 0),
        is_boundary(text, byte_len(text)),
        slice(text, 0, byte_len(text)) == text,
{
    let bytes = encode_utf8(text);
    encode_utf8_valid_utf8(text);
    is_char_boundary_start_end_of_seq(bytes);
    assert(bytes.subrange(0, bytes.len() as int) =~= bytes);
    encode_utf8_decode_utf8(text);
}

/// The stretch between a boundary and itself is empty.
pub proof fn lemma_slice_empty(text: Seq<char>, at: int)
    requires
        is_boundary(text, at),
    ensures
        slice(text, at, at) == Seq::<char>::empty(),
{
}

/// The bytes of two texts put together are the bytes of the first followed by
/// those of the second.
pub proof fn lemma_bytes_concat(first: Seq<char>, second: Seq<char>)
    ensures
        encode_utf8(first + second) == encode_utf8(first) + encode_utf8(second),
    decreases first.len(),
{
    if first.len() > 0 {
        lemma_bytes_concat(first.drop_first(), second);
        assert((first + second).drop_first() =~= first.drop_first() + second);
    }
}

/// The stretch between two boundaries takes the bytes between them.
pub proof fn lemma_slice_bytes(text: Seq<char>, from: int, to: int)
    requires
        from <= to,
        is_boundary(text, from),
        is_boundary(text, to),
    ensures
        encode_utf8(slice(text, from, to)) == encode_utf8(text).subrange(from, to),
        byte_len(slice(text, from, to)) == to - from,
{
    lemma_slice_valid(text, from, to);
    decode_utf8_encode_utf8(encode_utf8(text).subrange(from, to));
}

/// In text of ASCII characters alone every offset up to the length is a
/// boundary, and bytes are characters: a stretch of bytes is the stretch of
/// characters at the same offsets.
pub proof fn lemma_ascii_slice(text: Seq<char>, from: int, to: int)
    requires
        is_ascii_chars(text),
        0 <= from <= to <= text.len(),
    ensures
        byte_len(text) == text.len(),
        is_boundary(text, from),
        is_boundary(text, to),
        slice(text, from, to) == text.subrange(from, to),
{
    let bytes = encode_utf8(text);
    let part = text.subrange(from, to);
    encode_utf8_valid_utf8(text);
    is_ascii_chars_encode_utf8(text);
    is_char_boundary_start_end_of_seq(bytes);
    if 0 < from < bytes.len() {
        is_char_boundary_iff_not_is_continuation_byte(bytes, from);
    }
    if 0 < to < bytes.len() {
        is_char_boundary_iff_not_is_continuation_byte(bytes, to);
    }
    is_ascii_chars_encode_utf8(part);
    assert(encode_utf8(part) =~= bytes.subrange(from, to));
    encode_utf8_decode_utf8(part);
}

/// The number of bytes of `text`.
pub(crate) fn len_in_bytes(text: &str) -> (len: usize)
    ensures
        len == byte_len(text@),
{
    text.as_bytes().len()
}

/// Cuts the stretch between two boundaries out of `text`.
pub(crate) fn substring<'a>(text: &'a str, from: usize, to: usize) -> (piece: &'a str)
    requires
        from <= to,
        is_boundary(text@, from as int),
        is_boundary(text@, to as int),
    ensures
        piece@ == slice(text@, from as int, to as int),
{
    proof {
        lemma_slice_valid(text@, from as int, to as int);
    }
    let (head, _) = text.split_at(to);
    let (_, piece) = head.split_at(from);
    proof {
        let bytes = encode_utf8(text@);
        let kept = encode_utf8(head@);
        assert(kept.subrange(from as int, kept.len() as int) =~= bytes.subrange(
            from as int,
            to as int,
        ));
        encode_utf8_decode_utf8(piece@);
    }
    piece
}

} // verus!
