//! Spans of a string between byte offsets that fall on character boundaries.

use vstd::prelude::*;
use vstd::string::*;
use vstd::utf8::*;

verus! {

/// The characters that `text` holds between the byte offsets `from` and `to`
/// of its UTF-8 encoding.
pub open spec fn byte_span(text: Seq<char>, from: int, to: int) -> Seq<char> {
    decode_utf8(encode_utf8(text).subrange(from, to))
}

/// Whether `at` is a byte offset of `text` at which a character starts or
/// the text ends.
pub open spec fn on_boundary(text: Seq<char>, at: int) -> bool {
    0 <= at <= encode_utf8(text).len() && is_char_boundary(encode_utf8(text), at)
}

/// A character boundary of a byte string is also one of each prefix that
/// ends on a later boundary.
pub proof fn lemma_boundary_in_prefix(bytes: Seq<u8>, from: int, to: int)
    requires
        valid_utf8(bytes),
        0 <= from <= to <= bytes.len(),
        is_char_boundary(bytes, from),
        is_char_boundary(bytes, to),
    ensures
        valid_utf8(bytes.subrange(0, to)),
        is_char_boundary(bytes.subrange(0, to), from),
{
    valid_utf8_split(bytes, to);
    let head = bytes.subrange(0, to);
    if from == to {
        is_char_boundary_start_end_of_seq(head);
    } else {
        is_char_boundary_iff_not_is_continuation_byte(bytes, from);
        is_char_boundary_iff_not_is_continuation_byte(head, from);
        assert(head[from] == bytes[from]);
    }
}

/// The bytes between two character boundaries are valid UTF-8, and a
/// boundary between the two is a boundary of that part.
pub proof fn lemma_boundary_in_part(bytes: Seq<u8>, from: int, mid: int, to: int)
    requires
        valid_utf8(bytes),
        0 <= from <= mid <= to <= bytes.len(),
        is_char_boundary(bytes, from),
        is_char_boundary(bytes, mid),
        is_char_boundary(bytes, to),
    ensures
        valid_utf8(bytes.subrange(from, to)),
        is_char_boundary(bytes.subrange(from, to), mid - from),
{
    lemma_boundary_in_prefix(bytes, from, to);
    let head = bytes.subrange(0, to);
    valid_utf8_split(head, from);
    let part = bytes.subrange(from, to);
    assert(part =~= head.subrange(from, head.len() as int));
    if mid == to {
        is_char_boundary_start_end_of_seq(part);
    } else {
        is_char_boundary_iff_not_is_continuation_byte(bytes, mid);
        is_char_boundary_iff_not_is_continuation_byte(part, mid - from);
        assert(part[mid - from] == bytes[mid]);
    }
}

/// Two adjoining spans make up the span over both.
pub proof fn lemma_span_join(text: Seq<char>, from: int, mid: int, to: int)
    requires
        from <= mid <= to,
        on_boundary(text, from),
        on_boundary(text, mid),
        on_boundary(text, to),
    ensures
        byte_span(text, from, mid) + byte_span(text, mid, to) == byte_span(text, from, to),
{
    let bytes = encode_utf8(text);
    encode_utf8_valid_utf8(text);
    lemma_boundary_in_part(bytes, from, mid, to);
    let part = bytes.subrange(from, to);
    decode_utf8_split(part, mid - from);
    assert(part.subrange(0, mid - from) =~= bytes.subrange(from, mid));
    assert(part.subrange(mid - from, part.len() as int) =~= bytes.subrange(mid, to));
}

/// The span over all the bytes of a text is the text.
pub proof fn lemma_span_whole(text: Seq<char>)
    ensures
        byte_span(text, 0, encode_utf8(text).len() as int) == text,
        on_boundary(text, 0),
        on_boundary(text, encode_utf8(text).len() as int),
{
    let bytes = encode_utf8(text);
    encode_utf8_valid_utf8(text);
    encode_utf8_decode_utf8(text);
    is_char_boundary_start_end_of_seq(bytes);
    assert(bytes.subrange(0, bytes.len() as int) =~= bytes);
}

/// The part of `text` between two byte offsets on character boundaries.
pub fn span<'a>(text: &'a str, from: usize, to: usize) -> (piece: &'a str)
    requires
        from <= to,
        on_boundary(text@, from as int),
        on_boundary(text@, to as int),
    ensures
        piece@ == byte_span(text@, from as int, to as int),
{
    let ghost bytes = encode_utf8(text@);
    proof {
        encode_utf8_valid_utf8(text@);
        lemma_boundary_in_prefix(bytes, from as int, to as int);
    }
    let (head, _) = text.split_at(to);
    let (_, piece) = head.split_at(from);
    proof {
        assert(piece.spec_bytes() =~= bytes.subrange(from as int, to as int));
        encode_utf8_decode_utf8(piece@);
    }
    piece
}

} // verus!
