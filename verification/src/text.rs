//! Cutting a `&str` at byte offsets.
//!
//! The scanner addresses its buffer by byte offsets, as the pattern matcher
//! does. The functions here cut a string at such offsets, and the lemmas say
//! how character boundaries of a string relate to those of its prefixes and
//! suffixes.

use vstd::prelude::*;
use vstd::string::*;
use vstd::utf8::*;

verus! {

/// `index` is an offset into `bytes` at which a character starts or the
/// sequence ends.
pub open spec fn is_cut_point(bytes: Seq<u8>, index: int) -> bool {
    &&& 0 <= index <= bytes.len()
    &&& is_char_boundary(bytes, index)
}

/// The bytes of a text that may be absent.
pub open spec fn bytes_of(text: Option<&str>) -> Option<Seq<u8>> {
    match text {
        Some(t) => Some(t.spec_bytes()),
        None => None,
    }
}

/// The bytes of the text in the outcome of an operation that may fail.
pub open spec fn outcome_bytes<E>(outcome: Result<Option<&str>, E>) -> Result<Option<Seq<u8>>, E> {
    match outcome {
        Ok(text) => Ok(bytes_of(text)),
        Err(e) => Err(e),
    }
}

/// A character boundary strictly inside a sequence is recognised by the byte
/// that stands there, so it is a boundary of every valid sequence that holds
/// the same byte at the same place.
proof fn lemma_cut_point_by_byte(a: Seq<u8>, i: int, b: Seq<u8>, j: int)
    requires
        valid_utf8(a),
        valid_utf8(b),
        0 <= i < a.len(),
        0 <= j < b.len(),
        a[i] == b[j],
    ensures
        is_char_boundary(a, i) <==> is_char_boundary(b, j),
{
    is_char_boundary_iff_not_is_continuation_byte(a, i);
    is_char_boundary_iff_not_is_continuation_byte(b, j);
}

/// The cut points of a suffix that starts at a cut point are those of the
/// whole sequence, shifted by the start of the suffix.
pub proof fn lemma_cut_point_in_suffix(bytes: Seq<u8>, start: int, index: int)
    requires
        valid_utf8(bytes),
        is_cut_point(bytes, start),
        0 <= index <= bytes.len() - start,
    ensures
        valid_utf8(bytes.subrange(start, bytes.len() as int)),
        is_cut_point(bytes.subrange(start, bytes.len() as int), index) <==> is_cut_point(
            bytes,
            start + index,
        ),
{
    let suffix = bytes.subrange(start, bytes.len() as int);
    valid_utf8_split(bytes, start);
    is_char_boundary_start_end_of_seq(bytes);
    is_char_boundary_start_end_of_seq(suffix);
    if 0 < index < suffix.len() {
        lemma_cut_point_by_byte(suffix, index, bytes, start + index);
    }
}

/// The cut points of a prefix that ends at a cut point are the cut points of
/// the whole sequence that lie in it.
pub proof fn lemma_cut_point_in_prefix(bytes: Seq<u8>, end: int, index: int)
    requires
        valid_utf8(bytes),
        is_cut_point(bytes, end),
        0 <= index <= end,
    ensures
        valid_utf8(bytes.subrange(0, end)),
        is_cut_point(bytes.subrange(0, end), index) <==> is_cut_point(bytes, index),
{
    let prefix = bytes.subrange(0, end);
    valid_utf8_split(bytes, end);
    is_char_boundary_start_end_of_seq(bytes);
    is_char_boundary_start_end_of_seq(prefix);
    if 0 < index < end {
        lemma_cut_point_by_byte(prefix, index, bytes, index);
    }
}

/// The first character of a text that is not empty ends at a cut point
/// behind its start, and no cut point lies inside it.
pub proof fn lemma_first_char_ends_at_cut_point(bytes: Seq<u8>)
    requires
        valid_utf8(bytes),
        bytes.len() > 0,
    ensures
        0 < length_of_first_scalar(bytes) <= 4,
        is_cut_point(bytes, length_of_first_scalar(bytes)),
        forall|i: int| 0 < i < length_of_first_scalar(bytes) ==> !is_cut_point(bytes, i),
        valid_utf8(pop_first_scalar(bytes)),
{
    let n = length_of_first_scalar(bytes);
    assert(is_char_boundary(pop_first_scalar(bytes), 0));
    assert forall|i: int| 0 < i < n implies !is_cut_point(bytes, i) by {
        is_char_boundary_iff_not_is_continuation_byte(bytes, i);
    }
}

/// The first character of a text, read from its bytes: the bytes up to the
/// first cut point are the encoding of the first character, and the rest of
/// the bytes hold the rest of the characters.
pub proof fn lemma_first_char_of_text(bytes: Seq<u8>)
    requires
        valid_utf8(bytes),
        bytes.len() > 0,
    ensures
        decode_utf8(bytes).len() > 0,
        take_first_scalar(bytes) == encode_utf8(seq![decode_utf8(bytes)[0]]),
        decode_utf8(pop_first_scalar(bytes)) == decode_utf8(bytes).drop_first(),
{
    let first = decode_first_scalar(bytes) as char;
    let rest = pop_first_scalar(bytes);
    assert(decode_utf8(bytes) == seq![first] + decode_utf8(rest));
    assert(decode_utf8(bytes).drop_first() =~= decode_utf8(rest));
    decode_utf8_first_scalar(bytes);
    let one = seq![first];
    assert(one.drop_first() =~= Seq::<char>::empty());
    assert(encode_utf8(one) =~= encode_scalar(first as u32)) by {
        reveal_with_fuel(encode_utf8, 2);
    }
}

/// A text ends with a line feed exactly if its last byte is 10: the line
/// feed is encoded as that one byte, and no other character holds it.
pub proof fn lemma_line_feed_is_last_byte(bytes: Seq<u8>)
    requires
        valid_utf8(bytes),
        bytes.len() > 0,
    ensures
        decode_utf8(bytes).len() > 0,
        decode_utf8(bytes).last() == '\n' <==> bytes.last() == 10u8,
    decreases bytes.len(),
{
    let rest = pop_first_scalar(bytes);
    let first = decode_first_scalar(bytes);
    assert(decode_utf8(bytes) == seq![first as char] + decode_utf8(rest));
    if rest.len() == 0 {
        let b = bytes[0];
        if is_leading_byte_width_1(b) {
            assert((b & 0x7F) as u32 == b as u32) by (bit_vector)
                requires
                    b <= 0x7f,
            ;
        } else {
            decode_utf8_first_scalar(bytes);
            assert(take_first_scalar(bytes).len() >= 2);
        }
    } else {
        lemma_line_feed_is_last_byte(rest);
    }
}

/// The number of bytes in `s`.
pub(crate) fn byte_len(s: &str) -> (n: usize)
    ensures
        n == s.spec_bytes().len(),
{
    s.as_bytes().len()
}

/// The part of `s` from byte offset `from` to its end.
pub(crate) fn tail<'a>(s: &'a str, from: usize) -> (r: &'a str)
    requires
        is_cut_point(s.spec_bytes(), from as int),
    ensures
        r.spec_bytes() == s.spec_bytes().subrange(from as int, s.spec_bytes().len() as int),
{
    s.split_at(from).1
}

/// The part of `s` before byte offset `to`.
pub(crate) fn head<'a>(s: &'a str, to: usize) -> (r: &'a str)
    requires
        is_cut_point(s.spec_bytes(), to as int),
    ensures
        r.spec_bytes() == s.spec_bytes().subrange(0, to as int),
{
    s.split_at(to).0
}

/// The part of `s` from byte offset `from` up to, not including, `to`.
pub(crate) fn between<'a>(s: &'a str, from: usize, to: usize) -> (r: &'a str)
    requires
        from <= to,
        is_cut_point(s.spec_bytes(), from as int),
        is_cut_point(s.spec_bytes(), to as int),
    ensures
        r.spec_bytes() == s.spec_bytes().subrange(from as int, to as int),
{
    let front = head(s, to);
    proof {
        encode_utf8_valid_utf8(s@);
        lemma_cut_point_in_prefix(s.spec_bytes(), to as int, from as int);
    }
    let r = tail(front, from);
    r
}

} // verus!
