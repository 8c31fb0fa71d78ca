//! Properties of canonical byte spans and of the coordinates derived from them.

use vstd::prelude::*;
use vstd::utf8::*;

use crate::span::{
    byte_range_check, canonical_span, chars_before, grapheme_conversion, lemma_encode_utf8_append,
    lemma_utf16_len_prefix_monotone, utf16_conversion, utf16_len, utf8_bytes, TextSpan,
};

verus! {

proof fn lemma_encoded_prefix_grows(text: Seq<char>, shorter: int, longer: int)
    requires
        0 <= shorter <= longer <= text.len(),
    ensures
        encode_utf8(text.take(shorter)).len() + (longer - shorter) <= encode_utf8(
            text.take(longer),
        ).len(),
    decreases longer - shorter,
{
    if shorter < longer {
        lemma_encoded_prefix_grows(text, shorter, longer - 1);
        assert(text.take(longer) =~= text.take(longer - 1).push(text[longer - 1]));
        lemma_encode_utf8_append(text.take(longer - 1), text[longer - 1]);
        char_is_scalar(text[longer - 1]);
    }
}

proof fn lemma_boundary_prefix(text: Seq<char>, offset: int)
    requires
        is_char_boundary(utf8_bytes(text), offset),
        0 <= offset <= utf8_bytes(text).len(),
    ensures
        text.take(chars_before(text, offset).len() as int) == chars_before(text, offset),
        encode_utf8(chars_before(text, offset)).len() == offset,
        chars_before(text, offset).len() <= offset,
        chars_before(text, offset).len() <= text.len(),
{
    let bytes = utf8_bytes(text);
    encode_utf8_valid_utf8(text);
    encode_utf8_decode_utf8(text);
    decode_utf8_split(bytes, offset);
    valid_utf8_split(bytes, offset);
    decode_utf8_encode_utf8(bytes.subrange(0, offset));
    let prefix = chars_before(text, offset);
    assert(text == prefix + decode_utf8(bytes.subrange(offset, bytes.len() as int)));
    assert(text.take(prefix.len() as int) =~= prefix);
    lemma_encoded_prefix_grows(prefix, 0, prefix.len() as int);
    assert(prefix.take(prefix.len() as int) =~= prefix);
}

/// For a valid byte range, the scalar offsets of the canonical span count the
/// characters before each byte offset, so the characters before the start
/// are a prefix of the text; both scalar and UTF-16 offsets keep the order of
/// the byte offsets.
pub proof fn law_canonical_offsets_are_ordered_prefixes(text: Seq<char>, start: usize, end: usize)
    requires
        byte_range_check(text, start, end) is Ok,
    ensures
        ({
            let span = canonical_span(text, start, end);
            &&& text.take(span.char_start as int) == chars_before(text, start as int)
            &&& text.take(span.char_end as int) == chars_before(text, end as int)
            &&& span.char_start <= span.char_end
            &&& utf16_len(chars_before(text, start as int)) <= utf16_len(
                chars_before(text, end as int),
            )
        }),
{
    lemma_boundary_prefix(text, start as int);
    lemma_boundary_prefix(text, end as int);
    let a = chars_before(text, start as int).len() as int;
    let b = chars_before(text, end as int).len() as int;
    if a > b {
        lemma_encoded_prefix_grows(text, b, a);
    }
    lemma_utf16_len_prefix_monotone(text.take(b), a);
    assert(text.take(b).take(a) =~= text.take(a));
}

/// Byte offsets are the only source of truth of a span: two spans with the
/// same byte range convert to the same UTF-16 and grapheme offsets (or are
/// refused alike), whatever their legacy scalar offsets hold.
pub proof fn law_conversions_read_only_byte_offsets(text: Seq<char>, span: TextSpan, other: TextSpan)
    requires
        span.byte_start == other.byte_start,
        span.byte_end == other.byte_end,
    ensures
        utf16_conversion(text, span) == utf16_conversion(text, other),
        grapheme_conversion(text, span) == grapheme_conversion(text, other),
{
}

/// A span built from a byte range converts wherever its byte range is valid,
/// and its scalar offsets count the characters before its byte offsets.
pub proof fn law_constructed_spans_convert(text: Seq<char>, start: usize, end: usize)
    requires
        byte_range_check(text, start, end) is Ok,
    ensures
        utf16_conversion(text, canonical_span(text, start, end)) is Ok,
        grapheme_conversion(text, canonical_span(text, start, end)) is Ok,
        canonical_span(text, start, end).char_start == chars_before(text, start as int).len(),
        canonical_span(text, start, end).char_end == chars_before(text, end as int).len(),
{
    law_canonical_offsets_are_ordered_prefixes(text, start, end);
    lemma_boundary_prefix(text, start as int);
    lemma_boundary_prefix(text, end as int);
}

} // verus!
