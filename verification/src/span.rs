//! Canonical UTF-8 byte spans and the coordinate systems derived from them.
//!
//! Half-open UTF-8 byte offsets are authoritative. The `char_start` /
//! `char_end` members of [`TextSpan`] are compatibility values only; UTF-16
//! and grapheme offsets are always derived from the byte range.

use unicode_segmentation::UnicodeSegmentation;

use vstd::prelude::*;
use vstd::string::StrSliceExecFns;
use vstd::string::StringExecFns;
use vstd::string::StringSliceAdditionalSpecFns;
use vstd::utf8::*;

use crate::chars::{collect_chars, decimal, decimal_text};

verus! {

broadcast use {vstd::utf8::encode_utf8_valid_utf8, vstd::utf8::encode_utf8_decode_utf8};

/// A half-open UTF-8 byte range, with legacy scalar offsets kept for compatibility.
#[derive(Debug, Clone, Copy, PartialEq, Eq, Structural)]
pub struct TextSpan {
    pub byte_start: usize,
    pub byte_end: usize,
    pub char_start: usize,
    pub char_end: usize,
}

/// Explicit UTF-16 code-unit offsets derived from a canonical UTF-8 byte span.
#[derive(Debug, Clone, Copy, PartialEq, Eq, Structural)]
pub struct Utf16Span {
    /// Inclusive UTF-16 code-unit offset.
    pub start: usize,
    /// Exclusive UTF-16 code-unit offset.
    pub end: usize,
}

/// Explicit grapheme-cluster offsets derived from a canonical UTF-8 byte span.
#[derive(Debug, Clone, Copy, PartialEq, Eq, Structural)]
pub struct GraphemeOffsetSpan {
    /// Inclusive grapheme-cluster offset.
    pub start: usize,
    /// Exclusive grapheme-cluster offset.
    pub end: usize,
}

/// Errors raised when a canonical UTF-8 byte span cannot be converted safely.
#[derive(Debug, Clone, Copy, PartialEq, Eq, Structural)]
pub enum TextSpanConversionError {
    /// The range is reversed or lies outside the source text.
    InvalidByteRange { byte_start: usize, byte_end: usize, text_length: usize },
    /// One of the offsets splits a UTF-8 scalar value.
    NonCharacterBoundary { byte_start: usize, byte_end: usize },
}

/// The UTF-8 bytes of a character sequence.
pub open spec fn utf8_bytes(text: Seq<char>) -> Seq<u8> {
    encode_utf8(text)
}

/// True when `offset` falls between two encoded characters of `text` (or at either end).
pub open spec fn is_utf8_boundary(text: Seq<char>, offset: int) -> bool {
    is_char_boundary(utf8_bytes(text), offset)
}

/// The characters whose UTF-8 encoding is the first `offset` bytes of `text`.
pub open spec fn chars_before(text: Seq<char>, offset: int) -> Seq<char> {
    decode_utf8(utf8_bytes(text).subrange(0, offset))
}

/// Number of UTF-16 code units needed to encode `text`.
pub open spec fn utf16_len(text: Seq<char>) -> nat
    decreases text.len(),
{
    if text.len() == 0 {
        0
    } else {
        utf16_len(text.drop_last()) + (if text.last() as u32 >= 0x10000 {
            2nat
        } else {
            1nat
        })
    }
}

/// The outcome of validating the byte range `start..end` against `text`.
pub open spec fn byte_range_check(text: Seq<char>, start: usize, end: usize) -> Result<
    (),
    TextSpanConversionError,
> {
    let length = utf8_bytes(text).len();
    if start > end || end > length {
        Err(
            TextSpanConversionError::InvalidByteRange {
                byte_start: start,
                byte_end: end,
                text_length: length as usize,
            },
        )
    } else if !is_utf8_boundary(text, start as int) || !is_utf8_boundary(text, end as int) {
        Err(TextSpanConversionError::NonCharacterBoundary { byte_start: start, byte_end: end })
    } else {
        Ok(())
    }
}

/// The span that [`TextSpan::from_byte_range`] builds for a valid range.
pub open spec fn canonical_span(text: Seq<char>, start: usize, end: usize) -> TextSpan {
    TextSpan {
        byte_start: start,
        byte_end: end,
        char_start: chars_before(text, start as int).len() as usize,
        char_end: chars_before(text, end as int).len() as usize,
    }
}

/// What [`TextSpan::to_utf16`] gives for `span` over `text`: the UTF-16
/// code units before each byte offset, or the refusal of the byte range.
pub open spec fn utf16_conversion(text: Seq<char>, span: TextSpan) -> Result<Utf16Span, TextSpanConversionError> {
    match byte_range_check(text, span.byte_start, span.byte_end) {
        Err(error) => Err(error),
        Ok(()) => Ok(
            Utf16Span {
                start: utf16_len(chars_before(text, span.byte_start as int)) as usize,
                end: utf16_len(chars_before(text, span.byte_end as int)) as usize,
            },
        ),
    }
}

/// What [`TextSpan::to_grapheme`] gives for `span` over `text`: the extended
/// grapheme clusters before each byte offset, or the refusal of the byte range.
pub open spec fn grapheme_conversion(text: Seq<char>, span: TextSpan) -> Result<
    GraphemeOffsetSpan,
    TextSpanConversionError,
> {
    match byte_range_check(text, span.byte_start, span.byte_end) {
        Err(error) => Err(error),
        Ok(()) => Ok(
            GraphemeOffsetSpan {
                start: extended_grapheme_count(chars_before(text, span.byte_start as int)),
                end: extended_grapheme_count(chars_before(text, span.byte_end as int)),
            },
        ),
    }
}

/// Name for the number of extended grapheme clusters (UAX #29) in `text`.
pub uninterp spec fn extended_grapheme_count(text: Seq<char>) -> usize;

/// Counts the extended grapheme clusters of `text` with
/// `unicode_segmentation::UnicodeSegmentation::graphemes(text, true).count()`.
/// The contract only names the result as a function of the characters; the
/// segmentation rules of UAX #29 themselves are not restated here.
#[verifier::external_body]
fn grapheme_count(text: &str) -> (count: usize)
    ensures
        count == extended_grapheme_count(text@),
{
    text.graphemes(true).count()
}

/// The UTF-8 byte length of `text`.
fn byte_length(text: &str) -> (length: usize)
    ensures
        length == utf8_bytes(text@).len(),
{
    text.as_bytes().len()
}

/// The prefix of `text` made of its first `offset` bytes, as characters.
fn prefix_at(text: &str, offset: usize) -> (prefix: &str)
    requires
        is_utf8_boundary(text@, offset as int),
    ensures
        prefix@ == chars_before(text@, offset as int),
{
    let (prefix, _) = text.split_at(offset);
    proof {
        assert(prefix@ == decode_utf8(encode_utf8(prefix@)));
    }
    prefix
}

proof fn lemma_utf16_len_bounded(text: Seq<char>)
    ensures
        utf16_len(text) <= utf8_bytes(text).len(),
    decreases text.len(),
{
    if text.len() > 0 {
        let init = text.drop_last();
        let c = text.last();
        lemma_utf16_len_bounded(init);
        lemma_encode_utf8_append(init, c);
        vstd::utf8::char_is_scalar(c);
        assert(text =~= init.push(c));
        assert(encode_scalar(c as u32).len() >= 1);
        if c as u32 >= 0x10000 {
            assert(encode_scalar(c as u32).len() == 4);
        }
    }
}

pub(crate) proof fn lemma_encode_utf8_append(init: Seq<char>, c: char)
    ensures
        encode_utf8(init.push(c)) == encode_utf8(init) + encode_scalar(c as u32),
    decreases init.len(),
{
    if init.len() == 0 {
        assert(init.push(c).drop_first() =~= Seq::<char>::empty());
        assert(encode_utf8(init.push(c)) =~= encode_scalar(c as u32) + encode_utf8(
            Seq::<char>::empty(),
        ));
    } else {
        lemma_encode_utf8_append(init.drop_first(), c);
        assert(init.push(c).drop_first() =~= init.drop_first().push(c));
        assert(encode_utf8(init) + encode_scalar(c as u32) =~= encode_scalar(init[0] as u32) + (
        encode_utf8(init.drop_first()) + encode_scalar(c as u32)));
    }
}

/// Counts the UTF-16 code units of `text`.
fn count_utf16_units(text: &str) -> (units: usize)
    ensures
        units == utf16_len(text@),
{
    let chars = collect_chars(text);
    let byte_count = byte_length(text);
    proof {
        lemma_utf16_len_bounded(text@);
        assert(utf16_len(text@) <= byte_count);
    }
    let mut units: usize = 0;
    let mut index: usize = 0;
    while index < chars.len()
        invariant
            chars@ == text@,
            index <= chars.len(),
            units == utf16_len(chars@.take(index as int)),
            utf16_len(chars@) <= usize::MAX,
        decreases chars.len() - index,
    {
        proof {
            assert(chars@.take(index as int + 1).drop_last() =~= chars@.take(index as int));
            lemma_utf16_len_prefix_monotone(chars@, index as int + 1);
        }
        if (chars[index] as u32) >= 0x10000 {
            units = units + 2;
        } else {
            units = units + 1;
        }
        index = index + 1;
    }
    proof {
        assert(chars@.take(index as int) =~= chars@);
    }
    units
}

pub(crate) proof fn lemma_utf16_len_prefix_monotone(text: Seq<char>, count: int)
    requires
        0 <= count <= text.len(),
    ensures
        utf16_len(text.take(count)) <= utf16_len(text),
    decreases text.len(),
{
    if count < text.len() {
        assert(text.drop_last().take(count) =~= text.take(count));
        lemma_utf16_len_prefix_monotone(text.drop_last(), count);
    } else {
        assert(text.take(count) =~= text);
    }
}

impl TextSpan {
    /// Constructs a canonical span from a validated UTF-8 byte range.
    ///
    /// Legacy scalar offsets are populated only for compatibility. Callers own
    /// byte ranges; alternate coordinate systems are derived at their boundary.
    pub fn from_byte_range(text: &str, byte_start: usize, byte_end: usize) -> (result: Result<
        TextSpan,
        TextSpanConversionError,
    >)
        ensures
            match result {
                Ok(span) => byte_range_check(text@, byte_start, byte_end) is Ok && span
                    == canonical_span(text@, byte_start, byte_end),
                Err(error) => byte_range_check(text@, byte_start, byte_end) == Err::<
                    (),
                    TextSpanConversionError,
                >(error),
            },
    {
        let candidate = TextSpan { byte_start, byte_end, char_start: 0, char_end: 0 };
        match candidate.validate_byte_range(text) {
            Err(error) => Err(error),
            Ok(()) => {
                let char_start = prefix_at(text, byte_start).unicode_len();
                let char_end = prefix_at(text, byte_end).unicode_len();
                Ok(TextSpan { byte_start, byte_end, char_start, char_end })
            },
        }
    }

    /// Validates the canonical byte range against the supplied UTF-8 text.
    pub fn validate_byte_range(self, text: &str) -> (result: Result<(), TextSpanConversionError>)
        ensures
            result == byte_range_check(text@, self.byte_start, self.byte_end),
    {
        let length = byte_length(text);
        if self.byte_start > self.byte_end || self.byte_end > length {
            return Err(
                TextSpanConversionError::InvalidByteRange {
                    byte_start: self.byte_start,
                    byte_end: self.byte_end,
                    text_length: length,
                },
            );
        }
        if !text.is_char_boundary(self.byte_start) || !text.is_char_boundary(self.byte_end) {
            return Err(
                TextSpanConversionError::NonCharacterBoundary {
                    byte_start: self.byte_start,
                    byte_end: self.byte_end,
                },
            );
        }
        Ok(())
    }

    /// Converts the canonical byte range to UTF-16 code-unit offsets.
    ///
    /// Legacy `char_start`/`char_end` fields are intentionally ignored.
    pub fn to_utf16(self, text: &str) -> (result: Result<Utf16Span, TextSpanConversionError>)
        ensures
            result == utf16_conversion(text@, self),
    {
        self.validate_byte_range(text)?;
        let start = count_utf16_units(prefix_at(text, self.byte_start));
        let end = count_utf16_units(prefix_at(text, self.byte_end));
        Ok(Utf16Span { start, end })
    }

    /// Converts the canonical byte range to grapheme-cluster offsets.
    ///
    /// Legacy `char_start`/`char_end` fields are intentionally ignored.
    pub fn to_grapheme(self, text: &str) -> (result: Result<
        GraphemeOffsetSpan,
        TextSpanConversionError,
    >)
        ensures
            result == grapheme_conversion(text@, self),
    {
        self.validate_byte_range(text)?;
        let start = grapheme_count(prefix_at(text, self.byte_start));
        let end = grapheme_count(prefix_at(text, self.byte_end));
        Ok(GraphemeOffsetSpan { start, end })
    }
}

/// Whether the byte range of `outer` contains that of `inner`.
pub fn contains_span(outer: TextSpan, inner: TextSpan) -> (contains: bool)
    ensures
        contains == (outer.byte_start <= inner.byte_start && inner.byte_end <= outer.byte_end),
{
    outer.byte_start <= inner.byte_start && outer.byte_end >= inner.byte_end
}

/// The span that covers all of `text`.
pub fn span_for_text(text: &str) -> (span: TextSpan)
    ensures
        span == canonical_span(text@, 0, utf8_bytes(text@).len() as usize),
        span.char_end == text@.len(),
{
    let byte_end = byte_length(text);
    let char_end = text.unicode_len();
    proof {
        vstd::utf8::encode_utf8_decode_utf8(text@);
        assert(utf8_bytes(text@).subrange(0, byte_end as int) =~= utf8_bytes(text@));
    }
    TextSpan { byte_start: 0, byte_end, char_start: 0, char_end }
}

/// The sentence that describes a refused byte range, as characters.
pub open spec fn conversion_error_text(error: TextSpanConversionError) -> Seq<char> {
    match error {
        TextSpanConversionError::InvalidByteRange { byte_start, byte_end, text_length } =>
            "invalid UTF-8 byte range "@ + decimal_text(byte_start as nat) + ".."@ + decimal_text(
            byte_end as nat) + " for text length "@ + decimal_text(text_length as nat),
        TextSpanConversionError::NonCharacterBoundary { byte_start, byte_end } =>
            "UTF-8 byte range "@ + decimal_text(byte_start as nat) + ".."@ + decimal_text(
            byte_end as nat) + " does not align to character boundaries"@,
    }
}

impl TextSpanConversionError {
    /// A sentence that describes the refused range.
    pub fn message(&self) -> (text: String)
        ensures
            text@ == conversion_error_text(*self),
    {
        match *self {
            TextSpanConversionError::InvalidByteRange { byte_start, byte_end, text_length } => {
                let mut text = String::from_str("invalid UTF-8 byte range ");
                text.append(decimal(byte_start).as_str());
                text.append("..");
                text.append(decimal(byte_end).as_str());
                text.append(" for text length ");
                text.append(decimal(text_length).as_str());
                text
            },
            TextSpanConversionError::NonCharacterBoundary { byte_start, byte_end } => {
                let mut text = String::from_str("UTF-8 byte range ");
                text.append(decimal(byte_start).as_str());
                text.append("..");
                text.append(decimal(byte_end).as_str());
                text.append(" does not align to character boundaries");
                text
            },
        }
    }
}

} // verus!
