use nlp_stack::span::{
    contains_span, span_for_text, GraphemeOffsetSpan, TextSpan, TextSpanConversionError, Utf16Span,
};

#[test]
fn span_construction_derives_legacy_scalars_from_bytes() {
    let text = "e\u{301}👍🏽a";
    let span = TextSpan::from_byte_range(text, 3, 11).unwrap();

    assert_eq!((span.byte_start, span.byte_end), (3, 11));
    assert_eq!((span.char_start, span.char_end), (2, 4));
}

#[test]
fn span_conversions_use_bytes_as_the_source_of_truth() {
    let text = "e\u{301}👍🏽a";
    let span = TextSpan {
        byte_start: 3,
        byte_end: 11,
        char_start: 99,
        char_end: 100,
    };

    assert_eq!(span.to_utf16(text).unwrap(), Utf16Span { start: 2, end: 6 });
    assert_eq!(
        span.to_grapheme(text).unwrap(),
        GraphemeOffsetSpan { start: 1, end: 2 }
    );
}

#[test]
fn span_conversions_reject_non_utf8_boundaries() {
    let text = "é";
    let span = TextSpan {
        byte_start: 1,
        byte_end: 2,
        char_start: 0,
        char_end: 1,
    };

    assert_eq!(
        span.to_utf16(text),
        Err(TextSpanConversionError::NonCharacterBoundary {
            byte_start: 1,
            byte_end: 2,
        })
    );
}

#[test]
fn span_conversions_reject_reversed_ranges() {
    let text = "abc";
    let span = TextSpan {
        byte_start: 2,
        byte_end: 1,
        char_start: 2,
        char_end: 1,
    };

    assert_eq!(
        span.to_grapheme(text),
        Err(TextSpanConversionError::InvalidByteRange {
            byte_start: 2,
            byte_end: 1,
            text_length: 3,
        })
    );
}

#[test]
fn construction_past_the_end_reports_the_text_length() {
    assert_eq!(
        TextSpan::from_byte_range("abc", 1, 4),
        Err(TextSpanConversionError::InvalidByteRange {
            byte_start: 1,
            byte_end: 4,
            text_length: 3,
        })
    );
}

#[test]
fn construction_inside_a_scalar_is_a_boundary_error() {
    assert_eq!(
        TextSpan::from_byte_range("aé", 0, 2),
        Err(TextSpanConversionError::NonCharacterBoundary {
            byte_start: 0,
            byte_end: 2,
        })
    );
}

#[test]
fn validation_agrees_with_construction() {
    let text = "x👍y";
    let span = TextSpan::from_byte_range(text, 1, 5).unwrap();
    assert_eq!((span.char_start, span.char_end), (1, 2));
    assert_eq!(span.validate_byte_range(text), Ok(()));
    assert_eq!(span.to_utf16(text), Ok(Utf16Span { start: 1, end: 3 }));
}

#[test]
fn empty_range_at_the_end_is_valid() {
    let text = "añ";
    let span = TextSpan::from_byte_range(text, 3, 3).unwrap();
    assert_eq!((span.char_start, span.char_end), (2, 2));
    assert_eq!(span.to_grapheme(text), Ok(GraphemeOffsetSpan { start: 2, end: 2 }));
}

#[test]
fn grapheme_offsets_count_clusters_not_scalars() {
    let text = "🇩🇪x";
    let span = TextSpan::from_byte_range(text, 8, 9).unwrap();
    assert_eq!((span.char_start, span.char_end), (2, 3));
    assert_eq!(span.to_grapheme(text), Ok(GraphemeOffsetSpan { start: 1, end: 2 }));
    assert_eq!(span.to_utf16(text), Ok(Utf16Span { start: 4, end: 5 }));
}

#[test]
fn whole_text_span_and_containment() {
    let whole = span_for_text("añb");
    assert_eq!((whole.byte_start, whole.byte_end, whole.char_start, whole.char_end), (0, 4, 0, 3));
    let inner = TextSpan::from_byte_range("añb", 1, 3).unwrap();
    assert!(contains_span(whole, inner));
    assert!(!contains_span(inner, whole));
    assert!(contains_span(inner, inner));
}

#[test]
fn conversion_errors_read_as_sentences() {
    assert_eq!(
        TextSpanConversionError::InvalidByteRange {
            byte_start: 2,
            byte_end: 1,
            text_length: 3,
        }
        .message(),
        "invalid UTF-8 byte range 2..1 for text length 3"
    );
    assert_eq!(
        TextSpanConversionError::NonCharacterBoundary {
            byte_start: 10,
            byte_end: 1234567,
        }
        .message(),
        "UTF-8 byte range 10..1234567 does not align to character boundaries"
    );
}

#[test]
fn decimal_numerals_match_display() {
    for value in [0usize, 7, 10, 99, 100, 4096, usize::MAX] {
        assert_eq!(nlp_stack::chars::decimal(value), value.to_string());
    }
}
