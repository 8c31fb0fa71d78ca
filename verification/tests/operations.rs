use nlp_stack::cli::{parse_operation, TextCoreOperation};
use nlp_stack::stats::{
    analyze_text_statistics, count_lines, statistics_diagnostics, DiagnosticSeverity, TextStatisticsRequest,
};

#[test]
fn text_statistics_operation_returns_statistics_directly() {
    let result = analyze_text_statistics(TextStatisticsRequest {
        text: "Hello world.\nAgain.".to_string(),
    });

    assert_eq!(result.word_count, 3);
    assert_eq!(result.sentence_count, 2);
}

#[test]
fn text_statistics_operation_handles_empty_input() {
    let result = analyze_text_statistics(TextStatisticsRequest {
        text: String::new(),
    });

    assert_eq!(result.byte_count, 0);
    assert_eq!(result.character_count, 0);
    assert_eq!(result.word_count, 0);
}

#[test]
fn statistics_count_bytes_characters_and_lines() {
    let result = analyze_text_statistics(TextStatisticsRequest {
        text: "héllo\nwörld".to_string(),
    });

    assert_eq!(result.byte_count, 13);
    assert_eq!(result.character_count, 11);
    assert_eq!(result.word_count, 2);
    assert_eq!(result.line_count, 2);
    assert_eq!(result.sentence_count, 2);
}

#[test]
fn empty_input_has_no_lines_or_sentences() {
    let result = analyze_text_statistics(TextStatisticsRequest {
        text: String::new(),
    });

    assert_eq!(result.line_count, 0);
    assert_eq!(result.sentence_count, 0);
}

#[test]
fn line_count_follows_line_feeds() {
    assert_eq!(count_lines(""), 0);
    assert_eq!(count_lines("one"), 1);
    assert_eq!(count_lines("one\ntwo"), 2);
    assert_eq!(count_lines("one\ntwo\n"), 2);
    assert_eq!(count_lines("one\r\ntwo"), 2);
}

#[test]
fn statistics_preserves_the_operation_result_envelope() {
    assert_eq!(parse_operation("text.statistics"), Some(TextCoreOperation::Statistics));
    let result = analyze_text_statistics(TextStatisticsRequest { text: "one two".to_string() });
    assert_eq!(result.word_count, 2);
    assert!(statistics_diagnostics("one two").is_empty());
}

#[test]
fn statistics_preserves_empty_input_diagnostics() {
    let diagnostics = statistics_diagnostics("");
    assert_eq!(diagnostics.len(), 1);
    assert_eq!(diagnostics[0].code, "text.empty");
    assert_eq!(diagnostics[0].severity, DiagnosticSeverity::Warning);
    assert_eq!(diagnostics[0].message, "Input text is empty.");
}
