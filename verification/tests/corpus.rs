use nlp_stack::corpus::{
    corpus_source, normalized_author, passage, validate_corpus, validate_items, CorpusItemError,
    PassageUnit, SemanticCorpusItem,
};
use nlp_stack::span::TextSpan;

#[test]
fn corpus_rejects_duplicate_item_identity() {
    let items = [
        SemanticCorpusItem::new("same", Some("Alice"), "First text."),
        SemanticCorpusItem::new("same", Some("Alice"), "Second text."),
    ];

    let error = validate_corpus(&items, 8, 1).unwrap_err();
    assert!(error
        .message()
        .contains("duplicate semantic corpus item id"));
    assert_eq!(error, CorpusItemError::DuplicateItemId("same"));
}

#[test]
fn corpus_checks_come_in_order() {
    let good = [SemanticCorpusItem::new("a", None, "Text.")];
    assert_eq!(validate_corpus(&[], 0, 0), Err(CorpusItemError::EmptyCorpus));
    assert_eq!(validate_corpus(&good, 0, 0), Err(CorpusItemError::ZeroTopTerms));
    assert_eq!(
        validate_corpus(&good, 1, 0),
        Err(CorpusItemError::ZeroMinConceptUnits)
    );
    assert_eq!(validate_corpus(&good, 1, 1), Ok(()));
    assert_eq!(validate_items(&good), Ok(()));
    assert_eq!(validate_items(&[]), Err(CorpusItemError::EmptyCorpus));
}

#[test]
fn every_item_problem_is_reported() {
    assert_eq!(
        validate_items(&[SemanticCorpusItem::new(" \t", None, "Text.")]),
        Err(CorpusItemError::EmptyItemId)
    );
    assert_eq!(
        validate_items(&[SemanticCorpusItem::new("a", None, "  ")]),
        Err(CorpusItemError::EmptyItemText("a"))
    );
    assert_eq!(
        validate_items(&[SemanticCorpusItem::new("a", Some(" "), "Text.")]),
        Err(CorpusItemError::EmptyAuthor("a"))
    );
    assert_eq!(
        validate_items(&[SemanticCorpusItem::new("a", None, "Text.").with_source("\u{3000}")]),
        Err(CorpusItemError::EmptySource("a"))
    );
}

#[test]
fn error_messages_name_the_item() {
    assert_eq!(
        CorpusItemError::EmptyItemText("x").message(),
        "semantic corpus item `x` text must not be empty"
    );
    assert_eq!(
        CorpusItemError::EmptyCorpus.message(),
        "semantic corpus must contain at least one item"
    );
}

#[test]
fn builders_attach_source_and_timestamp() {
    let item = SemanticCorpusItem::new("id", Some(" Alice "), "Text.")
        .with_source("notes/a.txt")
        .with_timestamp_millis(42);
    assert_eq!(item.source, Some("notes/a.txt"));
    assert_eq!(item.timestamp_millis, Some(42));
    let source = corpus_source(&item);
    assert_eq!(source.id, "id");
    assert_eq!(source.author.as_deref(), Some("Alice"));
    assert_eq!(source.source.as_deref(), Some("notes/a.txt"));
    assert_eq!(source.timestamp_millis, Some(42));
}

#[test]
fn authors_are_trimmed() {
    assert_eq!(normalized_author(Some("\n Bob\u{2009}")), Some("Bob".to_string()));
    assert_eq!(normalized_author(None), None);
}

#[test]
fn word_sense_messages_name_the_word_sense_corpus() {
    assert_eq!(
        CorpusItemError::DuplicateItemId("x").word_sense_message(),
        "duplicate word-sense corpus item id `x`"
    );
    assert_eq!(
        CorpusItemError::ZeroTopTerms.word_sense_message(),
        CorpusItemError::ZeroTopTerms.message()
    );
}

#[test]
fn passages_quote_the_unit_and_its_item_source() {
    let unit = PassageUnit {
        id: "a:sentence:0".to_string(),
        source_id: "a".to_string(),
        speaker: Some("Alice".to_string()),
        span: TextSpan::from_byte_range("River bank.", 0, 11).unwrap(),
        text: "River bank.".to_string(),
    };
    let item = SemanticCorpusItem::new("a", Some("Alice"), "River bank.")
        .with_source("notes/a.txt")
        .with_timestamp_millis(7);
    let record = corpus_source(&item);
    let quoted = passage(&unit, Some(&record));
    assert_eq!(quoted.unit_id, "a:sentence:0");
    assert_eq!(quoted.source.as_deref(), Some("notes/a.txt"));
    assert_eq!(quoted.timestamp_millis, Some(7));
    assert_eq!(quoted.author.as_deref(), Some("Alice"));
    let bare = passage(&unit, None);
    assert_eq!(bare.source, None);
    assert_eq!(bare.timestamp_millis, None);
    assert_eq!(bare.text, "River bank.");
}
