use nlp_stack::corpus::{corpus_source, SemanticCorpusItem, SemanticCorpusSource};
use nlp_stack::temporal::{
    classify_change, should_report_change, validate_windows, SemanticCorpusTemporalWindow,
    SemanticTemporalChangeKind, ShareTrend, TemporalWindowError,
};

fn sources(items: &[SemanticCorpusItem]) -> Vec<SemanticCorpusSource> {
    items.iter().map(corpus_source).collect()
}

#[test]
fn temporal_windows_reject_unknown_items() {
    let items = [
        SemanticCorpusItem::new("known", Some("Alice"), "Known text."),
        SemanticCorpusItem::new("uncovered", Some("Alice"), "Other text."),
    ];
    let first = ["known"];
    let unknown = ["missing"];
    let windows = [
        SemanticCorpusTemporalWindow::new("one", &first),
        SemanticCorpusTemporalWindow::new("two", &unknown),
    ];

    let error = validate_windows(&sources(&items), &windows).unwrap_err();
    assert!(error.message().contains("references unknown item id"));
}

#[test]
fn windows_must_cover_every_item() {
    let items = [
        SemanticCorpusItem::new("b", None, "B."),
        SemanticCorpusItem::new("a", None, "A."),
        SemanticCorpusItem::new("c", None, "C."),
    ];
    let first = ["c"];
    let second: [&str; 0] = [];
    let windows = [
        SemanticCorpusTemporalWindow::new("one", &first),
        SemanticCorpusTemporalWindow::new("two", &second),
    ];
    let error = validate_windows(&sources(&items), &windows).unwrap_err();
    assert_eq!(
        error,
        TemporalWindowError::UncoveredItems(vec!["a".to_string(), "b".to_string()])
    );
    assert_eq!(
        error.message(),
        "semantic temporal windows must cover every corpus item; missing: a, b"
    );
}

#[test]
fn every_window_problem_is_reported() {
    let items = [SemanticCorpusItem::new("a", None, "A.")];
    let listed = ["a"];
    let twice = ["a", "a"];
    let only = [SemanticCorpusTemporalWindow::new("one", &listed)];
    assert_eq!(
        validate_windows(&sources(&items), &only),
        Err(TemporalWindowError::TooFewWindows)
    );
    let blank = [
        SemanticCorpusTemporalWindow::new(" ", &listed),
        SemanticCorpusTemporalWindow::new("two", &listed),
    ];
    assert_eq!(
        validate_windows(&sources(&items), &blank),
        Err(TemporalWindowError::EmptyWindowId)
    );
    let repeated = [
        SemanticCorpusTemporalWindow::new("one", &listed),
        SemanticCorpusTemporalWindow::new("one", &listed),
    ];
    assert_eq!(
        validate_windows(&sources(&items), &repeated),
        Err(TemporalWindowError::DuplicateWindowId("one"))
    );
    let doubled = [
        SemanticCorpusTemporalWindow::new("one", &twice),
        SemanticCorpusTemporalWindow::new("two", &listed),
    ];
    assert_eq!(
        validate_windows(&sources(&items), &doubled),
        Err(TemporalWindowError::DuplicateItem { window: "one", item: "a" })
    );
    let fine = [
        SemanticCorpusTemporalWindow::new("one", &listed),
        SemanticCorpusTemporalWindow::new("two", &listed),
    ];
    assert_eq!(validate_windows(&sources(&items), &fine), Ok(()));
}

#[test]
fn changes_are_reported_only_when_observed() {
    assert!(!should_report_change(None, None));
    assert!(!should_report_change(Some(0), Some(0)));
    assert!(!should_report_change(None, Some(0)));
    assert!(should_report_change(Some(0), Some(2)));
    assert!(should_report_change(Some(1), None));
}

#[test]
fn empty_window_is_missing_evidence() {
    assert_eq!(
        classify_change(None, Some(3), None, false, false),
        SemanticTemporalChangeKind::MissingEvidence
    );
    assert_eq!(
        classify_change(Some(0), Some(3), None, false, true),
        SemanticTemporalChangeKind::MissingEvidence
    );
}

#[test]
fn structural_changes_are_classified() {
    assert_eq!(classify_change(Some(0), Some(0), None, true, true), SemanticTemporalChangeKind::Persisting);
    assert_eq!(classify_change(Some(0), Some(2), None, true, true), SemanticTemporalChangeKind::Reentered);
    assert_eq!(classify_change(Some(0), Some(2), None, false, false), SemanticTemporalChangeKind::Emerging);
    assert_eq!(classify_change(Some(2), Some(0), None, false, false), SemanticTemporalChangeKind::Disappeared);
    assert_eq!(
        classify_change(Some(1), Some(2), Some(ShareTrend::Higher), false, false),
        SemanticTemporalChangeKind::Increased
    );
    assert_eq!(
        classify_change(Some(2), Some(1), Some(ShareTrend::Lower), false, false),
        SemanticTemporalChangeKind::Declined
    );
    assert_eq!(
        classify_change(Some(2), Some(2), Some(ShareTrend::Level), false, false),
        SemanticTemporalChangeKind::Persisting
    );
}
