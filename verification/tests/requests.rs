use nlp_stack::contexts::{check_word_sense_request, WordSenseRequestError, WordTargetError};
use nlp_stack::corpus::{corpus_source, CorpusItemError, SemanticCorpusItem, SemanticCorpusSource};
use nlp_stack::model::{ClusterAssignment, ClusterMembership};
use nlp_stack::query::{TextToken, TokenKind};
use nlp_stack::registry::{validate_package_surfaces, PackageSurface, RegistryError, SurfaceOperation};
use nlp_stack::report::SemanticInputError;
use nlp_stack::senses::{summarize_word_senses, SemanticWordOccurrence};
use nlp_stack::span::TextSpan;
use nlp_stack::stats::{analyze_text_statistics, TextStatisticsRequest};
use nlp_stack::temporal::{
    observe_windows, structural_changes, CorpusUnit, SemanticCorpusTemporalWindow,
    SemanticTemporalChangeKind, ShareTrend, TemporalWindowError,
};

fn span(start: usize, end: usize) -> TextSpan {
    TextSpan { byte_start: start, byte_end: end, char_start: start, char_end: end }
}

fn word(text: &str) -> TextToken {
    TextToken {
        kind: TokenKind::Word,
        text: text.to_string(),
        span: span(0, text.len()),
        normalized: text.to_lowercase(),
    }
}

#[test]
fn word_sense_requests_are_checked_options_then_items_then_target() {
    let items = [SemanticCorpusItem::new("a", None, "The bank.")];
    let tokens = [word("Bank")];
    assert_eq!(
        check_word_sense_request(0, false, true, &[], "", &[]),
        Err(WordSenseRequestError::Options(SemanticInputError::ZeroNeighbors))
    );
    assert_eq!(
        check_word_sense_request(3, true, false, &items, "bank", &tokens),
        Err(WordSenseRequestError::Options(SemanticInputError::ClusterThreshold))
    );
    assert_eq!(
        check_word_sense_request(3, true, true, &[], "", &[]),
        Err(WordSenseRequestError::Items(CorpusItemError::EmptyCorpus))
    );
    assert_eq!(
        check_word_sense_request(3, true, true, &items, " ", &[]),
        Err(WordSenseRequestError::Target(WordTargetError::EmptyTarget))
    );
    assert_eq!(
        check_word_sense_request(3, true, true, &items, "river bank", &[word("river"), word("bank")]),
        Err(WordSenseRequestError::Target(WordTargetError::NotOneToken))
    );
    assert_eq!(
        check_word_sense_request(3, true, true, &items, "Bank", &tokens),
        Ok("bank".to_string())
    );
}

fn occurrence(unit: &str, source: &str, author: Option<&str>) -> SemanticWordOccurrence {
    SemanticWordOccurrence {
        unit_id: unit.to_string(),
        source_id: source.to_string(),
        author: author.map(str::to_string),
        source: None,
        timestamp_millis: None,
        occurrence_span: span(0, 4),
        context_span: span(0, 9),
        context_text: "The bank.".to_string(),
    }
}

fn cluster(id: &str, members: &[&str]) -> ClusterMembership {
    ClusterMembership {
        id: id.to_string(),
        member_unit_ids: members.iter().map(|member| member.to_string()).collect(),
        representative_unit_id: members[0].to_string(),
    }
}

#[test]
fn a_target_without_occurrences_gives_an_empty_report() {
    let clusters = [cluster("sense-1", &["u1"])];
    let summary = summarize_word_senses("Bank", "bank".to_string(), &[], &clusters);
    assert_eq!(summary.target, "Bank");
    assert_eq!(summary.normalized_target, "bank");
    assert_eq!(
        (summary.occurrence_count, summary.source_item_count, summary.author_count),
        (0, 0, 0)
    );
    assert!(summary.senses.is_empty());
}

#[test]
fn word_sense_report_totals_and_senses() {
    let occurrences = [
        occurrence("u1", "a", Some("Ann")),
        occurrence("u2", "a", None),
        occurrence("u3", "b", Some("Bo")),
    ];
    let clusters = [cluster("sense-1", &["u1", "u3"]), cluster("sense-2", &["u2"])];
    let summary = summarize_word_senses("bank", "bank".to_string(), &occurrences, &clusters);
    assert_eq!(
        (summary.occurrence_count, summary.source_item_count, summary.author_count),
        (3, 2, 2)
    );
    assert_eq!(summary.senses.len(), 2);
    assert_eq!(summary.senses[0].occurrence_count, 2);
    assert_eq!(summary.senses[1].occurrence_count, 1);
    let total = summary.senses.iter().map(|sense| sense.occurrence_count).sum::<usize>();
    assert_eq!(total, summary.occurrence_count);
}

fn sources(items: &[SemanticCorpusItem]) -> Vec<SemanticCorpusSource> {
    items.iter().map(corpus_source).collect()
}

fn unit(id: &str, source: &str, index: usize) -> CorpusUnit {
    CorpusUnit { id: id.to_string(), source_id: source.to_string(), sequence_index: index }
}

fn assignment(unit: &str, cluster: &str) -> ClusterAssignment {
    ClusterAssignment { unit_id: unit.to_string(), cluster_id: cluster.to_string() }
}

#[test]
fn observed_windows_feed_change_classification() {
    let items = [
        SemanticCorpusItem::new("a", None, "Rivers."),
        SemanticCorpusItem::new("b", None, "Money."),
        SemanticCorpusItem::new("c", None, "Rivers again."),
    ];
    let units = [unit("a:0", "a", 0), unit("b:0", "b", 1), unit("c:0", "c", 2)];
    let timeline = [assignment("a:0", "river"), assignment("b:0", "money"), assignment("c:0", "river")];
    let clusters = [cluster("river", &["a:0", "c:0"]), cluster("money", &["b:0"])];
    let early = ["a"];
    let middle = ["b"];
    let late = ["c"];
    let windows = [
        SemanticCorpusTemporalWindow::new("early", &early),
        SemanticCorpusTemporalWindow::new("middle", &middle),
        SemanticCorpusTemporalWindow::new("late", &late),
    ];
    let observations = observe_windows(&sources(&items), &windows, &timeline, &units, &clusters).unwrap();
    assert_eq!(observations.len(), 3);
    assert_eq!(observations[0].counts.id, "early");
    assert_eq!(observations[1].counts.item_count, 1);
    assert_eq!(observations[2].unit_total, 1);
    assert_eq!(observations[0].concepts.len(), 1);
    assert_eq!(observations[0].concepts[0].cluster_id, "river");
    assert_eq!(observations[0].concepts[0].evidence.id, "a:0");

    let counts = observations.iter().map(|observation| observation.counts.clone()).collect::<Vec<_>>();
    let ids = ["river".to_string(), "money".to_string()];
    let trends = vec![vec![ShareTrend::Level; 2]; 2];
    let changes = structural_changes(&ids, &counts, &trends);
    let kinds = changes
        .iter()
        .map(|change| (change.to_window_id.as_str(), change.cluster_id.as_str(), change.kind))
        .collect::<Vec<_>>();
    assert_eq!(
        kinds,
        vec![
            ("middle", "river", SemanticTemporalChangeKind::Disappeared),
            ("middle", "money", SemanticTemporalChangeKind::Emerging),
            ("late", "river", SemanticTemporalChangeKind::Reentered),
            ("late", "money", SemanticTemporalChangeKind::Disappeared),
        ]
    );

    let partial = [
        SemanticCorpusTemporalWindow::new("early", &early),
        SemanticCorpusTemporalWindow::new("late", &late),
    ];
    assert_eq!(
        observe_windows(&sources(&items), &partial, &timeline, &units, &clusters),
        Err(TemporalWindowError::UncoveredItems(vec!["b".to_string()]))
    );
    assert_eq!(
        observe_windows(&sources(&items), &windows[..1], &timeline, &units, &clusters),
        Err(TemporalWindowError::TooFewWindows)
    );
}

#[test]
fn empty_text_has_no_words_or_sentences() {
    let result = analyze_text_statistics(TextStatisticsRequest { text: String::new() });
    assert_eq!(
        (result.byte_count, result.character_count, result.word_count, result.line_count, result.sentence_count),
        (0, 0, 0, 0, 0)
    );
}

fn surface(library: &str, operations: &[&str]) -> PackageSurface {
    PackageSurface {
        library: library.to_string(),
        version: "1".to_string(),
        operations: operations
            .iter()
            .map(|id| SurfaceOperation { id: id.to_string(), name: id.to_string(), description: String::new() })
            .collect(),
    }
}

#[test]
fn delimiter_errors_name_the_field_that_holds_it() {
    assert_eq!(
        validate_package_surfaces(&[surface("text/core", &["stats"])]),
        Err(RegistryError::ReservedNamespaceDelimiter { field: "library", value: "text/core".to_string() })
    );
    assert_eq!(
        validate_package_surfaces(&[surface("text", &["a/b"])]),
        Err(RegistryError::ReservedNamespaceDelimiter { field: "operation", value: "a/b".to_string() })
    );
    assert_eq!(validate_package_surfaces(&[surface("text", &["a"]), surface("media", &["a"])]), Ok(()));
}
