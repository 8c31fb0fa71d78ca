use nlp_stack::components::linked_components;
use nlp_stack::contexts::{normalized_target, occurrence_contexts};
use nlp_stack::query::{TextToken, TokenKind};
use nlp_stack::senses::assemble_word_senses;
use nlp_stack::corpus::{corpus_source, validate_corpus, SemanticCorpusItem, SemanticCorpusSource};
use nlp_stack::model::{ClusterAssignment, ClusterMembership, SemanticUnitKind};
use nlp_stack::report::prepare_report;
use nlp_stack::span::TextSpan;
use nlp_stack::temporal::{
    structural_changes, validate_windows, window_concepts, window_counts, window_senses, ConceptCount,
    CorpusUnit, WindowCounts,
    SemanticCorpusTemporalWindow, SemanticTemporalChangeKind, ShareTrend, StructuralChange, WindowConcept,
};
use nlp_stack::timeline::timeline_slots;
use nlp_stack::units::{corpus_units, SourceRegions, StructuralUnit, TextRegion};

/// A corpus analysed over windows: its sources, concepts, the concepts each
/// window observed, and the structural changes between windows.
struct TemporalRun {
    sources: Vec<SemanticCorpusSource>,
    clusters: Vec<ClusterMembership>,
    units: Vec<StructuralUnit>,
    observed: Vec<(Vec<WindowConcept>, usize)>,
    changes: Vec<StructuralChange>,
}

fn whole(text: &str) -> TextRegion {
    TextRegion { span: TextSpan::from_byte_range(text, 0, text.len()).unwrap(), text: text.to_string() }
}

/// Units with the same text are the similar ones.
fn run(items: &[SemanticCorpusItem], windows: &[SemanticCorpusTemporalWindow]) -> TemporalRun {
    assert_eq!(validate_corpus(items, 8, 2), Ok(()));
    let sources: Vec<SemanticCorpusSource> = items.iter().map(corpus_source).collect();
    assert_eq!(validate_windows(&sources, windows), Ok(()));
    let regions: Vec<SourceRegions> = items
        .iter()
        .map(|item| SourceRegions { sentences: vec![whole(item.text)], paragraphs: vec![whole(item.text)] })
        .collect();
    let units = corpus_units(items, &regions);
    let plan = prepare_report(&units, SemanticUnitKind::Sentence, &vec![128; units.len()]).unwrap();
    let primary = plan.primary_indices;
    let links: Vec<Vec<bool>> = primary
        .iter()
        .map(|&left| primary.iter().map(|&right| units[left].text == units[right].text).collect())
        .collect();
    let clusters: Vec<ClusterMembership> = linked_components(&links)
        .into_iter()
        .enumerate()
        .map(|(index, members)| ClusterMembership {
            id: format!("concept-{}", index + 1),
            member_unit_ids: members.iter().map(|&member| units[primary[member]].id.clone()).collect(),
            representative_unit_id: units[primary[members[0]]].id.clone(),
        })
        .collect();
    let ids: Vec<String> = primary.iter().map(|&index| units[index].id.clone()).collect();
    let timeline: Vec<ClusterAssignment> = timeline_slots(&ids, &clusters)
        .into_iter()
        .map(|slot| ClusterAssignment { unit_id: slot.unit_id, cluster_id: slot.cluster_id })
        .collect();
    let corpus: Vec<CorpusUnit> = units
        .iter()
        .map(|unit| CorpusUnit {
            id: unit.id.clone(),
            source_id: unit.source_id.clone(),
            sequence_index: unit.sequence_index,
        })
        .collect();
    let observed: Vec<(Vec<WindowConcept>, usize)> = windows
        .iter()
        .map(|window| window_concepts(&timeline, &corpus, window.item_ids, &clusters))
        .collect();
    let counts: Vec<_> = windows
        .iter()
        .zip(&observed)
        .map(|(window, (concepts, _))| window_counts(window.id, window.item_ids.len(), concepts))
        .collect();
    let cluster_ids: Vec<String> = clusters.iter().map(|cluster| cluster.id.clone()).collect();
    let share = |(concepts, total): &(Vec<WindowConcept>, usize), cluster_id: &str| -> (usize, usize) {
        let count = concepts.iter().find(|concept| concept.cluster_id == cluster_id).map_or(0, |concept| concept.unit_count);
        (count, (*total).max(1))
    };
    let trends: Vec<Vec<ShareTrend>> = (1..windows.len())
        .map(|index| {
            cluster_ids
                .iter()
                .map(|cluster_id| {
                    let (before, before_total) = share(&observed[index - 1], cluster_id);
                    let (now, now_total) = share(&observed[index], cluster_id);
                    let (left, right) = (now * before_total, before * now_total);
                    if left > right {
                        ShareTrend::Higher
                    } else if left < right {
                        ShareTrend::Lower
                    } else {
                        ShareTrend::Level
                    }
                })
                .collect()
        })
        .collect();
    let changes = structural_changes(&cluster_ids, &counts, &trends);
    TemporalRun { sources, clusters, units, observed, changes }
}

impl TemporalRun {
    fn cluster_for_text(&self, text: &str) -> String {
        self.clusters
            .iter()
            .find(|cluster| {
                self.units.iter().any(|unit| unit.id == cluster.representative_unit_id && unit.text == text)
            })
            .expect("concept representative")
            .id
            .clone()
    }

    fn change(&self, from: &str, to: &str, cluster_id: &str) -> &StructuralChange {
        self.changes
            .iter()
            .find(|change| change.from_window_id == from && change.to_window_id == to && change.cluster_id == cluster_id)
            .expect("temporal concept change")
    }
}

#[test]
fn temporal_windows_project_global_concepts_and_classify_structural_changes() {
    let stable = "Semantic search improves retrieval.";
    let returning = "Tomatoes grow in soil.";
    let emerging = "River banks contain sediment.";
    let items = [
        SemanticCorpusItem::new("w1-stable", Some("Alice"), stable)
            .with_source("notes/w1-stable.txt")
            .with_timestamp_millis(1_000),
        SemanticCorpusItem::new("w1-returning", Some("Alice"), returning)
            .with_source("notes/w1-returning.txt")
            .with_timestamp_millis(1_100),
        SemanticCorpusItem::new("w2-stable", Some("Alice"), stable)
            .with_source("notes/w2-stable.txt")
            .with_timestamp_millis(2_000),
        SemanticCorpusItem::new("w2-emerging", Some("Alice"), emerging)
            .with_source("notes/w2-emerging.txt")
            .with_timestamp_millis(2_100),
        SemanticCorpusItem::new("w3-stable", Some("Alice"), stable)
            .with_source("notes/w3-stable.txt")
            .with_timestamp_millis(3_000),
        SemanticCorpusItem::new("w3-returning", Some("Alice"), returning)
            .with_source("notes/w3-returning.txt")
            .with_timestamp_millis(3_100),
        SemanticCorpusItem::new("w3-emerging", Some("Alice"), emerging)
            .with_source("notes/w3-emerging.txt")
            .with_timestamp_millis(3_200),
    ];
    let w1 = ["w1-stable", "w1-returning"];
    let w2 = ["w2-stable", "w2-emerging"];
    let w3 = ["w3-stable", "w3-returning", "w3-emerging"];
    let windows = [
        SemanticCorpusTemporalWindow::new("early", &w1),
        SemanticCorpusTemporalWindow::new("middle", &w2),
        SemanticCorpusTemporalWindow::new("late", &w3),
    ];

    let report = run(&items, &windows);

    assert_eq!(report.clusters.len(), 3);
    assert_eq!(report.observed.len(), 3);
    assert_eq!(windows[0].item_ids.len(), 2);
    assert_eq!(windows[1].item_ids.len(), 2);
    assert_eq!(windows[2].item_ids.len(), 3);

    let stable_id = report.cluster_for_text(stable);
    let returning_id = report.cluster_for_text(returning);
    let emerging_id = report.cluster_for_text(emerging);

    assert_eq!(report.change("early", "middle", &stable_id).kind, SemanticTemporalChangeKind::Persisting);
    assert_eq!(report.change("early", "middle", &returning_id).kind, SemanticTemporalChangeKind::Disappeared);
    let emerged = report.change("early", "middle", &emerging_id);
    assert_eq!(emerged.kind, SemanticTemporalChangeKind::Emerging);
    let evidence = &report.observed[1]
        .0
        .iter()
        .find(|concept| concept.cluster_id == emerging_id)
        .expect("emerging concept in the middle window")
        .evidence;
    let source = report.sources.iter().find(|source| source.id == evidence.source_id).expect("evidence source");
    assert_eq!(source.source.as_deref(), Some("notes/w2-emerging.txt"));
    assert_eq!(source.timestamp_millis, Some(2_100));

    assert_eq!(report.change("middle", "late", &returning_id).kind, SemanticTemporalChangeKind::Reentered);
    assert_eq!(report.change("middle", "late", &stable_id).kind, SemanticTemporalChangeKind::Declined);
}

#[test]
fn empty_window_is_missing_evidence_instead_of_an_observed_zero() {
    let text = "Semantic search improves retrieval.";
    let items = [
        SemanticCorpusItem::new("early", Some("Alice"), text).with_timestamp_millis(1_000),
        SemanticCorpusItem::new("late", Some("Alice"), text).with_timestamp_millis(3_000),
    ];
    let early = ["early"];
    let none: [&str; 0] = [];
    let late = ["late"];
    let windows = [
        SemanticCorpusTemporalWindow::new("early", &early),
        SemanticCorpusTemporalWindow::new("missing", &none),
        SemanticCorpusTemporalWindow::new("late", &late),
    ];

    let report = run(&items, &windows);
    let cluster_id = report.cluster_for_text(text);

    let first = report.change("early", "missing", &cluster_id);
    assert_eq!(first.kind, SemanticTemporalChangeKind::MissingEvidence);
    assert_eq!(first.previous_count, Some(1));
    assert_eq!(first.current_count, None);

    let second = report.change("missing", "late", &cluster_id);
    assert_eq!(second.kind, SemanticTemporalChangeKind::MissingEvidence);
    assert_eq!(second.previous_count, None);
    assert_eq!(second.current_count, Some(1));
}

/// The tokens of a text split at spaces, a final full stop apart.
fn tokens(text: &str) -> Vec<TextToken> {
    let mut found = Vec::new();
    let mut start = 0;
    for piece in text.trim_end_matches('.').split(' ') {
        found.push(TextToken {
            kind: TokenKind::Word,
            text: piece.to_string(),
            span: TextSpan::from_byte_range(text, start, start + piece.len()).unwrap(),
            normalized: piece.to_lowercase(),
        });
        start += piece.len() + 1;
    }
    let end = text.len();
    found.push(TextToken {
        kind: TokenKind::Punctuation,
        text: ".".to_string(),
        span: TextSpan::from_byte_range(text, end - 1, end).unwrap(),
        normalized: ".".to_string(),
    });
    found
}

#[test]
fn temporal_word_senses_reuse_global_sense_identity_across_windows() {
    let river = "The river bank borders the water.";
    let finance = "The bank approved the loan.";
    let items = [
        SemanticCorpusItem::new("river-early", Some("Alice"), river)
            .with_source("notes/river-early.txt")
            .with_timestamp_millis(1_000),
        SemanticCorpusItem::new("river-early-2", Some("Alice"), river)
            .with_source("notes/river-early-2.txt")
            .with_timestamp_millis(1_100),
        SemanticCorpusItem::new("finance-middle", Some("Bob"), finance)
            .with_source("notes/finance-middle.txt")
            .with_timestamp_millis(2_000),
        SemanticCorpusItem::new("finance-middle-2", Some("Bob"), finance)
            .with_source("notes/finance-middle-2.txt")
            .with_timestamp_millis(2_100),
        SemanticCorpusItem::new("river-late", Some("Alice"), river)
            .with_source("notes/river-late.txt")
            .with_timestamp_millis(3_000),
        SemanticCorpusItem::new("river-late-2", Some("Alice"), river)
            .with_source("notes/river-late-2.txt")
            .with_timestamp_millis(3_100),
    ];
    let early = ["river-early", "river-early-2"];
    let middle = ["finance-middle", "finance-middle-2"];
    let late = ["river-late", "river-late-2"];
    let windows = [
        SemanticCorpusTemporalWindow::new("early", &early),
        SemanticCorpusTemporalWindow::new("middle", &middle),
        SemanticCorpusTemporalWindow::new("late", &late),
    ];
    let sources: Vec<SemanticCorpusSource> = items.iter().map(corpus_source).collect();
    assert_eq!(validate_windows(&sources, &windows), Ok(()));

    let target = normalized_target("bank", &tokens("bank.")).unwrap();
    let item_tokens: Vec<Vec<TextToken>> = items.iter().map(|item| tokens(item.text)).collect();
    let sentences: Vec<Vec<TextRegion>> = items.iter().map(|item| vec![whole(item.text)]).collect();
    let (contexts, occurrences) = occurrence_contexts(&items, &item_tokens, &sentences, &target);
    let links: Vec<Vec<bool>> = contexts
        .iter()
        .map(|left| contexts.iter().map(|right| left.text == right.text).collect())
        .collect();
    let clusters: Vec<ClusterMembership> = linked_components(&links)
        .into_iter()
        .enumerate()
        .map(|(index, members)| ClusterMembership {
            id: format!("concept-{}", index + 1),
            member_unit_ids: members.iter().map(|&member| contexts[member].id.clone()).collect(),
            representative_unit_id: contexts[members[0]].id.clone(),
        })
        .collect();
    let senses = assemble_word_senses(&occurrences, &clusters);
    assert_eq!(senses.len(), 2);
    let river_id = senses
        .iter()
        .find(|sense| sense.representative.context_text == river)
        .expect("river sense")
        .cluster_id
        .clone();
    let finance_id = senses
        .iter()
        .find(|sense| sense.representative.context_text == finance)
        .expect("finance sense")
        .cluster_id
        .clone();

    let observed: Vec<_> = windows.iter().map(|window| window_senses(&senses, window.item_ids)).collect();
    let counts: Vec<WindowCounts> = windows
        .iter()
        .zip(&observed)
        .map(|(window, (found, _))| WindowCounts {
            id: window.id.to_string(),
            item_count: window.item_ids.len(),
            concepts: found
                .iter()
                .map(|sense| ConceptCount { cluster_id: sense.cluster_id.clone(), count: sense.occurrence_count })
                .collect(),
        })
        .collect();
    let sense_ids: Vec<String> = senses.iter().map(|sense| sense.cluster_id.clone()).collect();
    let trends: Vec<Vec<ShareTrend>> = (1..windows.len())
        .map(|index| {
            sense_ids
                .iter()
                .map(|sense_id| {
                    let count = |window: usize| {
                        observed[window].0.iter().find(|sense| &sense.cluster_id == sense_id).map_or(0, |sense| sense.occurrence_count)
                    };
                    let (before, now) = (count(index - 1), count(index));
                    let (left, right) = (now * observed[index - 1].1.max(1), before * observed[index].1.max(1));
                    if left > right {
                        ShareTrend::Higher
                    } else if left < right {
                        ShareTrend::Lower
                    } else {
                        ShareTrend::Level
                    }
                })
                .collect()
        })
        .collect();
    let changes = structural_changes(&sense_ids, &counts, &trends);
    let change = |from: &str, to: &str, cluster_id: &str| {
        changes
            .iter()
            .find(|change| change.from_window_id == from && change.to_window_id == to && change.cluster_id == cluster_id)
            .expect("temporal sense change")
            .clone()
    };

    assert_eq!(change("early", "middle", &river_id).kind, SemanticTemporalChangeKind::Disappeared);
    assert_eq!(change("early", "middle", &finance_id).kind, SemanticTemporalChangeKind::Emerging);
    let returned = change("middle", "late", &river_id);
    assert_eq!(returned.kind, SemanticTemporalChangeKind::Reentered);
    let evidence = &observed[2]
        .0
        .iter()
        .find(|sense| sense.cluster_id == river_id)
        .expect("river sense in the late window")
        .evidence;
    assert_eq!(evidence.source.as_deref(), Some("notes/river-late.txt"));
    assert_eq!(change("middle", "late", &finance_id).kind, SemanticTemporalChangeKind::Disappeared);
}

#[test]
fn word_senses_cluster_distinct_usage_contexts_and_keep_exact_occurrences() {
    let river = "The river bank borders the water.";
    let finance = "The bank approved the loan.";
    let items = [
        SemanticCorpusItem::new("river-1", Some("Alice"), river).with_source("notes/river-1.txt"),
        SemanticCorpusItem::new("river-2", Some("Alice"), river).with_source("notes/river-2.txt"),
        SemanticCorpusItem::new("finance-1", Some("Bob"), finance).with_source("notes/finance-1.txt"),
        SemanticCorpusItem::new("finance-2", Some("Bob"), finance).with_source("notes/finance-2.txt"),
    ];

    let target = "BANK";
    let normalized = normalized_target(target, &tokens("BANK.")).unwrap();
    assert_eq!(normalized, "bank");
    let item_tokens: Vec<Vec<TextToken>> = items.iter().map(|item| tokens(item.text)).collect();
    let sentences: Vec<Vec<TextRegion>> = items.iter().map(|item| vec![whole(item.text)]).collect();
    let (contexts, occurrences) = occurrence_contexts(&items, &item_tokens, &sentences, &normalized);
    let links: Vec<Vec<bool>> = contexts
        .iter()
        .map(|left| contexts.iter().map(|right| left.text == right.text).collect())
        .collect();
    let clusters: Vec<ClusterMembership> = linked_components(&links)
        .into_iter()
        .enumerate()
        .map(|(index, members)| ClusterMembership {
            id: format!("concept-{}", index + 1),
            member_unit_ids: members.iter().map(|&member| contexts[member].id.clone()).collect(),
            representative_unit_id: contexts[members[0]].id.clone(),
        })
        .collect();
    let totals = nlp_stack::senses::word_sense_totals(&occurrences);
    let senses = assemble_word_senses(&occurrences, &clusters);

    assert_eq!(totals.occurrence_count, 4);
    assert_eq!(totals.source_item_count, 4);
    assert_eq!(totals.author_count, 2);
    assert_eq!(senses.len(), 2);

    for sense in &senses {
        assert_eq!(sense.occurrence_count, 2);
        assert_eq!(sense.source_item_count, 2);
        assert_eq!(sense.author_count, 1);
        assert_eq!(sense.occurrences.len(), 2);
        for occurrence in &sense.occurrences {
            let source_text = if occurrence.source_id.starts_with("river") { river } else { finance };
            assert_eq!(
                &source_text[occurrence.occurrence_span.byte_start..occurrence.occurrence_span.byte_end],
                "bank"
            );
            assert_eq!(
                &source_text[occurrence.context_span.byte_start..occurrence.context_span.byte_end],
                occurrence.context_text
            );
        }
    }

    let river_sense = senses
        .iter()
        .find(|sense| sense.representative.context_text == river)
        .expect("river-bank sense");
    assert_eq!(river_sense.authors, vec!["Alice"]);
    assert_eq!(river_sense.representative.source.as_deref(), Some("notes/river-1.txt"));

    let finance_sense = senses
        .iter()
        .find(|sense| sense.representative.context_text == finance)
        .expect("financial-bank sense");
    assert_eq!(finance_sense.authors, vec!["Bob"]);
}
