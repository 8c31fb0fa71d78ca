use nlp_stack::model::{ClusterAssignment, ClusterMembership};
use nlp_stack::temporal::{
    structural_changes, window_concepts, window_counts, ConceptCount, CorpusUnit,
    SemanticTemporalChangeKind, ShareTrend, StructuralChange, WindowCounts,
};

fn window(id: &str, item_count: usize, concepts: &[(&str, usize)]) -> WindowCounts {
    WindowCounts {
        id: id.to_string(),
        item_count,
        concepts: concepts
            .iter()
            .map(|(cluster_id, count)| ConceptCount {
                cluster_id: cluster_id.to_string(),
                count: *count,
            })
            .collect(),
    }
}

fn kinds(changes: &[StructuralChange]) -> Vec<(String, String, String, SemanticTemporalChangeKind)> {
    changes
        .iter()
        .map(|change| {
            (
                change.from_window_id.clone(),
                change.to_window_id.clone(),
                change.cluster_id.clone(),
                change.kind,
            )
        })
        .collect()
}

#[test]
fn changes_follow_concepts_across_windows() {
    let clusters = vec!["river".to_string(), "finance".to_string()];
    let windows = vec![
        window("early", 2, &[("river", 2)]),
        window("middle", 2, &[("river", 1), ("finance", 1)]),
        window("late", 1, &[("river", 1)]),
    ];
    let trends = vec![
        vec![ShareTrend::Lower, ShareTrend::Higher],
        vec![ShareTrend::Higher, ShareTrend::Lower],
    ];
    let changes = structural_changes(&clusters, &windows, &trends);
    let s = |value: &str| value.to_string();
    assert_eq!(
        kinds(&changes),
        vec![
            (s("early"), s("middle"), s("river"), SemanticTemporalChangeKind::Declined),
            (s("early"), s("middle"), s("finance"), SemanticTemporalChangeKind::Emerging),
            (s("middle"), s("late"), s("river"), SemanticTemporalChangeKind::Increased),
            (s("middle"), s("late"), s("finance"), SemanticTemporalChangeKind::Disappeared),
        ]
    );
    assert_eq!(changes[1].previous_count, Some(0));
    assert_eq!(changes[1].current_count, Some(1));
}

#[test]
fn empty_window_is_missing_evidence_instead_of_an_observed_zero_count() {
    let clusters = vec!["river".to_string()];
    let windows = vec![
        window("one", 1, &[("river", 1)]),
        window("gap", 0, &[]),
        window("three", 1, &[("river", 1)]),
    ];
    let trends = vec![vec![ShareTrend::Level], vec![ShareTrend::Level]];
    let changes = structural_changes(&clusters, &windows, &trends);
    assert_eq!(changes.len(), 2);
    assert_eq!(changes[0].kind, SemanticTemporalChangeKind::MissingEvidence);
    assert_eq!(changes[0].current_count, None);
    assert_eq!(changes[1].kind, SemanticTemporalChangeKind::MissingEvidence);
    assert_eq!(changes[1].previous_count, None);
}

#[test]
fn a_concept_that_returns_is_reentered() {
    let clusters = vec!["topic".to_string()];
    let windows = vec![
        window("a", 1, &[("topic", 1)]),
        window("b", 1, &[]),
        window("c", 1, &[("topic", 2)]),
    ];
    let trends = vec![vec![ShareTrend::Lower], vec![ShareTrend::Higher]];
    let changes = structural_changes(&clusters, &windows, &trends);
    assert_eq!(changes[0].kind, SemanticTemporalChangeKind::Disappeared);
    assert_eq!(changes[1].kind, SemanticTemporalChangeKind::Reentered);
}

#[test]
fn fewer_than_two_windows_have_no_changes() {
    let clusters = vec!["topic".to_string()];
    assert!(structural_changes(&clusters, &[], &[]).is_empty());
    assert!(structural_changes(&clusters, &[window("a", 1, &[("topic", 1)])], &[]).is_empty());
}

fn corpus_unit(id: &str, source: &str, index: usize) -> CorpusUnit {
    CorpusUnit {
        id: id.to_string(),
        source_id: source.to_string(),
        sequence_index: index,
    }
}

fn assignment(unit: &str, cluster: &str) -> ClusterAssignment {
    ClusterAssignment {
        unit_id: unit.to_string(),
        cluster_id: cluster.to_string(),
    }
}

fn members(id: &str, units: &[&str]) -> ClusterMembership {
    ClusterMembership {
        id: id.to_string(),
        member_unit_ids: units.iter().map(|unit| unit.to_string()).collect(),
        representative_unit_id: units[0].to_string(),
    }
}

#[test]
fn window_concepts_count_units_from_the_window_items() {
    let units = vec![
        corpus_unit("u1", "a", 4),
        corpus_unit("u2", "b", 1),
        corpus_unit("u3", "a", 2),
        corpus_unit("u4", "a", 3),
    ];
    let timeline = vec![
        assignment("u1", "c1"),
        assignment("u2", "c1"),
        assignment("u3", "c2"),
        assignment("u4", "c1"),
    ];
    let clusters = vec![
        members("c1", &["u2", "u1", "u4"]),
        members("c2", &["u3"]),
        members("c3", &["u9"]),
    ];
    let (concepts, total) = window_concepts(&timeline, &units, &["a"], &clusters);
    assert_eq!(total, 3);
    assert_eq!(concepts.len(), 2);
    assert_eq!(concepts[0].cluster_id, "c1");
    assert_eq!(concepts[0].unit_count, 2);
    assert_eq!(concepts[0].evidence.id, "u4");
    assert_eq!(concepts[1].cluster_id, "c2");
    assert_eq!(concepts[1].unit_count, 1);
    assert_eq!(concepts[1].evidence.id, "u3");

    let counts = window_counts("early", 1, &concepts);
    assert_eq!(counts.id, "early");
    assert_eq!(counts.concepts[0].count, 2);
}

#[test]
fn a_window_without_items_observes_nothing() {
    let units = vec![corpus_unit("u1", "a", 0)];
    let timeline = vec![assignment("u1", "c1")];
    let clusters = vec![members("c1", &["u1"])];
    let (concepts, total) = window_concepts(&timeline, &units, &[], &clusters);
    assert!(concepts.is_empty());
    assert_eq!(total, 0);
}
