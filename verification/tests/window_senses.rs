use nlp_stack::model::ClusterMembership;
use nlp_stack::senses::{assemble_word_senses, SemanticWordOccurrence};
use nlp_stack::span::TextSpan;
use nlp_stack::temporal::window_senses;

fn span(start: usize, end: usize) -> TextSpan {
    TextSpan { byte_start: start, byte_end: end, char_start: start, char_end: end }
}

fn occurrence(unit: &str, source: &str) -> SemanticWordOccurrence {
    SemanticWordOccurrence {
        unit_id: unit.to_string(),
        source_id: source.to_string(),
        author: None,
        source: None,
        timestamp_millis: None,
        occurrence_span: span(0, 4),
        context_span: span(0, 10),
        context_text: format!("context of {unit}"),
    }
}

fn cluster(id: &str, members: &[&str]) -> ClusterMembership {
    ClusterMembership {
        id: id.to_string(),
        member_unit_ids: members.iter().map(|member| member.to_string()).collect(),
        representative_unit_id: members[0].to_string(),
    }
}

#[test]
fn a_window_counts_the_occurrences_from_its_items() {
    let occurrences = vec![
        occurrence("a:0", "a"),
        occurrence("b:1", "b"),
        occurrence("b:2", "b"),
        occurrence("c:3", "c"),
    ];
    let senses = assemble_word_senses(
        &occurrences,
        &[cluster("sense-1", &["a:0", "b:1"]), cluster("sense-2", &["b:2", "c:3"])],
    );
    let (observed, total) = window_senses(&senses, &["b"]);
    assert_eq!(total, 2);
    assert_eq!(observed.len(), 2);
    assert_eq!(observed[0].cluster_id, "sense-1");
    assert_eq!(observed[0].occurrence_count, 1);
    assert_eq!(observed[0].evidence.unit_id, "b:1");
    assert_eq!(observed[1].evidence.unit_id, "b:2");

    let (observed, total) = window_senses(&senses, &["c", "a"]);
    assert_eq!(total, 2);
    assert_eq!(observed[0].evidence.unit_id, "a:0");
    assert_eq!(observed[1].evidence.unit_id, "c:3");
}

#[test]
fn a_window_without_occurrences_observes_no_sense() {
    let occurrences = vec![occurrence("a:0", "a")];
    let senses = assemble_word_senses(&occurrences, &[cluster("sense-1", &["a:0"])]);
    let (observed, total) = window_senses(&senses, &["z"]);
    assert!(observed.is_empty());
    assert_eq!(total, 0);
}
