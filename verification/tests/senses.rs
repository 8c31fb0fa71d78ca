use nlp_stack::model::ClusterMembership;
use nlp_stack::senses::{
    assemble_word_senses, word_sense_totals, SemanticWordOccurrence,
    WordSenseTotals,
};
use nlp_stack::span::TextSpan;

fn span(start: usize, end: usize) -> TextSpan {
    TextSpan {
        byte_start: start,
        byte_end: end,
        char_start: start,
        char_end: end,
    }
}

fn occurrence(unit: &str, source: &str, author: Option<&str>) -> SemanticWordOccurrence {
    SemanticWordOccurrence {
        unit_id: unit.to_string(),
        source_id: source.to_string(),
        author: author.map(str::to_string),
        source: None,
        timestamp_millis: None,
        occurrence_span: span(0, 4),
        context_span: span(0, 10),
        context_text: format!("context of {unit}"),
    }
}

fn cluster(id: &str, members: &[&str], representative: &str) -> ClusterMembership {
    ClusterMembership {
        id: id.to_string(),
        member_unit_ids: members.iter().map(|member| member.to_string()).collect(),
        representative_unit_id: representative.to_string(),
    }
}

fn occurrences() -> Vec<SemanticWordOccurrence> {
    vec![
        occurrence("b:0", "b", Some("Bob")),
        occurrence("a:1", "a", Some("Alice")),
        occurrence("a:2", "a", None),
        occurrence("c:3", "c", Some("Alice")),
    ]
}

#[test]
fn senses_group_member_occurrences_with_sorted_evidence() {
    let senses = assemble_word_senses(
        &occurrences(),
        &[
            cluster("sense:river", &["c:3", "b:0", "missing"], "b:0"),
            cluster("sense:bank", &["a:2", "a:1"], "a:1"),
        ],
    );
    assert_eq!(senses.len(), 2);
    let river = &senses[0];
    assert_eq!(river.cluster_id, "sense:river");
    assert_eq!(river.representative.unit_id, "b:0");
    assert_eq!(
        river.occurrences.iter().map(|found| found.unit_id.as_str()).collect::<Vec<_>>(),
        vec!["c:3", "b:0"]
    );
    assert_eq!(river.occurrence_count, 2);
    assert_eq!(river.source_item_ids, vec!["b", "c"]);
    assert_eq!(river.source_item_count, 2);
    assert_eq!(river.authors, vec!["Alice", "Bob"]);
    assert_eq!(river.author_count, 2);
    let bank = &senses[1];
    assert_eq!(bank.source_item_ids, vec!["a"]);
    assert_eq!(bank.authors, vec!["Alice"]);
    assert_eq!((bank.occurrence_count, bank.source_item_count, bank.author_count), (2, 1, 1));
}

#[test]
fn a_cluster_without_its_representative_yields_no_sense() {
    let senses = assemble_word_senses(&occurrences(), &[cluster("sense:x", &["a:1"], "nowhere")]);
    assert!(senses.is_empty());
}

#[test]
fn totals_count_distinct_units_sources_and_authors() {
    assert_eq!(
        word_sense_totals(&occurrences()),
        WordSenseTotals {
            occurrence_count: 4,
            source_item_count: 3,
            author_count: 2,
        }
    );
    assert_eq!(
        word_sense_totals(&[]),
        WordSenseTotals {
            occurrence_count: 0,
            source_item_count: 0,
            author_count: 0,
        }
    );
}
