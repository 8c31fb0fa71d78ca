use nlp_stack::corpus::{corpus_source, PassageUnit, SemanticCorpusItem};
use nlp_stack::evidence::{
    candidate_key_terms, concept_evidence, concept_label, non_concept_unit_count, ConceptScores,
    ConceptTerm,
};
use nlp_stack::model::ClusterMembership;
use nlp_stack::span::TextSpan;

fn passage_unit(id: &str, source: &str, speaker: Option<&str>, text: &str) -> PassageUnit {
    PassageUnit {
        id: id.to_string(),
        source_id: source.to_string(),
        speaker: speaker.map(str::to_string),
        span: TextSpan::from_byte_range(text, 0, text.len()).unwrap(),
        text: text.to_string(),
    }
}

fn ranked(ranks: &[u64]) -> Vec<ConceptScores> {
    ranks
        .iter()
        .map(|rank| ConceptScores { coherence_rank: *rank, ranked_terms: Vec::new() })
        .collect()
}

fn cluster(id: &str, members: &[&str], representative: &str) -> ClusterMembership {
    ClusterMembership {
        id: id.to_string(),
        member_unit_ids: members.iter().map(|member| member.to_string()).collect(),
        representative_unit_id: representative.to_string(),
    }
}

#[test]
fn concept_evidence_quotes_its_representative_with_item_provenance() {
    let items = [
        SemanticCorpusItem::new("a", Some("Alice"), "River bank.").with_source("notes/a.txt"),
        SemanticCorpusItem::new("b", Some("Bob"), "River bend.").with_timestamp_millis(5),
    ];
    let sources = items.iter().map(corpus_source).collect::<Vec<_>>();
    let units = vec![
        passage_unit("a:0", "a", Some("Alice"), "River bank."),
        passage_unit("b:0", "b", Some("Bob"), "River bend."),
        passage_unit("b:1", "b", None, "Money."),
    ];
    let clusters = vec![
        cluster("river", &["a:0", "b:0", "gone"], "b:0"),
        cluster("money", &["b:1"], "b:1"),
        cluster("orphan", &["x", "y"], "x"),
    ];
    let evidence = concept_evidence(&units, &sources, &clusters, &ranked(&[3, 1, 2]), 2);
    assert_eq!(evidence.len(), 1);
    let river = &evidence[0];
    assert_eq!(river.cluster_id, "river");
    assert_eq!(river.member_unit_count, 3);
    assert_eq!(river.source_item_ids, vec!["a", "b"]);
    assert_eq!(river.authors, vec!["Alice", "Bob"]);
    assert_eq!((river.source_item_count, river.author_count), (2, 2));
    assert_eq!(river.representative.unit_id, "b:0");
    assert_eq!(river.representative.timestamp_millis, Some(5));
    assert_eq!(river.representative.source, None);
    assert_eq!(
        &items[1].text[river.representative.span.byte_start..river.representative.span.byte_end],
        river.representative.text
    );

    let all = concept_evidence(&units, &sources, &clusters, &ranked(&[3, 1, 2]), 1);
    assert_eq!(all.len(), 2);
    assert_eq!(all[1].cluster_id, "money");
    assert!(all[1].authors.is_empty());
}

#[test]
fn concepts_come_by_support_then_coherence_then_id() {
    let units = vec![
        passage_unit("u1", "a", Some("Alice"), "One."),
        passage_unit("u2", "a", Some("Alice"), "Two."),
        passage_unit("u3", "b", Some("Bob"), "Three."),
        passage_unit("u4", "b", Some("Bob"), "Four."),
        passage_unit("u5", "c", None, "Five."),
        passage_unit("u6", "c", None, "Six."),
        passage_unit("u7", "c", None, "Seven."),
    ];
    let clusters = vec![
        cluster("concept-1", &["u1"], "u1"),
        cluster("concept-2", &["u2", "u3"], "u2"),
        cluster("concept-3", &["u4", "u5"], "u4"),
        cluster("concept-5", &["u6"], "u6"),
        cluster("concept-4", &["u7"], "u7"),
        cluster("concept-6", &["u5", "u6", "u7"], "u5"),
    ];
    let ranks = ranked(&[9, 1, 4, 2, 2, 0]);
    let evidence = concept_evidence(&units, &[], &clusters, &ranks, 1);
    let order = evidence.iter().map(|concept| concept.cluster_id.as_str()).collect::<Vec<_>>();
    assert_eq!(
        order,
        vec!["concept-6", "concept-3", "concept-2", "concept-1", "concept-4", "concept-5"]
    );
    assert_eq!(evidence[1].coherence_rank, 4);
    assert_eq!(evidence[0].member_unit_count, 3);

    let supported = concept_evidence(&units, &[], &clusters, &ranks, 2);
    let order = supported.iter().map(|concept| concept.cluster_id.as_str()).collect::<Vec<_>>();
    assert_eq!(order, vec!["concept-6", "concept-3", "concept-2"]);
}

#[test]
fn units_of_small_clusters_are_not_concept_units() {
    let clusters = vec![
        cluster("concept-1", &["a", "b", "c"], "a"),
        cluster("concept-2", &["d"], "d"),
        cluster("concept-3", &["e", "f"], "e"),
    ];
    assert_eq!(non_concept_unit_count(&clusters, 3), 3);
    assert_eq!(non_concept_unit_count(&clusters, 2), 1);
    assert_eq!(non_concept_unit_count(&clusters, 1), 0);
    assert_eq!(non_concept_unit_count(&clusters, 4), 6);
}

fn term(text: &str, count: usize, document_count: usize) -> ConceptTerm {
    ConceptTerm { term: text.to_string(), count, document_count }
}

#[test]
fn key_term_candidates_need_two_characters_a_letter_and_distinctiveness() {
    let terms = [
        term("a", 3, 1),
        term("42", 2, 1),
        term("river", 2, 2),
        term("the", 9, 8),
        term("é9", 1, 1),
        term("bank", 1, 4),
    ];
    let kept = candidate_key_terms(&terms, 10);
    let names = kept.iter().map(|candidate| candidate.term.as_str()).collect::<Vec<_>>();
    assert_eq!(names, vec!["river", "é9", "bank"]);
    let few = candidate_key_terms(&terms, 4);
    let names = few.iter().map(|candidate| candidate.term.as_str()).collect::<Vec<_>>();
    assert_eq!(names, vec!["river", "the", "é9", "bank"]);
}

#[test]
fn concept_labels_show_up_to_three_key_terms() {
    assert_eq!(concept_label("concept-2", &[]), "concept-2");
    let terms = ["river", "bank", "water", "flow"].map(str::to_string);
    assert_eq!(concept_label("concept-2", &terms[..1]), "river");
    assert_eq!(concept_label("concept-2", &terms), "river · bank · water");
}

#[test]
fn concepts_keep_four_key_terms_and_label_themselves() {
    let units = vec![
        passage_unit("u1", "a", None, "River bank."),
        passage_unit("u2", "b", None, "Money."),
    ];
    let clusters = vec![cluster("concept-1", &["u1"], "u1"), cluster("concept-2", &["u2"], "u2")];
    let scores = vec![
        ConceptScores {
            coherence_rank: 1,
            ranked_terms: ["river", "bank", "water", "flow", "stream"].map(str::to_string).to_vec(),
        },
        ConceptScores { coherence_rank: 0, ranked_terms: Vec::new() },
    ];
    let evidence = concept_evidence(&units, &[], &clusters, &scores, 1);
    assert_eq!(evidence[0].key_terms, vec!["river", "bank", "water", "flow"]);
    assert_eq!(evidence[0].label, "river · bank · water");
    assert!(evidence[1].key_terms.is_empty());
    assert_eq!(evidence[1].label, "concept-2");
}

#[test]
fn concept_units_and_the_rest_add_up() {
    let units = vec![
        passage_unit("a", "x", None, "A."),
        passage_unit("b", "x", None, "B."),
        passage_unit("c", "y", None, "C."),
        passage_unit("d", "y", None, "D."),
    ];
    let clusters = vec![cluster("concept-1", &["a", "b", "c"], "a"), cluster("concept-2", &["d"], "d")];
    let concepts = concept_evidence(&units, &[], &clusters, &ranked(&[0, 0]), 2);
    let in_concepts = concepts.iter().map(|concept| concept.member_unit_count).sum::<usize>();
    assert_eq!(in_concepts + non_concept_unit_count(&clusters, 2), 4);
}
