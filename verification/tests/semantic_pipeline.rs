use nlp_stack::components::{concept_memberships, linked_components};
use nlp_stack::contexts::{normalized_target, occurrence_contexts, WordTargetError};
use nlp_stack::corpus::{validate_items, SemanticCorpusItem};
use nlp_stack::dynamics::{conversation_concept_dynamics, primary_concept_units};
use nlp_stack::graph::{
    compose_linguistic_semantic_graph, ConceptSummary, LinguisticAnalysis, LinguisticEntity,
};
use nlp_stack::model::{
    ClusterAssignment, ClusterMembership, SemanticGraphEdgeKind, SemanticGraphNodeKind, SemanticUnitKind,
};
use nlp_stack::pairs::speaker_exchanges;
use nlp_stack::profiles::speaker_profiles;
use nlp_stack::query::{TextToken, TokenKind};
use nlp_stack::report::prepare_report;
use nlp_stack::senses::{assemble_word_senses, word_sense_totals};
use nlp_stack::span::TextSpan;
use nlp_stack::timeline::timeline_slots;
use nlp_stack::units::{
    conversation_units, document_units, ConversationTurn, StructuralUnit, TextRegion,
};

fn region(text: &str, start: usize, piece: &str) -> TextRegion {
    assert_eq!(&text[start..start + piece.len()], piece);
    TextRegion {
        span: TextSpan::from_byte_range(text, start, start + piece.len()).unwrap(),
        text: piece.to_string(),
    }
}

fn word(text: &str, start: usize, piece: &str, kind: TokenKind) -> TextToken {
    TextToken {
        kind,
        text: piece.to_string(),
        span: TextSpan::from_byte_range(text, start, start + piece.len()).unwrap(),
        normalized: piece.to_lowercase(),
    }
}

/// Concepts of the primary units when units with the same text are the
/// similar ones: each linked component, named `concept-k` in order.
fn concepts_by_text(units: &[StructuralUnit], primary: &[usize]) -> Vec<ClusterMembership> {
    let links: Vec<Vec<bool>> = primary
        .iter()
        .map(|&left| primary.iter().map(|&right| units[left].text == units[right].text).collect())
        .collect();
    let components = linked_components(&links);
    let representatives: Vec<usize> = components.iter().map(|members| members[0]).collect();
    let ids: Vec<String> = primary.iter().map(|&index| units[index].id.clone()).collect();
    concept_memberships(&ids, &components, &representatives)
}

fn timeline(units: &[StructuralUnit], primary: &[usize], clusters: &[ClusterMembership]) -> Vec<ClusterAssignment> {
    let ids: Vec<String> = primary.iter().map(|&index| units[index].id.clone()).collect();
    timeline_slots(&ids, clusters)
        .into_iter()
        .map(|slot| ClusterAssignment { unit_id: slot.unit_id, cluster_id: slot.cluster_id })
        .collect()
}

fn conversation(turns: &[ConversationTurn]) -> (Vec<StructuralUnit>, Vec<usize>, Vec<ClusterAssignment>) {
    let sentences: Vec<Vec<TextRegion>> =
        turns.iter().map(|turn| vec![region(turn.text, 0, turn.text)]).collect();
    let units = conversation_units(turns, &sentences);
    let lengths = vec![128; units.len()];
    let plan = prepare_report(&units, SemanticUnitKind::SpeakerTurn, &lengths).unwrap();
    let clusters = concepts_by_text(&units, &plan.primary_indices);
    let assignments = timeline(&units, &plan.primary_indices, &clusters);
    (units, plan.primary_indices, assignments)
}

#[test]
fn document_semantics_preserve_multi_scale_hierarchy() {
    let text = "Semantic search improves retrieval. Semantic search improves retrieval.\n\nTomatoes grow in soil.";
    let sentences = vec![
        region(text, 0, "Semantic search improves retrieval."),
        region(text, 36, "Semantic search improves retrieval."),
        region(text, 73, "Tomatoes grow in soil."),
    ];
    let paragraphs = vec![
        region(text, 0, "Semantic search improves retrieval. Semantic search improves retrieval."),
        region(text, 73, "Tomatoes grow in soil."),
    ];
    let units = document_units("doc-1", text, &sentences, &paragraphs);
    let plan = prepare_report(&units, SemanticUnitKind::Sentence, &vec![128; units.len()]).unwrap();

    assert_eq!(plan.primary_indices.len(), 3);
    let count = |kind: SemanticUnitKind| units.iter().filter(|unit| unit.kind == kind).count();
    assert_eq!(count(SemanticUnitKind::Sentence), 3);
    assert_eq!(count(SemanticUnitKind::Paragraph), 2);
    assert_eq!(count(SemanticUnitKind::Document), 1);
    assert!(units
        .iter()
        .filter(|unit| unit.kind == SemanticUnitKind::Sentence)
        .all(|unit| unit.parent_id.is_some()));
    assert_eq!(units[2].parent_id.as_deref(), Some("doc-1:paragraph:1"));
}

#[test]
fn linguistic_graph_joins_existing_linguistic_evidence_to_semantic_units() {
    let text = "Alice visited Berlin. She presented the roadmap.";
    let sentences = vec![region(text, 0, "Alice visited Berlin."), region(text, 22, "She presented the roadmap.")];
    let paragraphs = vec![region(text, 0, text)];
    let units = document_units("doc-graph", text, &sentences, &paragraphs);
    let plan = prepare_report(&units, SemanticUnitKind::Sentence, &vec![128; units.len()]).unwrap();
    let concepts: Vec<ConceptSummary> = concepts_by_text(&units, &plan.primary_indices)
        .into_iter()
        .map(|cluster| ConceptSummary {
            id: cluster.id,
            member_unit_ids: cluster.member_unit_ids,
            representative_text: text.to_string(),
        })
        .collect();
    let entity = |id: &str, start: usize, piece: &str, entity_type: &str| LinguisticEntity {
        id: id.to_string(),
        text: piece.to_string(),
        span: TextSpan::from_byte_range(text, start, start + piece.len()).unwrap(),
        sentence_index: 0,
        entity_type: entity_type.to_string(),
    };
    let analysis = LinguisticAnalysis {
        tokens: vec![],
        entities: vec![entity("entity-1", 0, "Alice", "Person"), entity("entity-2", 14, "Berlin", "Location")],
        canonical_entities: vec![],
        coreference: vec![],
        events: vec![],
        relations: vec![],
        discourse: vec![],
        topics: vec![],
    };
    let graph = compose_linguistic_semantic_graph(&units, SemanticUnitKind::Sentence, &[], &concepts, &analysis);

    assert!(graph.nodes.iter().any(|node| node.kind == SemanticGraphNodeKind::Concept));
    assert!(graph.nodes.iter().any(|node| node.kind == SemanticGraphNodeKind::EntityMention));
    assert!(graph.edges.iter().any(|edge| edge.kind == SemanticGraphEdgeKind::ConceptMembership));
    assert!(graph.edges.iter().any(|edge| edge.kind == SemanticGraphEdgeKind::UnitContainsMention));
}

#[test]
fn conversation_profiles_aggregate_concepts_by_speaker() {
    let turns = [
        ConversationTurn::new("turn-1", Some("Alice"), "Semantic search improves retrieval."),
        ConversationTurn::new("turn-2", Some("Bob"), "Semantic search improves retrieval."),
        ConversationTurn::new("turn-3", Some("Alice"), "Tomatoes grow in soil."),
    ];
    let (units, primary, assignments) = conversation(&turns);
    assert_eq!(primary.len(), 3);
    assert_eq!(assignments.len(), 3);
    let concept_units = primary_concept_units(&units, &primary, &assignments);
    let profiles = speaker_profiles(&concept_units);
    let alice = profiles.iter().find(|profile| profile.speaker == "Alice").expect("Alice profile");
    assert_eq!(alice.unit_count, 2);
    assert_eq!(alice.concepts.iter().map(|concept| concept.unit_count).sum::<usize>(), 2);
}

#[test]
fn conversation_dynamics_track_adoption_handoffs_and_recurring_concepts() {
    let turns = [
        ConversationTurn::new("turn-1", Some("Alice"), "Semantic search improves retrieval."),
        ConversationTurn::new("turn-2", Some("Bob"), "Tomatoes grow in soil."),
        ConversationTurn::new("turn-3", Some("Bob"), "Semantic search improves retrieval."),
        ConversationTurn::new("turn-4", Some("Alice"), "Tomatoes grow in soil."),
        ConversationTurn::new("turn-5", Some("Alice"), "Semantic search improves retrieval."),
    ];
    let (units, primary, assignments) = conversation(&turns);
    let concept_units = primary_concept_units(&units, &primary, &assignments);
    let dynamics = conversation_concept_dynamics(&units, &primary, &assignments);

    assert!(!speaker_exchanges(&concept_units).is_empty());
    assert!(!dynamics.adoptions.is_empty());
    assert!(!dynamics.handoffs.is_empty());
    assert!(dynamics.recurring_concepts.iter().any(|concept| concept.non_adjacent_return_count > 0));
}

#[test]
fn word_senses_require_one_normalized_target_token() {
    let items = [SemanticCorpusItem::new("doc-1", Some("Alice"), "The river bank borders the water.")];
    assert_eq!(validate_items(&items), Ok(()));
    let target = "river bank";
    let tokens = [word(target, 0, "river", TokenKind::Word), word(target, 6, "bank", TokenKind::Word)];
    let error = normalized_target(target, &tokens).unwrap_err();
    assert_eq!(error, WordTargetError::NotOneToken);
    assert!(error.message().contains("word-sense target must normalize to exactly one token"));
}

#[test]
fn word_senses_return_empty_evidence_when_target_is_absent() {
    let text = "Semantic retrieval finds related passages.";
    let items = [SemanticCorpusItem::new("doc-1", Some("Alice"), text)];
    assert_eq!(validate_items(&items), Ok(()));
    let target = normalized_target("bank", &[word("bank", 0, "bank", TokenKind::Word)]).unwrap();
    let tokens = vec![vec![
        word(text, 0, "Semantic", TokenKind::Word),
        word(text, 9, "retrieval", TokenKind::Word),
        word(text, 19, "finds", TokenKind::Word),
        word(text, 25, "related", TokenKind::Word),
        word(text, 33, "passages", TokenKind::Word),
        word(text, 41, ".", TokenKind::Punctuation),
    ]];
    let sentences = vec![vec![region(text, 0, text)]];
    let (units, occurrences) = occurrence_contexts(&items, &tokens, &sentences, &target);

    assert!(units.is_empty());
    let totals = word_sense_totals(&occurrences);
    assert_eq!(totals.occurrence_count, 0);
    assert_eq!(totals.source_item_count, 0);
    assert_eq!(totals.author_count, 0);
    assert!(assemble_word_senses(&occurrences, &[]).is_empty());
}
