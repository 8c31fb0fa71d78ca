use nlp_stack::graph::{
    compose_linguistic_semantic_graph, ConceptSummary, CoreferenceMention, DiscourseSegment,
    EventArgument, GraphEvidence, LinguisticAnalysis, LinguisticCanonicalEntity, LinguisticCoreference,
    LinguisticEntity, LinguisticEvent, LinguisticRelation, SemanticGraphEdge, TopicCluster, UnitPair,
};
use nlp_stack::model::{SemanticGraphEdgeKind, SemanticGraphNodeKind, SemanticUnitKind};
use nlp_stack::span::TextSpan;
use nlp_stack::units::StructuralUnit;

fn span(start: usize, end: usize) -> TextSpan {
    TextSpan { byte_start: start, byte_end: end, char_start: start, char_end: end }
}

fn unit(id: &str, kind: SemanticUnitKind, index: usize, text: &str) -> StructuralUnit {
    StructuralUnit {
        id: id.to_string(),
        source_id: "doc".to_string(),
        kind,
        parent_id: None,
        sequence_index: index,
        span: span(0, text.len()),
        speaker: None,
        text: text.to_string(),
    }
}

fn strings(values: &[&str]) -> Vec<String> {
    values.iter().map(|value| value.to_string()).collect()
}

fn units() -> Vec<StructuralUnit> {
    vec![
        unit("doc:sentence:0", SemanticUnitKind::Sentence, 0, "Ada Lovelace wrote notes."),
        unit("doc:sentence:1", SemanticUnitKind::Sentence, 1, "She admired Babbage."),
        unit("doc:paragraph:0", SemanticUnitKind::Paragraph, 0, "Ada Lovelace wrote notes. She admired Babbage."),
    ]
}

fn analysis() -> LinguisticAnalysis {
    LinguisticAnalysis {
        tokens: vec![span(0, 3), span(4, 12), span(13, 18), span(26, 29)],
        entities: vec![LinguisticEntity {
            id: "e1".to_string(),
            text: "Ada Lovelace".to_string(),
            span: span(0, 12),
            sentence_index: 0,
            entity_type: "Person".to_string(),
        }],
        canonical_entities: vec![LinguisticCanonicalEntity {
            id: "c1".to_string(),
            canonical_name: "Ada Lovelace".to_string(),
            aliases: strings(&["Ada", "She"]),
            entity_type: "Person".to_string(),
            mention_ids: strings(&["e1", "e9"]),
        }],
        coreference: vec![LinguisticCoreference {
            id: "k1".to_string(),
            canonical_text: "Ada Lovelace".to_string(),
            mentions: vec![
                CoreferenceMention {
                    text: "Ada Lovelace".to_string(),
                    token_start: 0,
                    token_end: 2,
                    sentence_index: 0,
                    entity_type: Some("Person".to_string()),
                },
                CoreferenceMention {
                    text: "She".to_string(),
                    token_start: 3,
                    token_end: 9,
                    sentence_index: 7,
                    entity_type: None,
                },
            ],
        }],
        events: vec![LinguisticEvent {
            predicate: "wrote".to_string(),
            sentence_index: 0,
            relation_type: "Creation".to_string(),
            arguments: vec![
                EventArgument { text: "ADA".to_string(), role: "agent".to_string() },
                EventArgument { text: "notes".to_string(), role: "theme".to_string() },
            ],
        }],
        relations: vec![LinguisticRelation {
            subject: "she".to_string(),
            relation: "admired".to_string(),
            object: "BABBAGE".to_string(),
            relation_type: "Attitude".to_string(),
        }],
        discourse: vec![
            DiscourseSegment {
                index: 0,
                text: "first".to_string(),
                sentence_start: 0,
                sentence_end: 1,
                kind: "Narration".to_string(),
                relation_to_previous: None,
            },
            DiscourseSegment {
                index: 1,
                text: "second".to_string(),
                sentence_start: 1,
                sentence_end: 3,
                kind: "Elaboration".to_string(),
                relation_to_previous: Some("Continuation".to_string()),
            },
        ],
        topics: vec![TopicCluster {
            id: "t1".to_string(),
            label: "computing".to_string(),
            sentence_indices: vec![1, 5, 0],
            terms: strings(&["engine", "notes", "math"]),
        }],
    }
}

fn edge_summary(edge: &SemanticGraphEdge) -> (String, String, SemanticGraphEdgeKind, Option<String>) {
    (edge.source_id.clone(), edge.target_id.clone(), edge.kind, edge.label.clone())
}

fn edge(source: &str, target: &str, kind: SemanticGraphEdgeKind, label: Option<&str>) -> (String, String, SemanticGraphEdgeKind, Option<String>) {
    (source.to_string(), target.to_string(), kind, label.map(str::to_string))
}

#[test]
fn the_graph_projects_units_concepts_and_linguistics() {
    let neighbors = vec![UnitPair {
        source_unit_id: "doc:sentence:0".to_string(),
        target_unit_id: "doc:sentence:1".to_string(),
    }];
    let concepts = vec![ConceptSummary {
        id: "concept-1".to_string(),
        member_unit_ids: strings(&["doc:sentence:0", "doc:sentence:1"]),
        representative_text: "Ada Lovelace wrote notes.".to_string(),
    }];
    let graph = compose_linguistic_semantic_graph(&units(), SemanticUnitKind::Sentence, &neighbors, &concepts, &analysis());
    let node_ids: Vec<&str> = graph.nodes.iter().map(|node| node.id.as_str()).collect();
    assert_eq!(
        node_ids,
        vec![
            "doc:sentence:0",
            "doc:sentence:1",
            "concept:concept-1",
            "mention:e1",
            "canonical:c1",
            "coref:k1",
            "coref:k1:mention:0",
            "coref:k1:mention:1",
            "event:0",
            "event:0:argument:0",
            "event:0:argument:1",
            "relation:0",
            "relation:0:subject",
            "relation:0:object",
            "discourse:0",
            "discourse:1",
            "topic:t1",
        ]
    );
    assert_eq!(graph.nodes[0].kind, SemanticGraphNodeKind::Unit);
    assert_eq!(graph.nodes[2].confidence, Some(GraphEvidence::ConceptCohesion(0)));
    assert_eq!(graph.nodes[6].span, Some(TextSpan { byte_start: 0, byte_end: 12, char_start: 0, char_end: 12 }));
    assert_eq!(graph.nodes[7].span, None);
    assert_eq!(graph.nodes[7].confidence, Some(GraphEvidence::CoreferenceConfidence(0, 1)));
    assert_eq!(graph.nodes[11].label, "she admired BABBAGE");
    assert_eq!(graph.nodes[16].sequence_index, Some(1));

    let edges: Vec<_> = graph.edges.iter().map(edge_summary).collect();
    assert_eq!(
        edges,
        vec![
            edge("doc:sentence:0", "doc:sentence:1", SemanticGraphEdgeKind::SemanticNeighbor, None),
            edge("doc:sentence:0", "concept:concept-1", SemanticGraphEdgeKind::ConceptMembership, None),
            edge("doc:sentence:1", "concept:concept-1", SemanticGraphEdgeKind::ConceptMembership, None),
            edge("doc:sentence:0", "mention:e1", SemanticGraphEdgeKind::UnitContainsMention, Some("Person")),
            edge("mention:e1", "canonical:c1", SemanticGraphEdgeKind::MentionCanonical, Some("Person")),
            edge("coref:k1:mention:0", "coref:k1", SemanticGraphEdgeKind::MentionCoreference, Some("Person")),
            edge("doc:sentence:0", "coref:k1:mention:0", SemanticGraphEdgeKind::UnitContainsMention, Some("coreference")),
            edge("coref:k1:mention:1", "coref:k1", SemanticGraphEdgeKind::MentionCoreference, None),
            edge("doc:sentence:0", "event:0", SemanticGraphEdgeKind::UnitContainsEvent, Some("Creation")),
            edge("event:0", "event:0:argument:0", SemanticGraphEdgeKind::EventArgument, Some("agent")),
            edge("event:0:argument:0", "canonical:c1", SemanticGraphEdgeKind::ResolvesToCanonical, None),
            edge("event:0", "event:0:argument:1", SemanticGraphEdgeKind::EventArgument, Some("theme")),
            edge("doc:sentence:1", "relation:0", SemanticGraphEdgeKind::UnitContainsRelation, Some("Attitude")),
            edge("relation:0", "relation:0:subject", SemanticGraphEdgeKind::RelationSubject, Some("subject")),
            edge("relation:0:subject", "canonical:c1", SemanticGraphEdgeKind::ResolvesToCanonical, None),
            edge("relation:0", "relation:0:object", SemanticGraphEdgeKind::RelationObject, Some("object")),
            edge("doc:sentence:0", "discourse:0", SemanticGraphEdgeKind::UnitContainsDiscourse, Some("Narration")),
            edge("doc:sentence:1", "discourse:1", SemanticGraphEdgeKind::UnitContainsDiscourse, Some("Elaboration")),
            edge("discourse:0", "discourse:1", SemanticGraphEdgeKind::DiscourseTransition, Some("Continuation")),
            edge("doc:sentence:1", "topic:t1", SemanticGraphEdgeKind::UnitTopic, Some("engine, notes, math")),
            edge("doc:sentence:0", "topic:t1", SemanticGraphEdgeKind::UnitTopic, Some("engine, notes, math")),
        ]
    );
    assert_eq!(graph.edges[0].weight, Some(GraphEvidence::NeighborSimilarity(0)));
    assert_eq!(graph.edges[4].weight, Some(GraphEvidence::CanonicalMentionConfidence(0, 0)));
    assert_eq!(graph.edges[10].weight, Some(GraphEvidence::ArgumentConfidence(0, 0)));
}

#[test]
fn an_empty_analysis_keeps_only_the_semantic_map() {
    let empty = LinguisticAnalysis {
        tokens: vec![],
        entities: vec![],
        canonical_entities: vec![],
        coreference: vec![],
        events: vec![],
        relations: vec![],
        discourse: vec![],
        topics: vec![],
    };
    let graph = compose_linguistic_semantic_graph(&units(), SemanticUnitKind::Paragraph, &[], &[], &empty);
    assert_eq!(graph.nodes.len(), 1);
    assert_eq!(graph.nodes[0].id, "doc:paragraph:0");
    assert!(graph.edges.is_empty());
}
