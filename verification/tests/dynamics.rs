use nlp_stack::model::{ClusterAssignment, SemanticUnitKind};
use nlp_stack::span::TextSpan;
use nlp_stack::units::StructuralUnit;
use nlp_stack::dynamics::{
    conversation_concept_dynamics, primary_concept_units,
    concept_adoptions, concept_handoffs, concept_introductions, recurring_concepts,
    ConceptAdoption, ConceptHandoff, ConceptIntroduction, ConversationConceptUnit,
    RecurringConcept,
};

fn turn_unit(id: &str, speaker: Option<&str>, index: usize) -> StructuralUnit {
    StructuralUnit {
        id: id.to_string(),
        source_id: id.to_string(),
        kind: SemanticUnitKind::SpeakerTurn,
        parent_id: None,
        sequence_index: index,
        span: TextSpan { byte_start: 0, byte_end: 0, char_start: 0, char_end: 0 },
        speaker: speaker.map(str::to_string),
        text: String::new(),
    }
}

fn unit(id: &str, speaker: Option<&str>, index: usize, cluster: Option<&str>) -> ConversationConceptUnit {
    ConversationConceptUnit {
        unit_id: id.to_string(),
        speaker: speaker.map(str::to_string),
        sequence_index: index,
        cluster_id: cluster.map(str::to_string),
    }
}

fn conversation() -> Vec<ConversationConceptUnit> {
    vec![
        unit("u0", Some("Alice"), 0, Some("concept:river")),
        unit("u1", Some("Bob"), 1, Some("concept:river")),
        unit("u2", Some("Alice"), 2, Some("concept:bank")),
        unit("u3", Some("Bob"), 3, Some("concept:bank")),
        unit("u4", None, 4, Some("concept:bank")),
        unit("u5", Some("Carol"), 5, Some("concept:river")),
        unit("u6", Some("Bob"), 6, None),
    ]
}

#[test]
fn introductions_record_the_first_attributed_use() {
    assert_eq!(
        concept_introductions(&conversation()),
        vec![
            ConceptIntroduction {
                cluster_id: "concept:river".to_string(),
                speaker: "Alice".to_string(),
                sequence_index: 0,
            },
            ConceptIntroduction {
                cluster_id: "concept:bank".to_string(),
                speaker: "Alice".to_string(),
                sequence_index: 2,
            },
        ]
    );
}

#[test]
fn adoptions_record_each_other_speaker_once() {
    let adoption = |cluster: &str, by: &str, index: usize| ConceptAdoption {
        cluster_id: cluster.to_string(),
        introduced_by: "Alice".to_string(),
        adopted_by: by.to_string(),
        sequence_index: index,
    };
    assert_eq!(
        concept_adoptions(&conversation()),
        vec![
            adoption("concept:river", "Bob", 1),
            adoption("concept:bank", "Bob", 3),
            adoption("concept:river", "Carol", 5),
        ]
    );
}

#[test]
fn handoffs_need_a_speaker_and_concept_change() {
    assert_eq!(
        concept_handoffs(&conversation()),
        vec![ConceptHandoff {
            from_cluster_id: "concept:river".to_string(),
            to_cluster_id: "concept:bank".to_string(),
            from_speaker: "Bob".to_string(),
            to_speaker: "Alice".to_string(),
            sequence_index: 2,
        }]
    );
    assert!(concept_handoffs(&[]).is_empty());
}

#[test]
fn recurring_concepts_are_sorted_and_count_returns() {
    assert_eq!(
        recurring_concepts(&conversation()),
        vec![
            RecurringConcept {
                cluster_id: "concept:bank".to_string(),
                occurrence_count: 3,
                non_adjacent_return_count: 0,
                first_sequence_index: 2,
                last_sequence_index: 4,
            },
            RecurringConcept {
                cluster_id: "concept:river".to_string(),
                occurrence_count: 3,
                non_adjacent_return_count: 1,
                first_sequence_index: 0,
                last_sequence_index: 5,
            },
        ]
    );
}

#[test]
fn a_single_use_is_not_recurring() {
    let units = vec![unit("u0", Some("A"), 0, Some("x")), unit("u1", Some("B"), 1, Some("y"))];
    assert!(recurring_concepts(&units).is_empty());
}

#[test]
fn primary_units_take_the_last_timeline_assignment() {
    let turns = vec![
        turn_unit("p0", Some("Ann"), 0),
        turn_unit("s0", None, 1),
        turn_unit("p1", Some("Ben"), 2),
    ];
    let assignments = vec![
        ClusterAssignment { unit_id: "p0".to_string(), cluster_id: "old".to_string() },
        ClusterAssignment { unit_id: "p0".to_string(), cluster_id: "new".to_string() },
    ];
    let units = primary_concept_units(&turns, &[2, 0], &assignments);
    assert_eq!(units.len(), 2);
    assert_eq!(units[0].unit_id, "p1");
    assert_eq!(units[0].cluster_id, None);
    assert_eq!(units[1].unit_id, "p0");
    assert_eq!(units[1].speaker.as_deref(), Some("Ann"));
    assert_eq!(units[1].cluster_id.as_deref(), Some("new"));
}

#[test]
fn conversation_dynamics_track_the_primary_units() {
    let turn = |id: &str, speaker: &str, index: usize| turn_unit(id, Some(speaker), index);
    let turns = vec![turn("t0", "Ann", 0), turn("t1", "Ben", 1), turn("t2", "Ann", 2), turn("t3", "Ben", 3)];
    let assign = |unit: &str, cluster: &str| ClusterAssignment {
        unit_id: unit.to_string(),
        cluster_id: cluster.to_string(),
    };
    let assignments = vec![
        assign("t0", "x"),
        assign("t1", "x"),
        assign("t2", "y"),
        assign("t3", "x"),
    ];
    let dynamics = conversation_concept_dynamics(&turns, &[0, 1, 2, 3], &assignments);
    assert_eq!(dynamics.introductions.len(), 2);
    assert_eq!(dynamics.introductions[1].cluster_id, "y");
    assert_eq!(dynamics.adoptions.len(), 1);
    assert_eq!(dynamics.adoptions[0].adopted_by, "Ben");
    assert_eq!(dynamics.handoffs.len(), 2);
    assert_eq!(dynamics.recurring_concepts.len(), 1);
    assert_eq!(dynamics.recurring_concepts[0].cluster_id, "x");
    assert_eq!(dynamics.recurring_concepts[0].occurrence_count, 3);
    assert_eq!(dynamics.recurring_concepts[0].non_adjacent_return_count, 1);
}
