use nlp_stack::model::SemanticUnitKind;
use nlp_stack::report::{
    prepare_report, validate_conversation, validate_document, validate_semantic_options,
    SemanticInputError, SemanticReportError,
};
use nlp_stack::span::TextSpan;
use nlp_stack::units::{ConversationTurn, StructuralUnit};

fn unit(id: &str, kind: SemanticUnitKind) -> StructuralUnit {
    StructuralUnit {
        id: id.to_string(),
        source_id: "s".to_string(),
        kind,
        parent_id: None,
        sequence_index: 0,
        span: TextSpan { byte_start: 0, byte_end: 1, char_start: 0, char_end: 1 },
        speaker: None,
        text: "x".to_string(),
    }
}

#[test]
fn semantic_options_are_checked_in_order() {
    assert_eq!(validate_semantic_options(0, false, false), Err(SemanticInputError::ZeroNeighbors));
    assert_eq!(validate_semantic_options(3, false, false), Err(SemanticInputError::NeighborThreshold));
    assert_eq!(validate_semantic_options(3, true, false), Err(SemanticInputError::ClusterThreshold));
    assert_eq!(validate_semantic_options(3, true, true), Ok(()));
    assert_eq!(
        SemanticInputError::NeighborThreshold.message(),
        "semantic neighbor_threshold must be finite and between -1 and 1"
    );
}

#[test]
fn a_document_needs_an_id() {
    assert_eq!(validate_document(3, true, true, " \t"), Err(SemanticInputError::EmptyDocumentId));
    assert_eq!(validate_document(0, true, true, " "), Err(SemanticInputError::ZeroNeighbors));
    assert_eq!(validate_document(3, true, true, "doc"), Ok(()));
    assert_eq!(SemanticInputError::EmptyDocumentId.message(), "semantic document id must not be empty");
}

#[test]
fn conversation_turn_ids_are_checked() {
    assert_eq!(validate_conversation(3, true, true, &[]), Err(SemanticInputError::NoTurns));
    let turns = [
        ConversationTurn::new("t1", Some("Ann"), "Hi."),
        ConversationTurn::new("t2", None, "Yo."),
        ConversationTurn::new("t1", None, "Again."),
    ];
    let refused = validate_conversation(3, true, true, &turns);
    assert_eq!(refused, Err(SemanticInputError::DuplicateTurnId("t1")));
    assert_eq!(refused.unwrap_err().message(), "duplicate conversation turn id `t1`");
    let blank = [ConversationTurn::new("t1", None, "Hi."), ConversationTurn::new("  ", None, "Yo.")];
    assert_eq!(validate_conversation(3, true, true, &blank), Err(SemanticInputError::EmptyTurnId));
    assert_eq!(validate_conversation(3, true, true, &turns[..2]), Ok(()));
    assert_eq!(
        SemanticInputError::NoTurns.message(),
        "semantic conversation must contain at least one turn"
    );
}

#[test]
fn report_preparation_finds_primary_units() {
    let units = vec![
        unit("d:sentence:0", SemanticUnitKind::Sentence),
        unit("d:paragraph:0", SemanticUnitKind::Paragraph),
        unit("d:sentence:1", SemanticUnitKind::Sentence),
        unit("d:document", SemanticUnitKind::Document),
    ];
    let plan = prepare_report(&units, SemanticUnitKind::Sentence, &[4, 4, 4, 4]).unwrap();
    assert_eq!(plan.primary_indices, vec![0, 2]);
    assert_eq!(plan.dimensions, 4);
    assert_eq!(
        prepare_report(&units, SemanticUnitKind::SpeakerTurn, &[4, 4, 4, 4]),
        Err(SemanticReportError::NoPrimaryUnits)
    );
}

#[test]
fn report_preparation_checks_the_vectors() {
    let units = vec![unit("a", SemanticUnitKind::Sentence), unit("b", SemanticUnitKind::Sentence)];
    assert_eq!(prepare_report(&[], SemanticUnitKind::Sentence, &[]), Err(SemanticReportError::NoUnits));
    let count = prepare_report(&units, SemanticUnitKind::Sentence, &[3]);
    assert_eq!(count, Err(SemanticReportError::VectorCount { returned: 1, units: 2 }));
    assert_eq!(
        count.unwrap_err().message(),
        "embedding backend returned 1 vectors for 2 semantic units"
    );
    assert_eq!(
        prepare_report(&units, SemanticUnitKind::Sentence, &[3, 0]),
        Err(SemanticReportError::EmptyVector)
    );
    let uneven = prepare_report(&units, SemanticUnitKind::Sentence, &[128, 12]);
    assert_eq!(uneven, Err(SemanticReportError::InconsistentDimensions { expected: 128, got: 12 }));
    assert_eq!(
        uneven.unwrap_err().message(),
        "embedding backend returned inconsistent dimensions: expected 128, got 12"
    );
    assert_eq!(SemanticReportError::NoUnits.message(), "semantic analysis produced no units");
}
