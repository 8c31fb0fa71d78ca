use nlp_stack::cli::{
    default_true, package_surface, parse_operation, workflow_message, workflow_title, TextCoreOperation,
};
use nlp_stack::registry::{resolve_operation, validate_package_surfaces};

#[test]
fn operations_are_routed_by_exact_name() {
    assert_eq!(parse_operation("describe"), Some(TextCoreOperation::Describe));
    assert_eq!(parse_operation("text.statistics"), Some(TextCoreOperation::Statistics));
    assert_eq!(parse_operation("text.normalize"), Some(TextCoreOperation::Normalize));
    assert_eq!(parse_operation("text.tokenize"), Some(TextCoreOperation::Tokenize));
    assert_eq!(parse_operation("text.boundaries"), Some(TextCoreOperation::Boundaries));
    assert_eq!(parse_operation("moenarch-text-core/text.statistics"), None);
    assert_eq!(parse_operation("Text.Statistics"), None);
}

#[test]
fn titles_and_messages_describe_each_operation() {
    assert_eq!(workflow_title("text.statistics"), "Text statistics");
    assert_eq!(workflow_title("text.boundaries"), "Text boundaries");
    assert_eq!(workflow_title("describe"), "Text core result");
    assert_eq!(
        workflow_message("text.normalize"),
        "Normalized text with explicit before and after statistics."
    );
    assert_eq!(workflow_message("other"), "Ran a text-core package operation.");
    assert!(default_true());
}

#[test]
fn the_text_core_surface_lists_its_operations_and_registers_cleanly() {
    let surface = package_surface("0.4.0");
    assert_eq!(surface.library, "moenarch-text-core");
    assert_eq!(surface.version, "0.4.0");
    let ids: Vec<&str> = surface.operations.iter().map(|operation| operation.id.as_str()).collect();
    assert_eq!(ids, vec!["describe", "text.statistics", "text.normalize", "text.tokenize", "text.boundaries"]);
    assert_eq!(surface.operations[1].name, "Text statistics");
    assert_eq!(
        surface.operations[4].description,
        "Returns Unicode-safe word, sentence, paragraph, and grapheme boundaries."
    );
    let surfaces = vec![surface];
    assert_eq!(validate_package_surfaces(&surfaces), Ok(()));
    assert_eq!(
        resolve_operation(&surfaces, "moenarch-text-core/text.tokenize"),
        Some((0, "text.tokenize".to_string()))
    );
}
