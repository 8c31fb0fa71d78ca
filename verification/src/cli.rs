//! Operation routing of the text-core command-line surface: which operation a
//! request names, and the title and message shown for its result.

use vstd::prelude::*;

use vstd::string::StringExecFns;

use crate::chars::same_text;
use crate::registry::{operation_view, PackageSurface, SurfaceOperation};

verus! {

/// The operations of the text-core surface.
#[derive(Debug, Clone, Copy, PartialEq, Eq)]
pub enum TextCoreOperation {
    Describe,
    Statistics,
    Normalize,
    Tokenize,
    Boundaries,
}

/// The operation named by `name`, if the surface offers it.
pub open spec fn operation_named(name: Seq<char>) -> Option<TextCoreOperation> {
    if name == "describe"@ {
        Some(TextCoreOperation::Describe)
    } else if name == "text.statistics"@ {
        Some(TextCoreOperation::Statistics)
    } else if name == "text.normalize"@ {
        Some(TextCoreOperation::Normalize)
    } else if name == "text.tokenize"@ {
        Some(TextCoreOperation::Tokenize)
    } else if name == "text.boundaries"@ {
        Some(TextCoreOperation::Boundaries)
    } else {
        None
    }
}

/// The title shown for the result of the operation `name`.
pub open spec fn title_for(name: Seq<char>) -> Seq<char> {
    if name == "text.statistics"@ {
        "Text statistics"@
    } else if name == "text.normalize"@ {
        "Normalized text"@
    } else if name == "text.tokenize"@ {
        "Tokenized text"@
    } else if name == "text.boundaries"@ {
        "Text boundaries"@
    } else {
        "Text core result"@
    }
}

/// The message shown for the result of the operation `name`.
pub open spec fn message_for(name: Seq<char>) -> Seq<char> {
    if name == "text.statistics"@ {
        "Computed deterministic byte, character, word, line, and sentence statistics."@
    } else if name == "text.normalize"@ {
        "Normalized text with explicit before and after statistics."@
    } else if name == "text.tokenize"@ {
        "Tokenized the supplied text with spans, script profile, and text statistics."@
    } else if name == "text.boundaries"@ {
        "Extracted Unicode-safe word, sentence, paragraph, and grapheme boundaries."@
    } else {
        "Ran a text-core package operation."@
    }
}

/// The operation a request names; `None` for an operation the surface does not offer.
pub fn parse_operation(name: &str) -> (operation: Option<TextCoreOperation>)
    ensures
        operation == operation_named(name@),
{
    if same_text(name, "describe") {
        Some(TextCoreOperation::Describe)
    } else if same_text(name, "text.statistics") {
        Some(TextCoreOperation::Statistics)
    } else if same_text(name, "text.normalize") {
        Some(TextCoreOperation::Normalize)
    } else if same_text(name, "text.tokenize") {
        Some(TextCoreOperation::Tokenize)
    } else if same_text(name, "text.boundaries") {
        Some(TextCoreOperation::Boundaries)
    } else {
        None
    }
}

/// The title shown for the result of `operation`.
pub fn workflow_title(operation: &str) -> (title: &'static str)
    ensures
        title@ == title_for(operation@),
{
    if same_text(operation, "text.statistics") {
        "Text statistics"
    } else if same_text(operation, "text.normalize") {
        "Normalized text"
    } else if same_text(operation, "text.tokenize") {
        "Tokenized text"
    } else if same_text(operation, "text.boundaries") {
        "Text boundaries"
    } else {
        "Text core result"
    }
}

/// The message shown for the result of `operation`.
pub fn workflow_message(operation: &str) -> (message: &'static str)
    ensures
        message@ == message_for(operation@),
{
    if same_text(operation, "text.statistics") {
        "Computed deterministic byte, character, word, line, and sentence statistics."
    } else if same_text(operation, "text.normalize") {
        "Normalized text with explicit before and after statistics."
    } else if same_text(operation, "text.tokenize") {
        "Tokenized the supplied text with spans, script profile, and text statistics."
    } else if same_text(operation, "text.boundaries") {
        "Extracted Unicode-safe word, sentence, paragraph, and grapheme boundaries."
    } else {
        "Ran a text-core package operation."
    }
}

/// The value of a boolean request option that defaults to on.
pub fn default_true() -> (value: bool)
    ensures
        value,
{
    true
}

/// The operations of the text-core surface: id, name and description.
pub open spec fn text_core_operation_views() -> Seq<(Seq<char>, Seq<char>, Seq<char>)> {
    seq![
        ("describe"@, "Inspect package metadata"@, "Shared text documents, tokenization, spans, and statistics."@),
        ("text.statistics"@, "Text statistics"@, "Counts bytes, characters, words, lines, and sentences."@),
        (
            "text.normalize"@,
            "Normalize text"@,
            "Normalizes Unicode, casing, and whitespace with before/after statistics."@,
        ),
        (
            "text.tokenize"@,
            "Tokenize text"@,
            "Returns span-aware tokens, script profile, and detailed text statistics."@,
        ),
        (
            "text.boundaries"@,
            "Text boundaries"@,
            "Returns Unicode-safe word, sentence, paragraph, and grapheme boundaries."@,
        ),
    ]
}

fn operation(id: &str, name: &str, description: &str) -> (operation: SurfaceOperation)
    ensures
        operation_view(operation) == (id@, name@, description@),
{
    SurfaceOperation {
        id: String::from_str(id),
        name: String::from_str(name),
        description: String::from_str(description),
    }
}

/// The package surface of the text-core command line at `version`: library
/// `moenarch-text-core` and its five operations, `describe` first.
pub fn package_surface(version: &str) -> (surface: PackageSurface)
    ensures
        surface.library@ == "moenarch-text-core"@,
        surface.version@ == version@,
        surface.operations@.map_values(|operation: SurfaceOperation| operation_view(operation))
            == text_core_operation_views(),
{
    let mut operations: Vec<SurfaceOperation> = Vec::new();
    operations.push(
        operation(
            "describe",
            "Inspect package metadata",
            "Shared text documents, tokenization, spans, and statistics.",
        ),
    );
    operations.push(
        operation("text.statistics", "Text statistics", "Counts bytes, characters, words, lines, and sentences."),
    );
    operations.push(
        operation(
            "text.normalize",
            "Normalize text",
            "Normalizes Unicode, casing, and whitespace with before/after statistics.",
        ),
    );
    operations.push(
        operation(
            "text.tokenize",
            "Tokenize text",
            "Returns span-aware tokens, script profile, and detailed text statistics.",
        ),
    );
    operations.push(
        operation(
            "text.boundaries",
            "Text boundaries",
            "Returns Unicode-safe word, sentence, paragraph, and grapheme boundaries.",
        ),
    );
    let surface = PackageSurface {
        library: String::from_str("moenarch-text-core"),
        version: String::from_str(version),
        operations,
    };
    proof {
        assert(surface.operations@.map_values(|operation: SurfaceOperation| operation_view(operation))
            =~= text_core_operation_views());
    }
    surface
}

} // verus!
