//! Plain data types shared by the analysis reports.

use vstd::prelude::*;

use crate::span::TextSpan;

verus! {

/// Which family of analysis a document request asks for.
#[derive(Debug, Clone, Copy, PartialEq, Eq)]
pub enum AnalysisProfile {
    Deterministic,
    ModelBacked,
}

/// Declares the standard library's owned file-system path to the verifier,
/// which only carries it through.
#[verifier::external_type_specification]
#[verifier::external_body]
pub struct ExPathBuf(std::path::PathBuf);

/// `Clone::clone` of `std::path::PathBuf`, which copies the path. Nothing is
/// stated of the copy: the type is opaque here and only carried through.
pub assume_specification[ <std::path::PathBuf as Clone>::clone ](path: &std::path::PathBuf) -> (copy:
    std::path::PathBuf);

/// How much linguistic analysis a document request asks for.
#[derive(Debug, Clone, PartialEq, Eq)]
pub enum LinguisticDepth {
    Off,
    HeuristicFast,
    HeuristicBalanced,
    HeuristicRich,
    LocalModel { bundle_dir: std::path::PathBuf, auto_download: bool, download_progress: bool },
}

/// How much classification a document request asks for.
#[derive(Debug, Clone, Copy, PartialEq, Eq)]
pub enum ClassificationDepth {
    Off,
    LexicalFallback,
    Imported,
    Backend,
}

/// One diagnostic attached to a text analysis.
#[derive(Debug, Clone, PartialEq, Eq)]
pub struct TextAnalysisDiagnostic {
    pub severity: String,
    pub code: String,
    pub message: String,
    pub source: String,
}

/// Counts of the `n`-grams of a text: each n-gram with its number of occurrences.
#[derive(Debug, Clone, PartialEq, Eq)]
pub struct NgramAnalysis {
    pub n: usize,
    pub counts: Vec<(Vec<String>, usize)>,
}

/// Number of character shingles of size `n`.
#[derive(Debug, Clone, Copy, PartialEq, Eq)]
pub struct ShingleAnalysis {
    pub n: usize,
    pub count: usize,
}

/// Granularity of one meaning-bearing unit in a semantic analysis report.
#[derive(Debug, Clone, Copy, PartialEq, Eq, PartialOrd, Ord)]
pub enum SemanticUnitKind {
    Sentence,
    Paragraph,
    Document,
    SpeakerTurn,
}

/// Node kinds in the composed linguistic semantic graph.
#[derive(Debug, Clone, Copy, PartialEq, Eq)]
pub enum SemanticGraphNodeKind {
    Unit,
    Concept,
    EntityMention,
    CanonicalEntity,
    CoreferenceCluster,
    CoreferenceMention,
    Event,
    EventArgument,
    Relation,
    RelationEndpoint,
    Discourse,
    Topic,
}

/// Edge kinds joining embedding-derived and linguistic semantic evidence.
#[derive(Debug, Clone, Copy, PartialEq, Eq)]
pub enum SemanticGraphEdgeKind {
    SemanticNeighbor,
    ConceptMembership,
    UnitContainsMention,
    MentionCanonical,
    MentionCoreference,
    UnitContainsEvent,
    EventArgument,
    UnitContainsRelation,
    RelationSubject,
    RelationObject,
    ResolvesToCanonical,
    UnitContainsDiscourse,
    DiscourseTransition,
    UnitTopic,
}

/// The membership of one semantic cluster: its id, its member units and its
/// representative unit.
#[derive(Debug, Clone, PartialEq, Eq)]
pub struct ClusterMembership {
    pub id: String,
    pub member_unit_ids: Vec<String>,
    pub representative_unit_id: String,
}

/// The concept cluster that the semantic timeline assigned to one unit.
#[derive(Debug, Clone, PartialEq, Eq)]
pub struct ClusterAssignment {
    pub unit_id: String,
    pub cluster_id: String,
}

/// Backend provenance for optional model-assisted semantic interpretation.
#[derive(Debug, Clone, PartialEq, Eq)]
pub struct SemanticInterpretationMetadata {
    pub backend: String,
    pub model: Option<String>,
}

/// A media time base: `num / den` seconds per tick.
#[derive(Debug, Clone, Copy, PartialEq, Eq)]
pub struct TimebaseContract {
    pub num: i32,
    pub den: i32,
}

/// A presentation timestamp in ticks of its time base.
#[derive(Debug, Clone, Copy, PartialEq, Eq)]
pub struct TimestampContract {
    pub pts: i64,
    pub timebase: TimebaseContract,
}

/// A span of an annotation, with optional token offsets and source segment.
#[derive(Debug, Clone, PartialEq, Eq)]
pub struct TextAnnotationSpan {
    pub span: TextSpan,
    pub token_start: Option<usize>,
    pub token_end: Option<usize>,
    pub source_segment_id: Option<String>,
}

} // verus!
