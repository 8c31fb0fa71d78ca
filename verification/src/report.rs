//! The checks made before and while a semantic report is built: the analysis
//! options, the document or conversation analysed, the shape of the vectors
//! the embedding backend returned, and the units the report is about.

use vstd::prelude::*;
use vstd::string::StringExecFns;

use crate::chars::{decimal, decimal_text, same_text};
use crate::model::SemanticUnitKind;
use crate::units::{ConversationTurn, StructuralUnit};
use crate::whitespace::{is_blank, is_blank_str};

verus! {

/// Why a semantic analysis request was refused before any unit was built.
#[derive(Debug, Clone, Copy, PartialEq, Eq)]
pub enum SemanticInputError<'a> {
    /// `neighbors_per_unit` is zero.
    ZeroNeighbors,
    /// The neighbor threshold is not finite, or not in `[-1, 1]`.
    NeighborThreshold,
    /// The cluster threshold is not finite, or not in `[-1, 1]`.
    ClusterThreshold,
    /// The document id is empty or white space.
    EmptyDocumentId,
    /// The conversation holds no turn.
    NoTurns,
    /// A turn id is empty or white space.
    EmptyTurnId,
    /// A turn id occurs twice.
    DuplicateTurnId(&'a str),
}

/// The first problem of the analysis options, checked in the order
/// neighbors, neighbor threshold, cluster threshold.
pub open spec fn options_problem<'a>(
    neighbors_per_unit: usize,
    neighbor_threshold_in_range: bool,
    cluster_threshold_in_range: bool,
) -> Option<SemanticInputError<'a>> {
    if neighbors_per_unit == 0 {
        Some(SemanticInputError::ZeroNeighbors)
    } else if !neighbor_threshold_in_range {
        Some(SemanticInputError::NeighborThreshold)
    } else if !cluster_threshold_in_range {
        Some(SemanticInputError::ClusterThreshold)
    } else {
        None
    }
}

/// The outcome of an option check.
pub open spec fn outcome<'a>(problem: Option<SemanticInputError<'a>>) -> Result<(), SemanticInputError<'a>> {
    match problem {
        Some(error) => Err(error),
        None => Ok(()),
    }
}

/// Checks the analysis options. `neighbor_threshold_in_range` and
/// `cluster_threshold_in_range` tell whether each threshold is finite and
/// between -1 and 1.
pub fn validate_semantic_options<'a>(
    neighbors_per_unit: usize,
    neighbor_threshold_in_range: bool,
    cluster_threshold_in_range: bool,
) -> (result: Result<(), SemanticInputError<'a>>)
    ensures
        result == outcome(
            options_problem(neighbors_per_unit, neighbor_threshold_in_range, cluster_threshold_in_range),
        ),
{
    if neighbors_per_unit == 0 {
        Err(SemanticInputError::ZeroNeighbors)
    } else if !neighbor_threshold_in_range {
        Err(SemanticInputError::NeighborThreshold)
    } else if !cluster_threshold_in_range {
        Err(SemanticInputError::ClusterThreshold)
    } else {
        Ok(())
    }
}

/// Checks a document analysis: the options first, then the document id.
pub fn validate_document<'a>(
    neighbors_per_unit: usize,
    neighbor_threshold_in_range: bool,
    cluster_threshold_in_range: bool,
    document_id: &str,
) -> (result: Result<(), SemanticInputError<'a>>)
    ensures
        result == match options_problem::<'a>(
            neighbors_per_unit,
            neighbor_threshold_in_range,
            cluster_threshold_in_range,
        ) {
            Some(error) => Err(error),
            None => if is_blank(document_id@) {
                Err(SemanticInputError::EmptyDocumentId)
            } else {
                Ok(())
            },
        },
{
    validate_semantic_options(neighbors_per_unit, neighbor_threshold_in_range, cluster_threshold_in_range)?;
    if is_blank_str(document_id) {
        return Err(SemanticInputError::EmptyDocumentId);
    }
    Ok(())
}

/// The ids of the turns, as characters.
pub open spec fn turn_ids(turns: Seq<ConversationTurn>) -> Seq<Seq<char>> {
    turns.map_values(|turn: ConversationTurn| turn.id@)
}

/// The first problem among the turns from position `index` on: a blank id,
/// or an id that an earlier turn has.
pub open spec fn turns_problem<'a>(turns: Seq<ConversationTurn<'a>>, index: int) -> Option<
    SemanticInputError<'a>,
>
    decreases turns.len() - index,
{
    if index < 0 || index >= turns.len() {
        None
    } else if is_blank(turns[index].id@) {
        Some(SemanticInputError::EmptyTurnId)
    } else if turn_ids(turns).subrange(0, index).contains(turns[index].id@) {
        Some(SemanticInputError::DuplicateTurnId(turns[index].id))
    } else {
        turns_problem(turns, index + 1)
    }
}

/// The outcome of a conversation check: the options first, then at least
/// one turn, then the turn ids in order.
pub open spec fn conversation_check<'a>(
    neighbors_per_unit: usize,
    neighbor_threshold_in_range: bool,
    cluster_threshold_in_range: bool,
    turns: Seq<ConversationTurn<'a>>,
) -> Result<(), SemanticInputError<'a>> {
    match options_problem::<'a>(neighbors_per_unit, neighbor_threshold_in_range, cluster_threshold_in_range) {
        Some(error) => Err(error),
        None => if turns.len() == 0 {
            Err(SemanticInputError::NoTurns)
        } else {
            outcome(turns_problem(turns, 0))
        },
    }
}

/// Checks a conversation analysis: the options, then that there is a turn,
/// then that every turn id is neither blank nor a repeat of an earlier one.
pub fn validate_conversation<'a>(
    neighbors_per_unit: usize,
    neighbor_threshold_in_range: bool,
    cluster_threshold_in_range: bool,
    turns: &[ConversationTurn<'a>],
) -> (result: Result<(), SemanticInputError<'a>>)
    ensures
        result == conversation_check(
            neighbors_per_unit,
            neighbor_threshold_in_range,
            cluster_threshold_in_range,
            turns@,
        ),
{
    validate_semantic_options(neighbors_per_unit, neighbor_threshold_in_range, cluster_threshold_in_range)?;
    if turns.len() == 0 {
        return Err(SemanticInputError::NoTurns);
    }
    let mut index: usize = 0;
    while index < turns.len()
        invariant
            index <= turns@.len(),
            turns_problem(turns@, 0) == turns_problem(turns@, index as int),
            turns@.len() > 0,
            options_problem::<'a>(neighbors_per_unit, neighbor_threshold_in_range, cluster_threshold_in_range)
                is None,
        decreases turns@.len() - index,
    {
        let turn = turns[index];
        if is_blank_str(turn.id) {
            return Err(SemanticInputError::EmptyTurnId);
        }
        let mut earlier: usize = 0;
        while earlier < index
            invariant
                index < turns@.len(),
                earlier <= index,
                turn == turns@[index as int],
                forall|j: int| 0 <= j < earlier ==> turns@[j].id@ != turn.id@,
                turns_problem(turns@, 0) == turns_problem(turns@, index as int),
                !is_blank(turn.id@),
                turns@.len() > 0,
                options_problem::<'a>(neighbors_per_unit, neighbor_threshold_in_range, cluster_threshold_in_range)
                    is None,
            decreases index - earlier,
        {
            if same_text(turns[earlier].id, turn.id) {
                proof {
                    assert(turn_ids(turns@).subrange(0, index as int)[earlier as int] == turn.id@);
                }
                return Err(SemanticInputError::DuplicateTurnId(turn.id));
            }
            earlier = earlier + 1;
        }
        proof {
            if turn_ids(turns@).subrange(0, index as int).contains(turn.id@) {
                let j = choose|j: int|
                    0 <= j < index && turn_ids(turns@).subrange(0, index as int)[j] == turn.id@;
                assert(turns@[j].id@ == turn.id@);
            }
        }
        index = index + 1;
    }
    Ok(())
}

/// The text that describes a refused analysis request, as characters.
pub open spec fn input_error_text(error: SemanticInputError) -> Seq<char> {
    match error {
        SemanticInputError::ZeroNeighbors => "semantic neighbors_per_unit must be greater than zero"@,
        SemanticInputError::NeighborThreshold =>
            "semantic neighbor_threshold must be finite and between -1 and 1"@,
        SemanticInputError::ClusterThreshold =>
            "semantic cluster_threshold must be finite and between -1 and 1"@,
        SemanticInputError::EmptyDocumentId => "semantic document id must not be empty"@,
        SemanticInputError::NoTurns => "semantic conversation must contain at least one turn"@,
        SemanticInputError::EmptyTurnId => "conversation turn id must not be empty"@,
        SemanticInputError::DuplicateTurnId(id) => "duplicate conversation turn id `"@ + id@ + "`"@,
    }
}

impl<'a> SemanticInputError<'a> {
    /// A sentence that describes the problem.
    pub fn message(&self) -> (text: String)
        ensures
            text@ == input_error_text(*self),
    {
        match self {
            SemanticInputError::ZeroNeighbors => String::from_str(
                "semantic neighbors_per_unit must be greater than zero",
            ),
            SemanticInputError::NeighborThreshold => String::from_str(
                "semantic neighbor_threshold must be finite and between -1 and 1",
            ),
            SemanticInputError::ClusterThreshold => String::from_str(
                "semantic cluster_threshold must be finite and between -1 and 1",
            ),
            SemanticInputError::EmptyDocumentId => String::from_str(
                "semantic document id must not be empty",
            ),
            SemanticInputError::NoTurns => String::from_str(
                "semantic conversation must contain at least one turn",
            ),
            SemanticInputError::EmptyTurnId => String::from_str("conversation turn id must not be empty"),
            SemanticInputError::DuplicateTurnId(id) => {
                let mut text = String::from_str("duplicate conversation turn id `");
                text.append(id);
                text.append("`");
                text
            },
        }
    }
}

/// Why a semantic report could not be built from its units.
#[derive(Debug, Clone, Copy, PartialEq, Eq)]
pub enum SemanticReportError {
    /// No unit was built.
    NoUnits,
    /// The backend returned `returned` vectors for `units` units.
    VectorCount { returned: usize, units: usize },
    /// The backend returned a vector without components.
    EmptyVector,
    /// A vector has `got` components where the first had `expected`.
    InconsistentDimensions { expected: usize, got: usize },
    /// No unit is of the report's primary kind.
    NoPrimaryUnits,
}

/// The first problem among the vector lengths from position `index` on: an
/// empty vector, or one whose length differs from the first.
pub open spec fn dimension_problem(lengths: Seq<usize>, index: int) -> Option<SemanticReportError>
    decreases lengths.len() - index,
{
    if index < 0 || index >= lengths.len() {
        None
    } else if lengths[index] == 0 {
        Some(SemanticReportError::EmptyVector)
    } else if index > 0 && lengths[index] != lengths[0] {
        Some(SemanticReportError::InconsistentDimensions { expected: lengths[0], got: lengths[index] })
    } else {
        dimension_problem(lengths, index + 1)
    }
}

/// The positions of the units of kind `kind`, in order.
pub open spec fn positions_of_kind(units: Seq<StructuralUnit>, kind: SemanticUnitKind) -> Seq<int>
    decreases units.len(),
{
    if units.len() == 0 {
        Seq::empty()
    } else if units.last().kind == kind {
        positions_of_kind(units.drop_last(), kind).push(units.len() - 1)
    } else {
        positions_of_kind(units.drop_last(), kind)
    }
}

/// The first problem with building a report over `units`, given the length
/// of each vector the backend returned: no unit, then the number of vectors,
/// then their lengths, then no unit of the primary kind.
pub open spec fn report_problem(
    units: Seq<StructuralUnit>,
    primary_kind: SemanticUnitKind,
    lengths: Seq<usize>,
) -> Option<SemanticReportError> {
    if units.len() == 0 {
        Some(SemanticReportError::NoUnits)
    } else if lengths.len() != units.len() {
        Some(SemanticReportError::VectorCount { returned: lengths.len() as usize, units: units.len() as usize })
    } else if dimension_problem(lengths, 0) is Some {
        dimension_problem(lengths, 0)
    } else if positions_of_kind(units, primary_kind).len() == 0 {
        Some(SemanticReportError::NoPrimaryUnits)
    } else {
        None
    }
}

/// What a report is built on once its units and vectors passed the checks.
#[derive(Debug, Clone, PartialEq, Eq)]
pub struct ReportPlan {
    /// The positions of the units of the primary kind, in order.
    pub primary_indices: Vec<usize>,
    /// The number of components of every vector.
    pub dimensions: usize,
}

fn first_dimension_problem(lengths: &[usize]) -> (problem: Option<SemanticReportError>)
    ensures
        problem == dimension_problem(lengths@, 0),
{
    let mut index: usize = 0;
    while index < lengths.len()
        invariant
            index <= lengths@.len(),
            dimension_problem(lengths@, 0) == dimension_problem(lengths@, index as int),
        decreases lengths@.len() - index,
    {
        if lengths[index] == 0 {
            return Some(SemanticReportError::EmptyVector);
        }
        if index > 0 && lengths[index] != lengths[0] {
            return Some(SemanticReportError::InconsistentDimensions { expected: lengths[0], got: lengths[index] });
        }
        index = index + 1;
    }
    None
}

fn kind_matches(left: SemanticUnitKind, right: SemanticUnitKind) -> (same: bool)
    ensures
        same == (left == right),
{
    match (left, right) {
        (SemanticUnitKind::Sentence, SemanticUnitKind::Sentence) => true,
        (SemanticUnitKind::Paragraph, SemanticUnitKind::Paragraph) => true,
        (SemanticUnitKind::Document, SemanticUnitKind::Document) => true,
        (SemanticUnitKind::SpeakerTurn, SemanticUnitKind::SpeakerTurn) => true,
        _ => false,
    }
}

/// The positions of the units of kind `kind`, in order.
fn primary_positions(units: &[StructuralUnit], kind: SemanticUnitKind) -> (positions: Vec<usize>)
    ensures
        positions@.map_values(|p: usize| p as int) == positions_of_kind(units@, kind),
{
    let mut positions: Vec<usize> = Vec::new();
    let mut index: usize = 0;
    while index < units.len()
        invariant
            index <= units@.len(),
            positions@.map_values(|p: usize| p as int) == positions_of_kind(units@.take(index as int), kind),
        decreases units@.len() - index,
    {
        proof {
            assert(units@.take(index + 1).drop_last() =~= units@.take(index as int));
        }
        let ghost before = positions@;
        if kind_matches(units[index].kind, kind) {
            positions.push(index);
            proof {
                assert(positions@.map_values(|p: usize| p as int) =~= before.map_values(|p: usize| p as int).push(
                    index as int,
                ));
            }
        }
        index = index + 1;
    }
    proof {
        assert(units@.take(index as int) =~= units@);
    }
    positions
}

/// Checks the units of a report and the vectors the embedding backend
/// returned for them (`vector_lengths[k]` components for `units[k]`), in the
/// order: at least one unit, one vector per unit, no empty vector and every
/// vector as long as the first, at least one unit of `primary_kind`. On
/// success, gives the positions of the primary units and the common length.
pub fn prepare_report(
    units: &[StructuralUnit],
    primary_kind: SemanticUnitKind,
    vector_lengths: &[usize],
) -> (result: Result<ReportPlan, SemanticReportError>)
    ensures
        match report_problem(units@, primary_kind, vector_lengths@) {
            Some(problem) => result == Err::<ReportPlan, SemanticReportError>(problem),
            None => result matches Ok(plan) && plan.primary_indices@.map_values(|p: usize| p as int)
                == positions_of_kind(units@, primary_kind) && plan.dimensions == vector_lengths@[0],
        },
{
    if units.len() == 0 {
        return Err(SemanticReportError::NoUnits);
    }
    if vector_lengths.len() != units.len() {
        return Err(SemanticReportError::VectorCount { returned: vector_lengths.len(), units: units.len() });
    }
    match first_dimension_problem(vector_lengths) {
        Some(problem) => {
            return Err(problem);
        },
        None => {},
    }
    let primary_indices = primary_positions(units, primary_kind);
    if primary_indices.len() == 0 {
        proof {
            assert(positions_of_kind(units@, primary_kind).len() == 0);
        }
        return Err(SemanticReportError::NoPrimaryUnits);
    }
    Ok(ReportPlan { primary_indices, dimensions: vector_lengths[0] })
}

/// The text that describes a report problem, as characters.
pub open spec fn report_error_text(error: SemanticReportError) -> Seq<char> {
    match error {
        SemanticReportError::NoUnits => "semantic analysis produced no units"@,
        SemanticReportError::VectorCount { returned, units } => "embedding backend returned "@
            + decimal_text(returned as nat) + " vectors for "@ + decimal_text(units as nat)
            + " semantic units"@,
        SemanticReportError::EmptyVector => "embedding backend returned an empty semantic vector"@,
        SemanticReportError::InconsistentDimensions { expected, got } =>
            "embedding backend returned inconsistent dimensions: expected "@ + decimal_text(
            expected as nat,
        ) + ", got "@ + decimal_text(got as nat),
        SemanticReportError::NoPrimaryUnits => "semantic analysis produced no primary units"@,
    }
}

impl SemanticReportError {
    /// A sentence that describes the problem.
    pub fn message(&self) -> (text: String)
        ensures
            text@ == report_error_text(*self),
    {
        match self {
            SemanticReportError::NoUnits => String::from_str("semantic analysis produced no units"),
            SemanticReportError::VectorCount { returned, units } => {
                let mut text = String::from_str("embedding backend returned ");
                let count = decimal(*returned);
                text.append(count.as_str());
                text.append(" vectors for ");
                let total = decimal(*units);
                text.append(total.as_str());
                text.append(" semantic units");
                text
            },
            SemanticReportError::EmptyVector => String::from_str(
                "embedding backend returned an empty semantic vector",
            ),
            SemanticReportError::InconsistentDimensions { expected, got } => {
                let mut text = String::from_str(
                    "embedding backend returned inconsistent dimensions: expected ",
                );
                let first = decimal(*expected);
                text.append(first.as_str());
                text.append(", got ");
                let other = decimal(*got);
                text.append(other.as_str());
                text
            },
            SemanticReportError::NoPrimaryUnits => String::from_str(
                "semantic analysis produced no primary units",
            ),
        }
    }
}

} // verus!
