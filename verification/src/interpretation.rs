//! The structural checks made before an interpretation backend annotates a
//! concept: a named backend, a known representative, known members.

use vstd::prelude::*;

use crate::chars::same_text;
use crate::model::ClusterMembership;
use crate::whitespace::{is_blank, is_blank_str};

verus! {

/// Why an interpretation of a semantic report was refused.
#[derive(Debug, Clone, Copy, PartialEq, Eq)]
pub enum InterpretationError {
    /// The backend names itself with empty or white-space text.
    EmptyBackendName,
    /// A cluster's representative unit is not among the report's units.
    MissingRepresentative,
    /// A cluster lists a member unit that is not among the report's units.
    UnknownMember,
    /// A backend returned a confidence that is not finite or not in `[0, 1]`.
    ConfidenceOutOfRange,
}

/// The units that a backend receives for one cluster, as positions among the
/// report's units.
#[derive(Debug, Clone, PartialEq, Eq)]
pub struct InterpretationRequest {
    pub representative: usize,
    pub members: Vec<usize>,
}

/// Position of the unit recorded under `id`; when several are, the last.
pub open spec fn unit_position(unit_ids: Seq<String>, id: Seq<char>) -> Option<int>
    decreases unit_ids.len(),
{
    if unit_ids.len() == 0 {
        None
    } else if unit_ids.last()@ == id {
        Some(unit_ids.len() - 1)
    } else {
        unit_position(unit_ids.drop_last(), id)
    }
}

/// Every member of `members` is recorded among the units.
pub open spec fn all_known(unit_ids: Seq<String>, members: Seq<String>) -> bool {
    forall|i: int| 0 <= i < members.len() ==> unit_position(unit_ids, (#[trigger] members[i])@) is Some
}

/// The outcome of preparing the request for `cluster`.
pub open spec fn request_outcome(unit_ids: Seq<String>, cluster: ClusterMembership) -> Result<
    (int, Seq<int>),
    InterpretationError,
> {
    match unit_position(unit_ids, cluster.representative_unit_id@) {
        None => Err(InterpretationError::MissingRepresentative),
        Some(representative) => if all_known(unit_ids, cluster.member_unit_ids@) {
            Ok(
                (
                    representative,
                    Seq::new(
                        cluster.member_unit_ids@.len(),
                        |i: int| unit_position(unit_ids, cluster.member_unit_ids@[i]@)->0,
                    ),
                ),
            )
        } else {
            Err(InterpretationError::UnknownMember)
        },
    }
}

/// Checks the name a backend gives itself.
pub fn validate_backend_name(name: &str) -> (result: Result<(), InterpretationError>)
    ensures
        result is Ok <==> !is_blank(name@),
        result is Err ==> result == Err::<(), InterpretationError>(
            InterpretationError::EmptyBackendName,
        ),
{
    if is_blank_str(name) {
        Err(InterpretationError::EmptyBackendName)
    } else {
        Ok(())
    }
}

fn find_position(unit_ids: &[String], id: &str) -> (found: Option<usize>)
    ensures
        match found {
            Some(k) => unit_position(unit_ids@, id@) == Some(k as int),
            None => unit_position(unit_ids@, id@) is None,
        },
{
    let mut found: Option<usize> = None;
    let mut index: usize = 0;
    while index < unit_ids.len()
        invariant
            index <= unit_ids@.len(),
            match found {
                Some(k) => unit_position(unit_ids@.take(index as int), id@) == Some(k as int),
                None => unit_position(unit_ids@.take(index as int), id@) is None,
            },
        decreases unit_ids@.len() - index,
    {
        proof {
            assert(unit_ids@.take(index + 1).drop_last() =~= unit_ids@.take(index as int));
            lemma_position_bounded(unit_ids@.take(index as int), id@);
        }
        if same_text(unit_ids[index].as_str(), id) {
            found = Some(index);
        }
        index = index + 1;
    }
    proof {
        assert(unit_ids@.take(index as int) =~= unit_ids@);
    }
    found
}

proof fn lemma_position_bounded(unit_ids: Seq<String>, id: Seq<char>)
    ensures
        unit_position(unit_ids, id) matches Some(k) ==> 0 <= k < unit_ids.len(),
    decreases unit_ids.len(),
{
    if unit_ids.len() > 0 {
        lemma_position_bounded(unit_ids.drop_last(), id);
    }
}

/// The request for `cluster`: the position of its representative and of each
/// member, in member order, among `unit_ids`; refused when the representative,
/// or else some member, is not among them.
pub fn interpretation_request(unit_ids: &[String], cluster: &ClusterMembership) -> (result: Result<
    InterpretationRequest,
    InterpretationError,
>)
    ensures
        match request_outcome(unit_ids@, *cluster) {
            Ok((representative, members)) => result matches Ok(request) && request.representative
                == representative && request.members@.len() == members.len() && forall|i: int|
                0 <= i < members.len() ==> #[trigger] request.members@[i] == members[i],
            Err(error) => result == Err::<InterpretationRequest, InterpretationError>(error),
        },
{
    let representative = match find_position(unit_ids, cluster.representative_unit_id.as_str()) {
        Some(k) => k,
        None => return Err(InterpretationError::MissingRepresentative),
    };
    let mut members: Vec<usize> = Vec::new();
    let mut index: usize = 0;
    while index < cluster.member_unit_ids.len()
        invariant
            index <= cluster.member_unit_ids@.len(),
            members@.len() == index,
            forall|i: int|
                0 <= i < index ==> unit_position(unit_ids@, cluster.member_unit_ids@[i]@) == Some(
                    #[trigger] members@[i] as int,
                ),
            unit_position(unit_ids@, cluster.representative_unit_id@) == Some(representative as int),
        decreases cluster.member_unit_ids@.len() - index,
    {
        match find_position(unit_ids, cluster.member_unit_ids[index].as_str()) {
            Some(k) => {
                members.push(k);
            },
            None => {
                proof {
                    assert(!all_known(unit_ids@, cluster.member_unit_ids@));
                }
                return Err(InterpretationError::UnknownMember);
            },
        }
        index = index + 1;
    }
    proof {
        assert forall|i: int| 0 <= i < cluster.member_unit_ids@.len() implies unit_position(
            unit_ids@,
            (#[trigger] cluster.member_unit_ids@[i])@,
        ) is Some by {
            assert(unit_position(unit_ids@, cluster.member_unit_ids@[i]@) == Some(members@[i] as int));
        }
    }
    Ok(InterpretationRequest { representative, members })
}

/// The sentence that describes a refused interpretation, as characters.
pub open spec fn interpretation_error_text(error: InterpretationError) -> Seq<char> {
    match error {
        InterpretationError::EmptyBackendName =>
            "semantic interpretation backend name must not be empty"@,
        InterpretationError::MissingRepresentative =>
            "semantic cluster representative was not found"@,
        InterpretationError::UnknownMember => "semantic cluster contains an unknown member unit"@,
        InterpretationError::ConfidenceOutOfRange =>
            "semantic interpretation confidence must be finite and between 0 and 1"@,
    }
}

impl InterpretationError {
    /// A sentence that describes the problem.
    pub fn message(&self) -> (text: &'static str)
        ensures
            text@ == interpretation_error_text(*self),
    {
        match self {
            InterpretationError::EmptyBackendName =>
                "semantic interpretation backend name must not be empty",
            InterpretationError::MissingRepresentative =>
                "semantic cluster representative was not found",
            InterpretationError::UnknownMember => "semantic cluster contains an unknown member unit",
            InterpretationError::ConfidenceOutOfRange =>
                "semantic interpretation confidence must be finite and between 0 and 1",
        }
    }
}

} // verus!
