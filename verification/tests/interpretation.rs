use nlp_stack::interpretation::{
    interpretation_request, validate_backend_name, InterpretationError, InterpretationRequest,
};
use nlp_stack::model::ClusterMembership;

fn ids(values: &[&str]) -> Vec<String> {
    values.iter().map(|value| value.to_string()).collect()
}

fn membership(members: &[&str], representative: &str) -> ClusterMembership {
    ClusterMembership {
        id: "concept:0".to_string(),
        member_unit_ids: ids(members),
        representative_unit_id: representative.to_string(),
    }
}

#[test]
fn requests_point_at_the_representative_and_members() {
    let units = ids(&["u0", "u1", "u2"]);
    assert_eq!(
        interpretation_request(&units, &membership(&["u2", "u0"], "u0")),
        Ok(InterpretationRequest {
            representative: 0,
            members: vec![2, 0],
        })
    );
}

#[test]
fn unknown_representatives_and_members_are_refused_in_that_order() {
    let units = ids(&["u0", "u1"]);
    assert_eq!(
        interpretation_request(&units, &membership(&["u9"], "u8")),
        Err(InterpretationError::MissingRepresentative)
    );
    assert_eq!(
        interpretation_request(&units, &membership(&["u1", "u9"], "u0")),
        Err(InterpretationError::UnknownMember)
    );
    assert_eq!(
        InterpretationError::UnknownMember.message(),
        "semantic cluster contains an unknown member unit"
    );
}

#[test]
fn backends_must_name_themselves() {
    assert_eq!(validate_backend_name("local-labeler"), Ok(()));
    assert_eq!(
        validate_backend_name(" \n"),
        Err(InterpretationError::EmptyBackendName)
    );
}
