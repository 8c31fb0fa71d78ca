use nlp_stack::model::{ClusterAssignment, ClusterMembership};
use nlp_stack::timeline::{hotspot_extents, timeline_slots};

fn cluster(id: &str, members: &[&str], representative: &str) -> ClusterMembership {
    ClusterMembership {
        id: id.to_string(),
        member_unit_ids: members.iter().map(|member| member.to_string()).collect(),
        representative_unit_id: representative.to_string(),
    }
}

fn ids(values: &[&str]) -> Vec<String> {
    values.iter().map(|value| value.to_string()).collect()
}

#[test]
fn each_unit_takes_its_concept_and_representative_position() {
    let unit_ids = ids(&["u0", "u1", "u2", "u3"]);
    let clusters = vec![cluster("concept-1", &["u0", "u2"], "u2"), cluster("concept-2", &["u1", "u3"], "u1")];
    let slots = timeline_slots(&unit_ids, &clusters);
    let summary: Vec<(&str, &str, usize)> = slots
        .iter()
        .map(|slot| (slot.unit_id.as_str(), slot.cluster_id.as_str(), slot.representative_position))
        .collect();
    assert_eq!(
        summary,
        vec![("u0", "concept-1", 2), ("u1", "concept-2", 1), ("u2", "concept-1", 2), ("u3", "concept-2", 1)]
    );
}

#[test]
fn the_last_listing_cluster_wins() {
    let unit_ids = ids(&["a", "b"]);
    let clusters = vec![cluster("first", &["a", "b"], "a"), cluster("second", &["b"], "b")];
    let slots = timeline_slots(&unit_ids, &clusters);
    assert_eq!(slots[0].cluster_id, "first");
    assert_eq!(slots[1].cluster_id, "second");
    assert_eq!(slots[1].representative_position, 1);
}

#[test]
fn hotspot_extents_follow_each_concept_along_the_timeline() {
    let assign = |unit: &str, cluster: &str| ClusterAssignment {
        unit_id: unit.to_string(),
        cluster_id: cluster.to_string(),
    };
    let timeline = vec![
        assign("u0", "concept-1"),
        assign("u1", "concept-2"),
        assign("u2", "concept-1"),
        assign("u3", "concept-1"),
    ];
    let clusters = vec![
        cluster("concept-1", &["u0", "u2", "u3"], "u0"),
        cluster("concept-2", &["u1"], "u1"),
        cluster("concept-3", &["u9"], "u9"),
    ];
    let extents = hotspot_extents(&timeline, &[0, 4, 7, 9], &clusters);
    assert_eq!(extents.len(), 2);
    assert_eq!(extents[0].cluster_id, "concept-1");
    assert_eq!(extents[0].positions, vec![0, 2, 3]);
    assert_eq!(extents[0].first_sequence_index, 0);
    assert_eq!(extents[0].last_sequence_index, 9);
    assert_eq!(extents[1].positions, vec![1]);
    assert_eq!(extents[1].first_sequence_index, 4);
    assert_eq!(extents[1].last_sequence_index, 4);
}
