use nlp_stack::corpus::SemanticCorpusItem;
use nlp_stack::dynamics::ConversationConceptUnit;
use nlp_stack::model::ClusterMembership;
use nlp_stack::profiles::{author_profiles, speaker_profiles, SpeakerConceptCount};

fn unit(index: usize, speaker: Option<&str>, cluster: Option<&str>) -> ConversationConceptUnit {
    ConversationConceptUnit {
        unit_id: format!("u{index}"),
        speaker: speaker.map(str::to_string),
        sequence_index: index,
        cluster_id: cluster.map(str::to_string),
    }
}

fn count(cluster: &str, unit_count: usize) -> SpeakerConceptCount {
    SpeakerConceptCount {
        cluster_id: cluster.to_string(),
        unit_count,
    }
}

#[test]
fn speakers_are_profiled_by_concept_counts() {
    let units = vec![
        unit(0, Some("Bea"), Some("c2")),
        unit(1, Some("Ann"), Some("c3")),
        unit(2, Some("Ann"), Some("c2")),
        unit(3, Some("Ann"), Some("c1")),
        unit(4, Some("Ann"), Some("c3")),
        unit(5, Some("Bea"), None),
        unit(6, None, Some("c1")),
    ];
    let profiles = speaker_profiles(&units);
    assert_eq!(profiles.len(), 2);
    assert_eq!(profiles[0].speaker, "Ann");
    assert_eq!(profiles[0].unit_count, 4);
    assert_eq!(
        profiles[0].concepts,
        vec![count("c3", 2), count("c1", 1), count("c2", 1)]
    );
    let total: usize = profiles[0].concepts.iter().map(|concept| concept.unit_count).sum();
    assert_eq!(total, profiles[0].unit_count);
    assert_eq!(profiles[1].speaker, "Bea");
    assert_eq!(profiles[1].unit_count, 1);
    assert_eq!(profiles[1].concepts, vec![count("c2", 1)]);
}

#[test]
fn units_without_speaker_or_concept_are_not_profiled() {
    let units = vec![unit(0, None, Some("c1")), unit(1, Some("Ann"), None)];
    assert!(speaker_profiles(&units).is_empty());
}

#[test]
fn authors_are_profiled_with_supported_concepts() {
    let items = [
        SemanticCorpusItem::new("a", Some(" Bob "), "One."),
        SemanticCorpusItem::new("b", Some("Alice"), "Two."),
        SemanticCorpusItem::new("c", None, "Three."),
        SemanticCorpusItem::new("d", Some("Bob"), "Four."),
    ];
    let units = vec![
        unit(0, Some("Bob"), Some("c1")),
        unit(1, Some("Alice"), Some("c2")),
        unit(2, Some("Bob"), Some("c2")),
        unit(3, Some("Bob"), Some("c1")),
    ];
    let speakers = speaker_profiles(&units);
    let clusters = vec![
        ClusterMembership {
            id: "c1".to_string(),
            member_unit_ids: vec!["u0".to_string(), "u3".to_string()],
            representative_unit_id: "u0".to_string(),
        },
        ClusterMembership {
            id: "c2".to_string(),
            member_unit_ids: vec!["u1".to_string()],
            representative_unit_id: "u1".to_string(),
        },
    ];
    let profiles = author_profiles(&items, &speakers, &clusters, 2);
    assert_eq!(profiles.len(), 2);
    assert_eq!(profiles[0].author, "Alice");
    assert_eq!(profiles[0].item_positions, vec![1]);
    assert_eq!(profiles[0].semantic_unit_count, 1);
    assert!(profiles[0].concepts.is_empty());
    assert_eq!(profiles[1].author, "Bob");
    assert_eq!(profiles[1].item_positions, vec![0, 3]);
    assert_eq!(profiles[1].item_count, 2);
    assert_eq!(profiles[1].semantic_unit_count, 3);
    assert_eq!(profiles[1].concepts, vec![count("c1", 2)]);
}

#[test]
fn an_author_without_units_has_no_semantic_profile() {
    let items = [SemanticCorpusItem::new("a", Some("Cy"), "Text.")];
    let profiles = author_profiles(&items, &[], &[], 1);
    assert_eq!(profiles.len(), 1);
    assert_eq!(profiles[0].semantic_unit_count, 0);
    assert!(profiles[0].concepts.is_empty());
}
