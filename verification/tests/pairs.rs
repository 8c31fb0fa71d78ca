use nlp_stack::dynamics::ConversationConceptUnit;
use nlp_stack::pairs::speaker_exchanges;

fn spoken(index: usize, speaker: Option<&str>) -> ConversationConceptUnit {
    ConversationConceptUnit {
        unit_id: format!("t{index}:turn"),
        speaker: speaker.map(str::to_string),
        sequence_index: index,
        cluster_id: None,
    }
}

#[test]
fn exchanges_are_grouped_by_ordered_speaker_pair() {
    let speakers = [
        Some("Bob"),
        Some("Alice"),
        Some("Bob"),
        None,
        Some("Bob"),
        Some("Carol"),
        Some("Carol"),
        Some("Alice"),
    ];
    let units: Vec<ConversationConceptUnit> =
        speakers.iter().enumerate().map(|(index, speaker)| spoken(index, *speaker)).collect();
    let entries = speaker_exchanges(&units);
    let summary: Vec<(&str, &str, Vec<usize>)> = entries
        .iter()
        .map(|entry| (entry.left_speaker.as_str(), entry.right_speaker.as_str(), entry.positions.clone()))
        .collect();
    assert_eq!(
        summary,
        vec![
            ("Alice", "Bob", vec![0, 1]),
            ("Alice", "Carol", vec![6]),
            ("Bob", "Carol", vec![4]),
        ]
    );
}

#[test]
fn a_monologue_has_no_exchange() {
    let units = vec![spoken(0, Some("Ann")), spoken(1, Some("Ann")), spoken(2, None)];
    assert!(speaker_exchanges(&units).is_empty());
    assert!(speaker_exchanges(&[]).is_empty());
}
