use nlp_stack::corpus::SemanticCorpusItem;
use nlp_stack::model::SemanticUnitKind;
use nlp_stack::span::TextSpan;
use nlp_stack::units::{
    conversation_units, corpus_units, document_units, ConversationTurn, SourceRegions, TextRegion,
};

fn region(text: &str, start: usize) -> TextRegion {
    TextRegion {
        span: TextSpan {
            byte_start: start,
            byte_end: start + text.len(),
            char_start: start,
            char_end: start + text.chars().count(),
        },
        text: text.to_string(),
    }
}

#[test]
fn document_units_nest_sentences_in_paragraphs() {
    let text = "Hi there.\n\nBye.";
    let sentences = vec![region("Hi there.", 0), region("Bye.", 11)];
    let paragraphs = vec![region("Hi there.", 0), region("Bye.", 11)];
    let units = document_units("doc", text, &sentences, &paragraphs);
    let ids: Vec<&str> = units.iter().map(|unit| unit.id.as_str()).collect();
    assert_eq!(
        ids,
        vec!["doc:sentence:0", "doc:sentence:1", "doc:paragraph:0", "doc:paragraph:1", "doc:document"]
    );
    assert_eq!(units[0].parent_id.as_deref(), Some("doc:paragraph:0"));
    assert_eq!(units[1].parent_id.as_deref(), Some("doc:paragraph:1"));
    assert_eq!(units[2].parent_id.as_deref(), Some("doc:document"));
    assert_eq!(units[4].parent_id, None);
    assert_eq!(units[1].kind, SemanticUnitKind::Sentence);
    assert_eq!(units[3].kind, SemanticUnitKind::Paragraph);
    assert_eq!(units[4].kind, SemanticUnitKind::Document);
    assert_eq!(units[3].sequence_index, 1);
    assert_eq!(units[4].span, TextSpan { byte_start: 0, byte_end: 15, char_start: 0, char_end: 15 });
    assert_eq!(units[4].text, text);
    assert!(units.iter().all(|unit| unit.source_id == "doc" && unit.speaker.is_none()));
}

#[test]
fn a_sentence_outside_every_paragraph_has_no_parent() {
    let sentences = vec![region("Loose.", 0)];
    let units = document_units("d", "Loose.", &sentences, &[]);
    assert_eq!(units.len(), 2);
    assert_eq!(units[0].parent_id, None);
    assert_eq!(units[1].id, "d:document");
}

#[test]
fn the_first_holding_paragraph_is_the_parent() {
    let sentences = vec![region("ab", 2)];
    let paragraphs = vec![region("x", 0), region("abcd", 0), region("ab", 2)];
    let units = document_units("d", "abcd", &sentences, &paragraphs);
    assert_eq!(units[0].parent_id.as_deref(), Some("d:paragraph:1"));
}

#[test]
fn sentence_ids_count_past_nine() {
    let sentences: Vec<TextRegion> = (0..12).map(|index| region("s", index)).collect();
    let units = document_units("d", "ssssssssssss", &sentences, &[]);
    assert_eq!(units[10].id, "d:sentence:10");
    assert_eq!(units[11].id, "d:sentence:11");
}

#[test]
fn corpus_units_number_sentences_across_items() {
    let items = vec![
        SemanticCorpusItem::new("a", Some("  Ann "), "One."),
        SemanticCorpusItem::new("b", None, "Two. Three."),
    ];
    let regions = vec![
        SourceRegions { sentences: vec![region("One.", 0)], paragraphs: vec![region("One.", 0)] },
        SourceRegions {
            sentences: vec![region("Two.", 0), region("Three.", 5)],
            paragraphs: vec![region("Two. Three.", 0)],
        },
    ];
    let units = corpus_units(&items, &regions);
    assert_eq!(units.len(), 7);
    assert_eq!(units[0].id, "a:sentence:0");
    assert_eq!(units[0].speaker.as_deref(), Some("Ann"));
    assert_eq!(units[2].speaker.as_deref(), Some("Ann"));
    assert_eq!(units[3].id, "b:sentence:0");
    assert_eq!(units[3].sequence_index, 1);
    assert_eq!(units[4].sequence_index, 2);
    assert_eq!(units[5].kind, SemanticUnitKind::Paragraph);
    assert_eq!(units[5].sequence_index, 0);
    assert_eq!(units[6].speaker, None);
}

#[test]
fn conversation_units_put_sentences_under_their_turn() {
    let turns = vec![
        ConversationTurn::new("t1", Some("Ann"), "Hi. Yo."),
        ConversationTurn::new("t2", None, "Ok."),
    ];
    let sentences = vec![vec![region("Hi.", 0), region("Yo.", 4)], vec![]];
    let units = conversation_units(&turns, &sentences);
    let ids: Vec<&str> = units.iter().map(|unit| unit.id.as_str()).collect();
    assert_eq!(ids, vec!["t1:turn", "t1:sentence:0", "t1:sentence:1", "t2:turn"]);
    assert_eq!(units[0].kind, SemanticUnitKind::SpeakerTurn);
    assert_eq!(units[0].sequence_index, 0);
    assert_eq!(units[3].sequence_index, 1);
    assert_eq!(units[2].parent_id.as_deref(), Some("t1:turn"));
    assert_eq!(units[2].speaker.as_deref(), Some("Ann"));
    assert_eq!(units[2].sequence_index, 1);
    assert_eq!(units[3].speaker, None);
    assert_eq!(units[0].span, TextSpan { byte_start: 0, byte_end: 7, char_start: 0, char_end: 7 });
}
