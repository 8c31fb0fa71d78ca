use nlp_stack::contexts::{normalized_target, occurrence_contexts, WordTargetError};
use nlp_stack::corpus::SemanticCorpusItem;
use nlp_stack::query::{TextToken, TokenKind};
use nlp_stack::span::TextSpan;
use nlp_stack::units::TextRegion;

fn span(start: usize, end: usize) -> TextSpan {
    TextSpan { byte_start: start, byte_end: end, char_start: start, char_end: end }
}

fn token(kind: TokenKind, text: &str, start: usize) -> TextToken {
    TextToken {
        kind,
        text: text.to_string(),
        span: span(start, start + text.len()),
        normalized: text.to_lowercase(),
    }
}

#[test]
fn a_target_must_be_one_token() {
    assert_eq!(normalized_target("  ", &[]), Err(WordTargetError::EmptyTarget));
    assert_eq!(
        normalized_target("bank", &[token(TokenKind::Word, "Bank", 0), token(TokenKind::Punctuation, "!", 4)]),
        Ok("bank".to_string())
    );
    assert_eq!(
        normalized_target("river bank", &[token(TokenKind::Word, "river", 0), token(TokenKind::Word, "bank", 6)]),
        Err(WordTargetError::NotOneToken)
    );
    assert_eq!(normalized_target("!", &[token(TokenKind::Punctuation, "!", 0)]), Err(WordTargetError::NotOneToken));
    assert_eq!(WordTargetError::EmptyTarget.message(), "word-sense target must not be empty");
    assert_eq!(
        WordTargetError::NotOneToken.message(),
        "word-sense target must normalize to exactly one token"
    );
}

#[test]
fn occurrences_take_their_sentence_as_context() {
    let items = vec![
        SemanticCorpusItem::new("a", Some(" Ann "), "The bank. A bank!").with_source("news"),
        SemanticCorpusItem::new("b", None, "bank").with_timestamp_millis(7),
    ];
    let tokens = vec![
        vec![
            token(TokenKind::Word, "The", 0),
            token(TokenKind::Word, "bank", 4),
            token(TokenKind::Punctuation, ".", 8),
            token(TokenKind::Word, "A", 10),
            token(TokenKind::Word, "bank", 12),
            token(TokenKind::Punctuation, "!", 16),
        ],
        vec![token(TokenKind::Word, "bank", 0)],
    ];
    let sentences = vec![
        vec![
            TextRegion { span: span(0, 9), text: "The bank.".to_string() },
            TextRegion { span: span(10, 17), text: "A bank!".to_string() },
        ],
        vec![],
    ];
    let (units, occurrences) = occurrence_contexts(&items, &tokens, &sentences, "bank");
    assert_eq!(units.len(), 3);
    assert_eq!(occurrences.len(), 3);
    let ids: Vec<&str> = units.iter().map(|unit| unit.id.as_str()).collect();
    assert_eq!(ids, vec!["a:word-context:0", "a:word-context:1", "b:word-context:2"]);
    assert_eq!(units[1].text, "A bank!");
    assert_eq!(units[1].span, span(10, 17));
    assert_eq!(units[1].sequence_index, 1);
    assert_eq!(units[0].speaker.as_deref(), Some("Ann"));
    assert_eq!(occurrences[1].occurrence_span, span(12, 16));
    assert_eq!(occurrences[1].context_text, "A bank!");
    assert_eq!(occurrences[0].source.as_deref(), Some("news"));
    assert_eq!(occurrences[0].author.as_deref(), Some("Ann"));
    assert_eq!(occurrences[2].context_text, "bank");
    assert_eq!(occurrences[2].context_span, span(0, 4));
    assert_eq!(occurrences[2].timestamp_millis, Some(7));
    assert_eq!(occurrences[2].unit_id, "b:word-context:2");
}
