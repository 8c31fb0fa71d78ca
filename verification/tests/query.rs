use nlp_stack::query::{
    check_query_tokens, correctable_token, correction_summary, extend_variants, normalized_query_tokens,
    FuzzyQueryError, QueryToken, QueryVariant, TextToken, TokenKind, MAX_FUZZY_QUERY_TERMS,
};
use nlp_stack::span::TextSpan;
use nlp_stack::vocabulary::FuzzyTermMatch;

fn token(kind: TokenKind, normalized: &str) -> TextToken {
    TextToken {
        kind,
        text: normalized.to_string(),
        span: TextSpan { byte_start: 0, byte_end: normalized.len(), char_start: 0, char_end: normalized.len() },
        normalized: normalized.to_string(),
    }
}

fn query_token(normalized: &str, fuzzy_eligible: bool) -> QueryToken {
    QueryToken { normalized: normalized.to_string(), fuzzy_eligible }
}

fn correction(query: &str, matched: &str, distance: usize) -> FuzzyTermMatch {
    FuzzyTermMatch {
        query_term: query.to_string(),
        matched_term: matched.to_string(),
        edit_distance: distance,
    }
}

#[test]
fn query_tokens_keep_searchable_kinds_and_mark_words() {
    let tokens = vec![
        token(TokenKind::Word, "semantc"),
        token(TokenKind::Punctuation, ","),
        token(TokenKind::Number, "42"),
        token(TokenKind::Other, " "),
        token(TokenKind::Email, "a@b.c"),
        token(TokenKind::Url, "https://x.y"),
        token(TokenKind::Mention, "@ann"),
        token(TokenKind::Hashtag, "#nlp"),
        token(TokenKind::Word, "search"),
    ];
    let query = normalized_query_tokens(&tokens);
    assert_eq!(
        query,
        vec![
            query_token("semantc", true),
            query_token("42", false),
            query_token("a@b.c", false),
            query_token("https://x.y", false),
            query_token("@ann", false),
            query_token("#nlp", false),
            query_token("search", true),
        ]
    );
}

#[test]
fn a_query_needs_between_one_and_sixteen_terms() {
    assert_eq!(check_query_tokens(&[]), Err(FuzzyQueryError::NoSearchableTerm));
    let sixteen: Vec<QueryToken> = (0..MAX_FUZZY_QUERY_TERMS).map(|_| query_token("x", true)).collect();
    assert_eq!(check_query_tokens(&sixteen), Ok(()));
    let seventeen: Vec<QueryToken> = (0..17).map(|_| query_token("x", true)).collect();
    assert_eq!(check_query_tokens(&seventeen), Err(FuzzyQueryError::TooManyTerms));
    assert_eq!(
        FuzzyQueryError::NoSearchableTerm.message(),
        "fuzzy search requires at least one searchable query term"
    );
    assert_eq!(FuzzyQueryError::TooManyTerms.message(), "fuzzy search supports at most 16 query terms");
}

#[test]
fn only_words_of_a_bounded_length_are_correctable() {
    assert!(correctable_token(&query_token("semantc", true), 4));
    assert!(!correctable_token(&query_token("abc", true), 4));
    assert!(correctable_token(&query_token("abcd", true), 4));
    assert!(!correctable_token(&query_token("semantic", false), 4));
    assert!(!correctable_token(&query_token(&"a".repeat(65), true), 4));
    assert!(correctable_token(&query_token(&"é".repeat(64), true), 4));
}

#[test]
fn extending_variants_appends_one_copy_per_correction() {
    let variants = vec![QueryVariant {
        terms: vec!["semantc".to_string(), "serch".to_string()],
        fuzzy_matches: Vec::new(),
    }];
    let first = extend_variants(variants, 0, &[correction("semantc", "semantic", 1)]);
    assert_eq!(first.len(), 2);
    assert_eq!(first[0].terms, vec!["semantc", "serch"]);
    assert_eq!(first[1].terms, vec!["semantic", "serch"]);
    let second = extend_variants(
        first,
        1,
        &[correction("serch", "search", 1), correction("serch", "perch", 1)],
    );
    let texts: Vec<String> = second.iter().map(|variant| variant.terms.join(" ")).collect();
    assert_eq!(
        texts,
        vec![
            "semantc serch",
            "semantic serch",
            "semantc search",
            "semantc perch",
            "semantic search",
            "semantic perch",
        ]
    );
    assert_eq!(second[4].fuzzy_matches.len(), 2);
    assert_eq!(second[4].fuzzy_matches[0].matched_term, "semantic");
    assert_eq!(second[4].fuzzy_matches[1].matched_term, "search");
    assert_eq!(second[2].fuzzy_matches, vec![correction("serch", "search", 1)]);
}

#[test]
fn extending_with_no_correction_changes_nothing() {
    let variants = vec![QueryVariant { terms: vec!["a".to_string()], fuzzy_matches: Vec::new() }];
    let extended = extend_variants(variants.clone(), 0, &[]);
    assert_eq!(extended, variants);
}

#[test]
fn a_variant_reads_as_its_terms_joined_by_spaces() {
    let variant = QueryVariant {
        terms: vec!["semantic".to_string(), "search".to_string(), "now".to_string()],
        fuzzy_matches: Vec::new(),
    };
    assert_eq!(variant.text(), "semantic search now");
    let empty = QueryVariant { terms: Vec::new(), fuzzy_matches: Vec::new() };
    assert_eq!(empty.text(), "");
}

#[test]
fn corrections_read_as_query_arrow_match_with_distance() {
    assert_eq!(correction_summary(&[]), "");
    assert_eq!(correction_summary(&[correction("stratgey", "strategy", 2)]), "stratgey→strategy(d=2)");
    assert_eq!(
        correction_summary(&[correction("semantc", "semantic", 1), correction("serch", "search", 1)]),
        "semantc→semantic(d=1),serch→search(d=1)"
    );
}
