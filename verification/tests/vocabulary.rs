use nlp_stack::fuzzy::{validate_options, FuzzyOptionsError, FuzzySearchLimits};
use nlp_stack::vocabulary::{build_vocabulary, fuzzy_expansions, VocabularyError, VocabularyTerm};

fn chunks(texts: &[&[&str]]) -> Vec<Vec<String>> {
    texts
        .iter()
        .map(|terms| terms.iter().map(|term| term.to_string()).collect())
        .collect()
}

fn entry(term: &str, document_frequency: usize) -> VocabularyTerm {
    VocabularyTerm {
        term: term.to_string(),
        document_frequency,
    }
}

#[test]
fn vocabulary_counts_documents_once_per_chunk() {
    let chunks = chunks(&[&["card", "cart", "card", "to"], &["card"], &["über", "cart"]]);
    let vocabulary = build_vocabulary(&chunks, 4, 10).unwrap();
    assert_eq!(
        vocabulary.entries(),
        &[entry("card", 2), entry("cart", 2), entry("über", 1)][..]
    );
}

#[test]
fn vocabulary_skips_short_and_long_terms() {
    let long = "x".repeat(65);
    let chunks = vec![vec!["abc".to_string(), long, "abcd".to_string()]];
    let vocabulary = build_vocabulary(&chunks, 4, 10).unwrap();
    assert_eq!(vocabulary.entries(), &[entry("abcd", 1)][..]);
}

#[test]
fn vocabulary_over_its_limit_is_refused() {
    let chunks = chunks(&[&["alpha", "beta", "gamma"]]);
    assert_eq!(
        build_vocabulary(&chunks, 4, 2).err(),
        Some(VocabularyError::TooLarge { limit: 2 })
    );
    assert!(build_vocabulary(&chunks, 4, 3).is_ok());
}

#[test]
fn a_transposed_query_term_finds_its_correction() {
    let chunks = chunks(&[
        &["medieval", "strategy", "combat", "formations"],
        &["kitchen", "recipe", "ingredients"],
    ]);
    let vocabulary = build_vocabulary(&chunks, 4, 100).unwrap();
    let expansions = fuzzy_expansions("stratgey", &vocabulary, 1, 3);
    assert_eq!(expansions.len(), 1);
    assert_eq!(expansions[0].query_term, "stratgey");
    assert_eq!(expansions[0].matched_term, "strategy");
    assert_eq!(expansions[0].edit_distance, 1);
}

#[test]
fn corrections_rank_by_distance_then_frequency_then_term() {
    let chunks = chunks(&[&["card", "cart", "cares"], &["card", "core"], &["cart", "bare"]]);
    let vocabulary = build_vocabulary(&chunks, 4, 100).unwrap();
    let terms = |limit: usize, distance: usize| {
        fuzzy_expansions("care", &vocabulary, distance, limit)
            .into_iter()
            .map(|found| (found.matched_term, found.edit_distance))
            .collect::<Vec<_>>()
    };
    assert_eq!(
        terms(8, 1),
        vec![
            ("card".to_string(), 1),
            ("cart".to_string(), 1),
            ("bare".to_string(), 1),
            ("cares".to_string(), 1),
            ("core".to_string(), 1),
        ]
    );
    assert_eq!(terms(2, 1), vec![("card".to_string(), 1), ("cart".to_string(), 1)]);
    assert!(terms(0, 1).is_empty());
}

#[test]
fn the_query_itself_is_not_a_correction() {
    let chunks = chunks(&[&["search", "searh"]]);
    let vocabulary = build_vocabulary(&chunks, 4, 100).unwrap();
    let expansions = fuzzy_expansions("search", &vocabulary, 1, 3);
    assert_eq!(expansions.len(), 1);
    assert_eq!(expansions[0].matched_term, "searh");
}

#[test]
fn options_are_checked_in_order() {
    let defaults = FuzzySearchLimits::defaults();
    assert_eq!(validate_options(true, &defaults, true), Ok(()));
    assert_eq!(
        validate_options(false, &defaults, false),
        Err(FuzzyOptionsError::NotLexical)
    );
    let with = |change: fn(&mut FuzzySearchLimits)| {
        let mut limits = defaults;
        change(&mut limits);
        validate_options(true, &limits, true)
    };
    assert_eq!(with(|l| l.max_edit_distance = 3), Err(FuzzyOptionsError::EditDistance));
    assert_eq!(with(|l| l.min_term_length = 1), Err(FuzzyOptionsError::MinTermLength));
    assert_eq!(
        with(|l| l.max_expansions_per_term = 9),
        Err(FuzzyOptionsError::ExpansionsPerTerm)
    );
    assert_eq!(with(|l| l.max_query_variants = 1), Err(FuzzyOptionsError::QueryVariants));
    assert_eq!(
        with(|l| l.max_vocabulary_terms = 0),
        Err(FuzzyOptionsError::VocabularyTerms)
    );
    assert_eq!(
        validate_options(true, &defaults, false),
        Err(FuzzyOptionsError::FuzzyWeight)
    );
    assert_eq!(
        FuzzyOptionsError::MinTermLength.message(),
        "fuzzy minTermLength must be between 2 and 64"
    );
}

#[test]
fn vocabulary_refusal_names_the_limit() {
    assert_eq!(
        VocabularyError::TooLarge { limit: 20000 }.message(),
        "fuzzy vocabulary exceeds configured maxVocabularyTerms (20000)"
    );
}
