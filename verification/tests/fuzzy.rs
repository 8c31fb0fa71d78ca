use nlp_stack::fuzzy::{
    bounded_damerau_levenshtein, default_max_edit_distance, default_max_expansions_per_term,
    default_max_query_variants, default_max_vocabulary_terms, default_min_term_length,
};

#[test]
fn damerau_distance_treats_adjacent_transposition_as_one_edit() {
    assert_eq!(bounded_damerau_levenshtein("strategy", "stratgey", 1), Some(1));
    assert_eq!(bounded_damerau_levenshtein("search", "searh", 1), Some(1));
    assert_eq!(bounded_damerau_levenshtein("search", "fetch", 1), None);
}

#[test]
fn full_matrix_and_banded_distances_agree() {
    let words = ["", "a", "ab", "ba", "abc", "acb", "CA", "ABC", "kitten", "sitting", "é🦀"];
    for left in words {
        for right in words {
            for limit in 0..=3 {
                assert_eq!(
                    bounded_damerau_levenshtein(left, right, limit),
                    nlp_stack::distance::bounded_damerau_levenshtein(left, right, limit),
                    "left={left:?}, right={right:?}, limit={limit}"
                );
            }
        }
    }
}

#[test]
fn default_options_are_conservative() {
    assert_eq!(default_max_edit_distance(), 1);
    assert_eq!(default_min_term_length(), 4);
    assert_eq!(default_max_expansions_per_term(), 3);
    assert_eq!(default_max_query_variants(), 16);
    assert_eq!(default_max_vocabulary_terms(), 20_000);
}
