//! Fuzzy query-term expansion policy: option limits and the full-matrix
//! optimal-string-alignment distance used to find vocabulary corrections.

use vstd::prelude::*;

use crate::chars::{collect_chars, same_chars};
use crate::distance::{
    bounded_osa, lemma_osa_at_most_longer, lemma_osa_border, lemma_osa_identical,
    lemma_osa_length_gap, osa_prefix_distance, saturating_increment,
};

verus! {

/// Largest number of characters a term may have to take part in fuzzy matching.
pub const MAX_FUZZY_TERM_CHARS: usize = 64;

/// Largest accepted `max_expansions_per_term`.
pub const HARD_MAX_EXPANSIONS_PER_TERM: usize = 8;

/// Largest accepted `max_query_variants`.
pub const HARD_MAX_QUERY_VARIANTS: usize = 64;

/// Largest accepted `max_vocabulary_terms`.
pub const HARD_MAX_VOCABULARY_TERMS: usize = 100_000;

/// `max_edit_distance` used when a request does not name one.
pub fn default_max_edit_distance() -> (value: usize)
    ensures
        value == 1,
{
    1
}

/// `min_term_length` used when a request does not name one.
pub fn default_min_term_length() -> (value: usize)
    ensures
        value == 4,
{
    4
}

/// `max_expansions_per_term` used when a request does not name one.
pub fn default_max_expansions_per_term() -> (value: usize)
    ensures
        value == 3,
{
    3
}

/// `max_query_variants` used when a request does not name one.
pub fn default_max_query_variants() -> (value: usize)
    ensures
        value == 16,
{
    16
}

/// `max_vocabulary_terms` used when a request does not name one.
pub fn default_max_vocabulary_terms() -> (value: usize)
    ensures
        value == 20_000,
{
    20_000
}

/// The integer limits of a fuzzy search request.
#[derive(Debug, Clone, Copy, PartialEq, Eq)]
pub struct FuzzySearchLimits {
    pub max_edit_distance: usize,
    pub min_term_length: usize,
    pub max_expansions_per_term: usize,
    pub max_query_variants: usize,
    pub max_vocabulary_terms: usize,
}

impl FuzzySearchLimits {
    /// The limits used when a request names none.
    pub fn defaults() -> (limits: Self)
        ensures
            limits == (FuzzySearchLimits {
                max_edit_distance: 1,
                min_term_length: 4,
                max_expansions_per_term: 3,
                max_query_variants: 16,
                max_vocabulary_terms: 20_000,
            }),
    {
        FuzzySearchLimits {
            max_edit_distance: default_max_edit_distance(),
            min_term_length: default_min_term_length(),
            max_expansions_per_term: default_max_expansions_per_term(),
            max_query_variants: default_max_query_variants(),
            max_vocabulary_terms: default_max_vocabulary_terms(),
        }
    }
}

/// Why a fuzzy search request was refused before any work.
#[derive(Debug, Clone, Copy, PartialEq, Eq)]
pub enum FuzzyOptionsError {
    /// The query is not a lexical query.
    NotLexical,
    /// `max_edit_distance` is not 1 or 2.
    EditDistance,
    /// `min_term_length` is outside `2..=64`.
    MinTermLength,
    /// `max_expansions_per_term` is outside `1..=8`.
    ExpansionsPerTerm,
    /// `max_query_variants` is outside `2..=64`.
    QueryVariants,
    /// `max_vocabulary_terms` is outside `1..=100000`.
    VocabularyTerms,
    /// The fuzzy weight is not finite, or not in `(0, 1]`.
    FuzzyWeight,
}

/// The first problem of a request, checked in the order mode, distance, term
/// length, expansions, variants, vocabulary size, weight.
pub open spec fn fuzzy_options_problem(
    lexical_mode: bool,
    limits: FuzzySearchLimits,
    weight_in_range: bool,
) -> Option<FuzzyOptionsError> {
    if !lexical_mode {
        Some(FuzzyOptionsError::NotLexical)
    } else if !(1 <= limits.max_edit_distance <= 2) {
        Some(FuzzyOptionsError::EditDistance)
    } else if !(2 <= limits.min_term_length <= MAX_FUZZY_TERM_CHARS) {
        Some(FuzzyOptionsError::MinTermLength)
    } else if !(1 <= limits.max_expansions_per_term <= HARD_MAX_EXPANSIONS_PER_TERM) {
        Some(FuzzyOptionsError::ExpansionsPerTerm)
    } else if !(2 <= limits.max_query_variants <= HARD_MAX_QUERY_VARIANTS) {
        Some(FuzzyOptionsError::QueryVariants)
    } else if !(1 <= limits.max_vocabulary_terms <= HARD_MAX_VOCABULARY_TERMS) {
        Some(FuzzyOptionsError::VocabularyTerms)
    } else if !weight_in_range {
        Some(FuzzyOptionsError::FuzzyWeight)
    } else {
        None
    }
}

/// Checks a fuzzy search request. `lexical_mode` tells whether the query is
/// lexical, and `weight_in_range` whether the fuzzy weight is finite, above 0
/// and at most 1.
pub fn validate_options(lexical_mode: bool, limits: &FuzzySearchLimits, weight_in_range: bool) -> (result:
    Result<(), FuzzyOptionsError>)
    ensures
        match fuzzy_options_problem(lexical_mode, *limits, weight_in_range) {
            Some(problem) => result == Err::<(), FuzzyOptionsError>(problem),
            None => result is Ok,
        },
{
    if !lexical_mode {
        return Err(FuzzyOptionsError::NotLexical);
    }
    if !(1 <= limits.max_edit_distance && limits.max_edit_distance <= 2) {
        return Err(FuzzyOptionsError::EditDistance);
    }
    if !(2 <= limits.min_term_length && limits.min_term_length <= MAX_FUZZY_TERM_CHARS) {
        return Err(FuzzyOptionsError::MinTermLength);
    }
    if !(1 <= limits.max_expansions_per_term && limits.max_expansions_per_term
        <= HARD_MAX_EXPANSIONS_PER_TERM) {
        return Err(FuzzyOptionsError::ExpansionsPerTerm);
    }
    if !(2 <= limits.max_query_variants && limits.max_query_variants <= HARD_MAX_QUERY_VARIANTS) {
        return Err(FuzzyOptionsError::QueryVariants);
    }
    if !(1 <= limits.max_vocabulary_terms && limits.max_vocabulary_terms
        <= HARD_MAX_VOCABULARY_TERMS) {
        return Err(FuzzyOptionsError::VocabularyTerms);
    }
    if !weight_in_range {
        return Err(FuzzyOptionsError::FuzzyWeight);
    }
    Ok(())
}

/// The sentence that describes a refused request, as characters.
pub open spec fn fuzzy_options_text(error: FuzzyOptionsError) -> Seq<char> {
    match error {
        FuzzyOptionsError::NotLexical => "fuzzy search currently requires query.mode = lexical"@,
        FuzzyOptionsError::EditDistance => "fuzzy maxEditDistance must be 1 or 2"@,
        FuzzyOptionsError::MinTermLength => "fuzzy minTermLength must be between 2 and 64"@,
        FuzzyOptionsError::ExpansionsPerTerm =>
            "fuzzy maxExpansionsPerTerm must be between 1 and 8"@,
        FuzzyOptionsError::QueryVariants => "fuzzy maxQueryVariants must be between 2 and 64"@,
        FuzzyOptionsError::VocabularyTerms =>
            "fuzzy maxVocabularyTerms must be between 1 and 100000"@,
        FuzzyOptionsError::FuzzyWeight =>
            "fuzzy fuzzyWeight must be finite and greater than 0 and at most 1"@,
    }
}

impl FuzzyOptionsError {
    /// A sentence that describes the problem.
    pub fn message(&self) -> (text: &'static str)
        ensures
            text@ == fuzzy_options_text(*self),
    {
        match self {
            FuzzyOptionsError::NotLexical => "fuzzy search currently requires query.mode = lexical",
            FuzzyOptionsError::EditDistance => "fuzzy maxEditDistance must be 1 or 2",
            FuzzyOptionsError::MinTermLength => "fuzzy minTermLength must be between 2 and 64",
            FuzzyOptionsError::ExpansionsPerTerm =>
                "fuzzy maxExpansionsPerTerm must be between 1 and 8",
            FuzzyOptionsError::QueryVariants => "fuzzy maxQueryVariants must be between 2 and 64",
            FuzzyOptionsError::VocabularyTerms =>
                "fuzzy maxVocabularyTerms must be between 1 and 100000",
            FuzzyOptionsError::FuzzyWeight =>
                "fuzzy fuzzyWeight must be finite and greater than 0 and at most 1",
        }
    }
}

/// One row of the full OSA table: entry `c` is the distance from the first
/// `row` characters of `left` to the first `c` characters of `right`.
pub open spec fn full_row_holds(values: Seq<usize>, left: Seq<char>, right: Seq<char>, row: nat) -> bool {
    &&& values.len() == right.len() + 1
    &&& forall|c: int|
        #![trigger values[c]]
        0 <= c <= right.len() ==> values[c] == osa_prefix_distance(left, right, row, c as nat)
}

/// Returns the OSA distance between `left` and `right` when it is at most
/// `max_distance`, and `None` otherwise, evaluating the complete table.
pub fn bounded_damerau_levenshtein(left: &str, right: &str, max_distance: usize) -> (result:
    Option<usize>)
    ensures
        result == bounded_osa(left@, right@, max_distance),
{
    let left = collect_chars(left);
    let right = collect_chars(right);
    let ghost l = left@;
    let ghost r = right@;
    let n = left.len();
    let m = right.len();
    let gap = if n >= m {
        n - m
    } else {
        m - n
    };
    if gap > max_distance {
        proof {
            lemma_osa_length_gap(l, r, n as nat, m as nat);
        }
        return None;
    }
    if same_chars(&left, &right) {
        proof {
            lemma_osa_identical(l, l.len());
        }
        return Some(0);
    }
    let mut previous_previous: Vec<usize> = Vec::new();
    let mut previous: Vec<usize> = Vec::new();
    previous_previous.push(0);
    previous.push(0);
    let mut column: usize = 0;
    while column < m
        invariant
            column <= m,
            previous_previous@.len() == column + 1,
            previous@.len() == column + 1,
            forall|c: int| 0 <= c <= column ==> #[trigger] previous@[c] == c,
        decreases m - column,
    {
        column = column + 1;
        previous_previous.push(0);
        previous.push(column);
    }
    proof {
        assert forall|c: int|
            #![trigger previous@[c]]
            0 <= c <= m implies previous@[c] == osa_prefix_distance(l, r, 0, c as nat) by {
            lemma_osa_border(l, r, 0, c as nat);
        }
    }
    let mut done: usize = 0;
    while done < n
        invariant
            l == left@,
            r == right@,
            n == l.len(),
            m == r.len(),
            done <= n,
            previous_previous@.len() == m + 1,
            full_row_holds(previous@, l, r, done as nat),
            done >= 1 ==> full_row_holds(previous_previous@, l, r, (done - 1) as nat),
        decreases n - done,
    {
        let row = done + 1;
        let mut current: Vec<usize> = Vec::new();
        proof {
            lemma_osa_border(l, r, row as nat, 0);
        }
        current.push(row);
        let mut column: usize = 0;
        while column < m
            invariant
                l == left@,
                r == right@,
                n == l.len(),
                m == r.len(),
                1 <= row <= n,
                row == done + 1,
                column <= m,
                current@.len() == column + 1,
                full_row_holds(previous@, l, r, done as nat),
                done >= 1 ==> full_row_holds(previous_previous@, l, r, (done - 1) as nat),
                forall|c: int|
                    #![trigger current@[c]]
                    0 <= c <= column ==> current@[c] == osa_prefix_distance(
                        l,
                        r,
                        row as nat,
                        c as nat,
                    ),
            decreases m - column,
        {
            let col = column + 1;
            let cost: usize = if left[row - 1] != right[col - 1] {
                1
            } else {
                0
            };
            proof {
                lemma_osa_at_most_longer(l, r, row as nat, col as nat);
            }
            let deletion = saturating_increment(previous[col], 1);
            let insertion = saturating_increment(current[column], 1);
            let substitution = saturating_increment(previous[column], cost);
            let mut distance = if deletion <= insertion {
                deletion
            } else {
                insertion
            };
            if substitution < distance {
                distance = substitution;
            }
            let transposed = row > 1 && col > 1 && left[row - 1] == right[col - 2] && left[row
                - 2] == right[col - 1];
            if transposed {
                let far = saturating_increment(previous_previous[col - 2], 1);
                if far < distance {
                    distance = far;
                }
            }
            proof {
                reveal(osa_prefix_distance);
                assert(distance == osa_prefix_distance(l, r, row as nat, col as nat));
            }
            current.push(distance);
            column = col;
        }
        previous_previous = previous;
        previous = current;
        done = row;
    }
    let distance = previous[m];
    if distance <= max_distance {
        Some(distance)
    } else {
        None
    }
}

} // verus!
