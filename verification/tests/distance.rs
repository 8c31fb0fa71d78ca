use nlp_stack::distance::{bounded_damerau_levenshtein, calculate};

// Independent full-matrix oracle: no banding, row reuse or threshold pruning.
fn oracle(left: &str, right: &str) -> usize {
    let left = left.chars().collect::<Vec<_>>();
    let right = right.chars().collect::<Vec<_>>();
    let mut matrix = vec![vec![0; right.len() + 1]; left.len() + 1];
    for (row, values) in matrix.iter_mut().enumerate() {
        values[0] = row;
    }
    for (column, value) in matrix[0].iter_mut().enumerate() {
        *value = column;
    }
    for row in 1..=left.len() {
        for column in 1..=right.len() {
            let cost = usize::from(left[row - 1] != right[column - 1]);
            matrix[row][column] = (matrix[row - 1][column] + 1)
                .min(matrix[row][column - 1] + 1)
                .min(matrix[row - 1][column - 1] + cost);
            if row > 1
                && column > 1
                && left[row - 1] == right[column - 2]
                && left[row - 2] == right[column - 1]
            {
                matrix[row][column] = matrix[row][column].min(matrix[row - 2][column - 2] + 1);
            }
        }
    }
    matrix[left.len()][right.len()]
}

fn words(alphabet: &[char], max_length: usize) -> Vec<String> {
    let mut words = vec![String::new()];
    let mut frontier = vec![String::new()];
    for _ in 0..max_length {
        let mut next = Vec::new();
        for prefix in &frontier {
            for character in alphabet {
                let mut word = prefix.clone();
                word.push(*character);
                next.push(word);
            }
        }
        words.extend(next.iter().cloned());
        frontier = next;
    }
    words
}

#[test]
fn exhaustive_unicode_distance_matches_independent_oracle() {
    let words = words(&['a', 'é', '🦀'], 4);
    for left in &words {
        for right in &words {
            let expected = oracle(left, right);
            for limit in 0..=3 {
                assert_eq!(
                    bounded_damerau_levenshtein(left, right, limit),
                    (expected <= limit).then_some(expected),
                    "left={left:?}, right={right:?}, limit={limit}"
                );
            }
        }
    }
}

#[test]
fn long_unicode_insertions_deletions_and_transpositions_match_oracle() {
    for length in [8, 16, 32, 64] {
        let unchanged = (0..length)
            .map(|index| ['a', 'é', '🦀'][index % 3])
            .collect::<Vec<_>>();
        let left = unchanged.iter().collect::<String>();
        for position in 0..length {
            let mut variants = Vec::new();
            let mut changed = unchanged.clone();
            changed.remove(position);
            variants.push(changed);
            let mut changed = unchanged.clone();
            changed.insert(position, '界');
            variants.push(changed);
            let mut changed = unchanged.clone();
            changed[position] = '界';
            variants.push(changed);
            if position + 1 < length {
                let mut changed = unchanged.clone();
                changed.swap(position, position + 1);
                variants.push(changed);
            }
            for changed in variants {
                let right = changed.iter().collect::<String>();
                let expected = oracle(&left, &right);
                for limit in 0..=2 {
                    assert_eq!(
                        bounded_damerau_levenshtein(&left, &right, limit),
                        (expected <= limit).then_some(expected),
                        "length={length}, position={position}, limit={limit}"
                    );
                }
            }
        }
    }
}

#[test]
fn preserves_osa_semantics_instead_of_silently_changing_the_metric() {
    assert_eq!(bounded_damerau_levenshtein("CA", "ABC", 2), None);
    assert_eq!(bounded_damerau_levenshtein("CA", "ABC", 3), Some(3));
    assert_eq!(bounded_damerau_levenshtein("a", "b", usize::MAX), Some(1));
}

#[test]
fn recurrence_work_is_banded_and_scales_linearly() {
    for length in [8, 16, 32, 64] {
        let left = "a".repeat(length);
        let right = format!("{}b", "a".repeat(length - 1));
        for limit in [1, 2] {
            let (result, cells) = calculate::<true>(&left, &right, limit);
            assert_eq!(result, Some(1));
            assert_eq!(cells, length * (2 * limit + 1) - limit * (limit + 1));
            assert!(cells < length * length);
        }
    }
    assert_eq!(calculate::<true>("identical", "identical", 1), (Some(0), 0));
    assert_eq!(calculate::<true>("a", "length mismatch", 1), (None, 0));
}

#[test]
fn uncounted_calculation_reports_no_work() {
    assert_eq!(calculate::<false>("kitten", "sitting", 3), (Some(3), 0));
    assert_eq!(calculate::<false>("kitten", "sitting", 2), (None, 0));
}

#[test]
fn empty_side_costs_the_other_length() {
    assert_eq!(bounded_damerau_levenshtein("", "abc", 3), Some(3));
    assert_eq!(bounded_damerau_levenshtein("abc", "", 2), None);
    assert_eq!(calculate::<true>("", "ab", 2), (Some(2), 0));
}

#[test]
fn distance_is_symmetric_on_examples() {
    for (left, right) in [("strategy", "stratgey"), ("CA", "ABC"), ("🦀é", "é🦀a")] {
        for limit in 0..=3 {
            assert_eq!(
                bounded_damerau_levenshtein(left, right, limit),
                bounded_damerau_levenshtein(right, left, limit)
            );
        }
    }
}

#[test]
fn transposition_anywhere_costs_one_edit() {
    assert_eq!(bounded_damerau_levenshtein("ab", "ba", 1), Some(1));
    assert_eq!(bounded_damerau_levenshtein("xaby", "xbay", 1), Some(1));
    assert_eq!(bounded_damerau_levenshtein("é🦀", "🦀é", 0), None);
}

#[test]
fn raising_the_limit_keeps_an_accepted_distance() {
    assert_eq!(bounded_damerau_levenshtein("kitten", "sitting", 3), Some(3));
    assert_eq!(bounded_damerau_levenshtein("kitten", "sitting", 10), Some(3));
}

#[test]
fn work_count_matches_the_closed_form_at_the_limit() {
    let (result, cells) = calculate::<true>("abc", "abd", 3);
    assert_eq!(result, Some(1));
    assert_eq!(cells, 3 * 7 - 3 * 4);
}

#[test]
fn band_work_of_unequal_lengths_stays_within_the_band() {
    let (result, cells) = calculate::<true>("abcdefgh", "abcdefg", 2);
    assert_eq!(result, Some(1));
    assert_eq!(cells, 31);
    assert!(cells <= 8 * (2 * 2 + 1));
    assert!(cells <= 8 * 7);
}
