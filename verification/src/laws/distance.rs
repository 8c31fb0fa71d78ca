//! Properties of the thresholded OSA distance and of the banded recurrence.

use vstd::prelude::*;

use crate::distance::{
    band_first, band_last, band_work, bounded_osa, counted_work, lemma_osa_identical,
    lemma_osa_length_gap, osa_distance, osa_prefix_distance,
};

verus! {

proof fn lemma_prefix_symmetric(left: Seq<char>, right: Seq<char>, i: nat, j: nat)
    ensures
        osa_prefix_distance(left, right, i, j) == osa_prefix_distance(right, left, j, i),
    decreases i, j,
{
    reveal(osa_prefix_distance);
    if i > 0 && j > 0 {
        lemma_prefix_symmetric(left, right, (i - 1) as nat, j);
        lemma_prefix_symmetric(left, right, i, (j - 1) as nat);
        lemma_prefix_symmetric(left, right, (i - 1) as nat, (j - 1) as nat);
        if i > 1 && j > 1 {
            lemma_prefix_symmetric(left, right, (i - 2) as nat, (j - 2) as nat);
        }
    }
}

/// The distance does not depend on which text is called left: swapping the
/// arguments gives the same distance and the same thresholded answer.
pub proof fn law_distance_is_symmetric(left: Seq<char>, right: Seq<char>, max_distance: usize)
    ensures
        osa_distance(left, right) == osa_distance(right, left),
        bounded_osa(left, right, max_distance) == bounded_osa(right, left, max_distance),
{
    lemma_prefix_symmetric(left, right, left.len(), right.len());
}

proof fn lemma_zero_prefix_distance(left: Seq<char>, right: Seq<char>, i: nat, j: nat)
    requires
        i <= left.len(),
        j <= right.len(),
        osa_prefix_distance(left, right, i, j) == 0,
    ensures
        i == j,
        left.take(i as int) == right.take(j as int),
    decreases i, j,
{
    reveal(osa_prefix_distance);
    lemma_osa_length_gap(left, right, i, j);
    if i > 0 && j > 0 {
        lemma_osa_length_gap(left, right, (i - 1) as nat, j);
        lemma_osa_length_gap(left, right, i, (j - 1) as nat);
        assert(osa_prefix_distance(left, right, (i - 1) as nat, (j - 1) as nat) == 0
            && left[i - 1] == right[j - 1]);
        lemma_zero_prefix_distance(left, right, (i - 1) as nat, (j - 1) as nat);
        assert(left.take(i as int) =~= left.take(i - 1).push(left[i - 1]));
        assert(right.take(j as int) =~= right.take(j - 1).push(right[j - 1]));
    }
}

/// The distance is zero exactly when the two texts are the same sequence of
/// characters.
pub proof fn law_distance_zero_iff_equal(left: Seq<char>, right: Seq<char>)
    ensures
        osa_distance(left, right) == 0 <==> left == right,
{
    if left == right {
        lemma_osa_identical(left, left.len());
    }
    if osa_distance(left, right) == 0 {
        lemma_zero_prefix_distance(left, right, left.len(), right.len());
        assert(left.take(left.len() as int) =~= left);
        assert(right.take(right.len() as int) =~= right);
    }
}

/// Texts whose lengths differ by more than the limit are never accepted, and an
/// accepted distance is at least the difference of the lengths.
pub proof fn law_length_gap_rejects(left: Seq<char>, right: Seq<char>, max_distance: usize)
    ensures
        bounded_osa(left, right, max_distance) matches Some(d) ==> d >= left.len() - right.len()
            && d >= right.len() - left.len(),
        left.len() - right.len() > max_distance || right.len() - left.len() > max_distance
            ==> bounded_osa(left, right, max_distance) is None,
{
    lemma_osa_length_gap(left, right, left.len(), right.len());
}

/// Raising the limit never withdraws an accepted distance, and never changes it.
pub proof fn law_threshold_monotone(left: Seq<char>, right: Seq<char>, lower: usize, higher: usize)
    requires
        lower <= higher,
    ensures
        bounded_osa(left, right, lower) matches Some(d) ==> bounded_osa(left, right, higher)
            == Some(d),
        bounded_osa(left, right, higher) is None ==> bounded_osa(left, right, lower) is None,
{
}

proof fn lemma_matching_diagonal_step(left: Seq<char>, right: Seq<char>, i: nat, j: nat)
    requires
        0 < i <= left.len(),
        0 < j <= right.len(),
        left[i - 1] == right[j - 1],
    ensures
        osa_prefix_distance(left, right, i, j) <= osa_prefix_distance(
            left,
            right,
            (i - 1) as nat,
            (j - 1) as nat,
        ),
{
    reveal(osa_prefix_distance);
}

proof fn lemma_transposition_step(left: Seq<char>, right: Seq<char>, i: nat, j: nat)
    requires
        1 < i <= left.len(),
        1 < j <= right.len(),
        left[i - 1] == right[j - 2],
        left[i - 2] == right[j - 1],
    ensures
        osa_prefix_distance(left, right, i, j) <= osa_prefix_distance(
            left,
            right,
            (i - 2) as nat,
            (j - 2) as nat,
        ) + 1,
{
    reveal(osa_prefix_distance);
}

proof fn lemma_common_prefix_zero(left: Seq<char>, right: Seq<char>, i: nat)
    requires
        i <= left.len(),
        i <= right.len(),
        forall|k: int| 0 <= k < i ==> left[k] == right[k],
    ensures
        osa_prefix_distance(left, right, i, i) == 0,
    decreases i,
{
    reveal(osa_prefix_distance);
    if i > 0 {
        lemma_common_prefix_zero(left, right, (i - 1) as nat);
        lemma_matching_diagonal_step(left, right, i, i);
    }
}

proof fn lemma_common_suffix_keeps(left: Seq<char>, right: Seq<char>, from: nat, to: nat)
    requires
        from <= to <= left.len(),
        to <= right.len(),
        forall|k: int| from <= k < to ==> left[k] == right[k],
    ensures
        osa_prefix_distance(left, right, to, to) <= osa_prefix_distance(left, right, from, from),
    decreases to - from,
{
    if from < to {
        lemma_common_suffix_keeps(left, right, from, (to - 1) as nat);
        lemma_matching_diagonal_step(left, right, to, to);
    }
}

/// Swapping two adjacent, different characters costs exactly one edit,
/// wherever the pair stands in the text.
pub proof fn law_adjacent_transposition_is_one_edit(
    before: Seq<char>,
    first: char,
    second: char,
    after: Seq<char>,
)
    requires
        first != second,
    ensures
        osa_distance(
            before + seq![first, second] + after,
            before + seq![second, first] + after,
        ) == 1,
{
    let left = before + seq![first, second] + after;
    let right = before + seq![second, first] + after;
    let p = before.len();
    assert forall|k: int| 0 <= k < p implies left[k] == right[k] by {
        assert(left[k] == before[k]);
        assert(right[k] == before[k]);
    }
    lemma_common_prefix_zero(left, right, p);
    assert(left[p as int] == first && right[p as int + 1] == first);
    assert(left[p as int + 1] == second && right[p as int] == second);
    lemma_transposition_step(left, right, p + 2, p + 2);
    assert forall|k: int| p + 2 <= k < left.len() implies left[k] == right[k] by {
        assert(left[k] == after[k - p - 2]);
        assert(right[k] == after[k - p - 2]);
    }
    lemma_common_suffix_keeps(left, right, p + 2, left.len());
    assert(left[p as int] != right[p as int]);
    law_distance_zero_iff_equal(left, right);
}

/// Columns cut from the left edge of the band in rows `1..=rows`.
spec fn left_cut(rows: nat, max_distance: nat) -> nat
    decreases rows,
{
    if rows == 0 {
        0
    } else {
        left_cut((rows - 1) as nat, max_distance) + (if max_distance + 1 > rows {
            (max_distance + 1 - rows) as nat
        } else {
            0nat
        })
    }
}

/// Columns cut from the right edge of the band in rows `1..=rows`.
spec fn right_cut(rows: nat, columns: nat, max_distance: nat) -> nat
    decreases rows,
{
    if rows == 0 {
        0
    } else {
        right_cut((rows - 1) as nat, columns, max_distance) + (if rows + max_distance > columns {
            (rows + max_distance - columns) as nat
        } else {
            0nat
        })
    }
}

proof fn lemma_band_work_cuts(rows: nat, columns: nat, max_distance: nat)
    requires
        rows <= columns,
    ensures
        band_work(rows, columns, max_distance) + left_cut(rows, max_distance) + right_cut(
            rows,
            columns,
            max_distance,
        ) == rows * (2 * max_distance + 1),
    decreases rows,
{
    if rows > 0 {
        lemma_band_work_cuts((rows - 1) as nat, columns, max_distance);
        let r = rows as int;
        let k = max_distance as int;
        let width = band_last(r, k, columns as int) - band_first(r, k) + 1;
        assert(width > 0);
        assert(band_work(rows, columns, max_distance) == band_work(
            (rows - 1) as nat,
            columns,
            max_distance,
        ) + width);
        assert(width + (if k + 1 > r { k + 1 - r } else { 0 }) + (if r + k > columns {
            r + k - columns
        } else {
            0
        }) == 2 * k + 1);
        assert((r - 1) * (2 * k + 1) + (2 * k + 1) == r * (2 * k + 1)) by (nonlinear_arith);
    } else {
        assert(0 * (2 * max_distance + 1) == 0) by (nonlinear_arith);
    }
}

proof fn lemma_left_cut_closed(rows: nat, max_distance: nat)
    ensures
        rows <= max_distance ==> 2 * left_cut(rows, max_distance) == rows * (2 * max_distance + 1
            - rows),
        rows >= max_distance ==> 2 * left_cut(rows, max_distance) == max_distance * (max_distance
            + 1),
    decreases rows,
{
    if rows > 0 {
        lemma_left_cut_closed((rows - 1) as nat, max_distance);
        let r = rows as int;
        let k = max_distance as int;
        if rows <= max_distance {
            assert((r - 1) * (2 * k + 1 - (r - 1)) + 2 * (k + 1 - r) == r * (2 * k + 1 - r))
                by (nonlinear_arith);
        } else if rows == max_distance + 1 {
            assert((r - 1) * (2 * k + 1 - (r - 1)) == k * (k + 1)) by (nonlinear_arith)
                requires
                    r == k + 1,
            ;
        }
    } else {
        assert(0 * (2 * max_distance + 1 - 0) == 0) by (nonlinear_arith);
        if max_distance == 0 {
            assert(max_distance * (max_distance + 1) == 0) by (nonlinear_arith)
                requires
                    max_distance == 0,
            ;
        }
    }
}

proof fn lemma_right_cut_closed(rows: nat, columns: nat, max_distance: nat)
    requires
        max_distance <= columns,
        rows <= columns,
    ensures
        rows + max_distance <= columns ==> right_cut(rows, columns, max_distance) == 0,
        rows + max_distance >= columns ==> 2 * right_cut(rows, columns, max_distance) == (rows
            + max_distance - columns) * (rows + max_distance - columns + 1),
    decreases rows,
{
    if rows > 0 {
        lemma_right_cut_closed((rows - 1) as nat, columns, max_distance);
        let j = rows + max_distance - columns;
        if rows + max_distance > columns {
            assert((j - 1) * j + 2 * j == j * (j + 1)) by (nonlinear_arith);
        } else if j == 0 {
            assert(j * (j + 1) == 0) by (nonlinear_arith)
                requires
                    j == 0,
            ;
        }
    } else if max_distance == columns {
        assert(0int * (0 + 1) == 0) by (nonlinear_arith);
    }
}

/// The banded recurrence does linear work: for two texts of `n` characters
/// and a limit `k <= n`, it evaluates `n * (2k + 1) - k * (k + 1)` cells, and
/// that is what `calculate::<true>` reports for two different texts of that
/// length whenever the count fits in a `usize`.
pub proof fn law_band_work_is_linear(left: Seq<char>, right: Seq<char>, max_distance: usize)
    requires
        left.len() == right.len(),
        max_distance <= left.len(),
    ensures
        band_work(left.len(), left.len(), max_distance as nat) == left.len() * (2 * max_distance
            + 1) - max_distance * (max_distance + 1),
        left != right && left.len() * (2 * max_distance + 1) - max_distance * (max_distance + 1)
            <= usize::MAX ==> counted_work(left, right, max_distance) == left.len() * (2
            * max_distance + 1) - max_distance * (max_distance + 1),
{
    let n = left.len();
    let k = max_distance as nat;
    lemma_band_work_cuts(n, n, k);
    lemma_left_cut_closed(n, k);
    lemma_right_cut_closed(n, n, k);
    if left != right && n == 0 {
        assert(left =~= right);
    }
}

proof fn lemma_band_work_bounded(rows: nat, columns: nat, max_distance: nat)
    ensures
        band_work(rows, columns, max_distance) <= rows * (2 * max_distance + 1),
        band_work(rows, columns, max_distance) <= rows * columns,
    decreases rows,
{
    if rows > 0 {
        lemma_band_work_bounded((rows - 1) as nat, columns, max_distance);
        let r = rows as int;
        let k = max_distance as int;
        let c = columns as int;
        assert((r - 1) * (2 * k + 1) + (2 * k + 1) == r * (2 * k + 1)) by (nonlinear_arith);
        assert((r - 1) * c + c == r * c) by (nonlinear_arith);
    } else {
        assert(0 * (2 * max_distance + 1) == 0) by (nonlinear_arith);
        assert(0 * columns == 0) by (nonlinear_arith);
    }
}

/// Whatever the lengths of the texts, the banded recurrence evaluates at most
/// `2k + 1` cells for each character of the left text, and never more cells
/// than the full table holds: what `calculate::<true>` reports is at most
/// `left.len() * min(2k + 1, right.len())`.
pub proof fn law_band_work_is_bounded(left: Seq<char>, right: Seq<char>, max_distance: usize)
    ensures
        counted_work(left, right, max_distance) <= left.len() * (2 * max_distance + 1),
        counted_work(left, right, max_distance) <= left.len() * right.len(),
{
    lemma_band_work_bounded(left.len(), right.len(), max_distance as nat);
    assert(0 <= left.len() * (2 * max_distance + 1)) by (nonlinear_arith);
    assert(0 <= left.len() * right.len()) by (nonlinear_arith);
}

} // verus!
