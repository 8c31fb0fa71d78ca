//! Thresholded optimal-string-alignment distance over Unicode scalar values.
//!
//! The metric is optimal string alignment (OSA): insertions, deletions,
//! substitutions and transpositions of two adjacent characters, where a
//! transposed pair is not edited again. It is not unrestricted
//! Damerau-Levenshtein. Only cells within `max_distance` of the diagonal can
//! take part in an accepted alignment, so only that band is evaluated; three
//! row buffers are allocated once and rotated.

use vstd::prelude::*;

use crate::chars::{collect_chars, same_chars};

verus! {

/// OSA distance between the first `i` characters of `left` and the first `j` of `right`.
#[verifier::opaque]
pub open spec fn osa_prefix_distance(left: Seq<char>, right: Seq<char>, i: nat, j: nat) -> nat
    decreases i, j,
{
    if i == 0 {
        j
    } else if j == 0 {
        i
    } else {
        let cost: nat = if left[i - 1] == right[j - 1] {
            0
        } else {
            1
        };
        let deletion = osa_prefix_distance(left, right, (i - 1) as nat, j) + 1;
        let insertion = osa_prefix_distance(left, right, i, (j - 1) as nat) + 1;
        let substitution = osa_prefix_distance(left, right, (i - 1) as nat, (j - 1) as nat) + cost;
        let best = min_nat(min_nat(deletion, insertion), substitution);
        if i > 1 && j > 1 && left[i - 1] == right[j - 2] && left[i - 2] == right[j - 1] {
            min_nat(best, osa_prefix_distance(left, right, (i - 2) as nat, (j - 2) as nat) + 1)
        } else {
            best
        }
    }
}

/// The smaller of two natural numbers.
pub open spec fn min_nat(a: nat, b: nat) -> nat {
    if a <= b {
        a
    } else {
        b
    }
}

/// OSA distance between two character sequences.
pub open spec fn osa_distance(left: Seq<char>, right: Seq<char>) -> nat {
    osa_prefix_distance(left, right, left.len(), right.len())
}

/// The distance when it is at most `max_distance`, otherwise `None`.
pub open spec fn bounded_osa(left: Seq<char>, right: Seq<char>, max_distance: usize) -> Option<
    usize,
> {
    if osa_distance(left, right) <= max_distance {
        Some(osa_distance(left, right) as usize)
    } else {
        None
    }
}

/// First column of row `row` inside the band.
pub open spec fn band_first(row: int, max_distance: int) -> int {
    if row - max_distance > 1 {
        row - max_distance
    } else {
        1
    }
}

/// Last column of row `row` inside the band.
pub open spec fn band_last(row: int, max_distance: int, columns: int) -> int {
    if row + max_distance < columns {
        row + max_distance
    } else {
        columns
    }
}

/// Number of recurrence evaluations for rows `1..=rows` of the banded table.
pub open spec fn band_work(rows: nat, columns: nat, max_distance: nat) -> nat
    decreases rows,
{
    if rows == 0 {
        0
    } else {
        let width = band_last(rows as int, max_distance as int, columns as int) - band_first(
            rows as int,
            max_distance as int,
        ) + 1;
        band_work((rows - 1) as nat, columns, max_distance) + (if width > 0 {
            width as nat
        } else {
            0
        })
    }
}

/// Recurrence evaluations reported by [`calculate`] when it counts them.
pub open spec fn counted_work(left: Seq<char>, right: Seq<char>, max_distance: usize) -> nat {
    let n = left.len();
    let m = right.len();
    if left == right || n - m > max_distance || m - n > max_distance || n == 0 || m == 0 {
        0
    } else {
        let work = band_work(n, m, max_distance as nat);
        if work <= usize::MAX {
            work
        } else {
            usize::MAX as nat
        }
    }
}

/// A distance value limited to `outside`, the value that stands for "too far".
pub open spec fn capped(value: nat, outside: int) -> int {
    if value < outside {
        value as int
    } else {
        outside
    }
}

/// Columns of row `row` whose stored value is exact (capped).
pub open spec fn in_window(row: int, column: int, max_distance: int, columns: int) -> bool {
    0 <= column <= columns && (column == 0 || (row - max_distance - 1 <= column && column <= row
        + max_distance + 1))
}

/// `values` holds the capped distances of row `row` at every column of its window.
pub open spec fn row_holds(
    values: Seq<usize>,
    left: Seq<char>,
    right: Seq<char>,
    row: nat,
    max_distance: int,
    outside: int,
) -> bool {
    &&& values.len() == right.len() + 1
    &&& forall|column: int|
        #![trigger values[column]]
        in_window(row as int, column, max_distance, right.len() as int) ==> values[column]
            == capped(osa_prefix_distance(left, right, row, column as nat), outside)
}

/// No alignment of prefixes is cheaper than the difference of their lengths.
pub proof fn lemma_osa_length_gap(left: Seq<char>, right: Seq<char>, i: nat, j: nat)
    ensures
        osa_prefix_distance(left, right, i, j) >= i - j,
        osa_prefix_distance(left, right, i, j) >= j - i,
    decreases i, j,
{
    reveal(osa_prefix_distance);
    if i > 0 && j > 0 {
        lemma_osa_length_gap(left, right, (i - 1) as nat, j);
        lemma_osa_length_gap(left, right, i, (j - 1) as nat);
        lemma_osa_length_gap(left, right, (i - 1) as nat, (j - 1) as nat);
        if i > 1 && j > 1 {
            lemma_osa_length_gap(left, right, (i - 2) as nat, (j - 2) as nat);
        }
    }
}

/// No prefix distance exceeds the longer prefix length.
pub proof fn lemma_osa_at_most_longer(left: Seq<char>, right: Seq<char>, i: nat, j: nat)
    ensures
        osa_prefix_distance(left, right, i, j) <= if i >= j {
            i
        } else {
            j
        },
    decreases i, j,
{
    reveal(osa_prefix_distance);
    if i > 0 && j > 0 {
        lemma_osa_at_most_longer(left, right, (i - 1) as nat, (j - 1) as nat);
    }
}

/// Against an empty prefix, the distance is the other prefix's length.
pub proof fn lemma_osa_border(left: Seq<char>, right: Seq<char>, i: nat, j: nat)
    ensures
        osa_prefix_distance(left, right, 0, j) == j,
        osa_prefix_distance(left, right, i, 0) == i,
{
    reveal(osa_prefix_distance);
}

/// Equal prefixes of equal sequences are at distance zero.
pub proof fn lemma_osa_identical(text: Seq<char>, i: nat)
    requires
        i <= text.len(),
    ensures
        osa_prefix_distance(text, text, i, i) == 0,
    decreases i,
{
    reveal(osa_prefix_distance);
    if i > 0 {
        lemma_osa_identical(text, (i - 1) as nat);
    }
}

pub fn saturating_increment(value: usize, amount: usize) -> (result: usize)
    ensures
        result == if value + amount <= usize::MAX {
            value + amount
        } else {
            usize::MAX as int
        },
{
    value.saturating_add(amount)
}

pub fn smaller(a: usize, b: usize) -> (result: usize)
    ensures
        result == if a <= b {
            a
        } else {
            b
        },
{
    if a <= b {
        a
    } else {
        b
    }
}

/// `value + amount`, saturating at `usize::MAX`.
pub open spec fn saturated(value: int, amount: int) -> int {
    if value + amount <= usize::MAX {
        value + amount
    } else {
        usize::MAX as int
    }
}

/// The smaller of two integers.
pub open spec fn smaller_int(a: int, b: int) -> int {
    if a <= b {
        a
    } else {
        b
    }
}

/// One banded recurrence step over capped neighbours, as the code evaluates it.
pub open spec fn band_step(
    up: int,
    before: int,
    diagonal: int,
    far: int,
    cost: int,
    transposed: bool,
    outside: int,
) -> int {
    let best = smaller_int(
        smaller_int(saturated(up, 1), saturated(before, 1)),
        saturated(diagonal, cost),
    );
    let with_transposition = if transposed {
        smaller_int(best, saturated(far, 1))
    } else {
        best
    };
    smaller_int(with_transposition, outside)
}

fn band_step_exec(
    up: usize,
    before: usize,
    diagonal: usize,
    far: usize,
    cost: usize,
    transposed: bool,
    outside: usize,
) -> (stored: usize)
    ensures
        stored == band_step(up as int, before as int, diagonal as int, far as int, cost as int, transposed, outside as int),
{
    let mut distance = smaller(
        smaller(saturating_increment(up, 1), saturating_increment(before, 1)),
        saturating_increment(diagonal, cost),
    );
    if transposed {
        distance = smaller(distance, saturating_increment(far, 1));
    }
    smaller(distance, outside)
}

/// One capped step of the recurrence equals the capped exact value.
proof fn lemma_capped_step(
    exact: nat,
    deletion: nat,
    insertion: nat,
    substitution: nat,
    cost: nat,
    transposed: bool,
    transposition: nat,
    up: int,
    before: int,
    diagonal: int,
    far: int,
    outside: int,
)
    requires
        1 <= outside <= usize::MAX,
        cost <= 1,
        up == capped(deletion, outside),
        before == capped(insertion, outside),
        diagonal == capped(substitution, outside),
        transposed ==> far == capped(transposition, outside),
        exact == ({
            let best = min_nat(min_nat(deletion + 1, insertion + 1), substitution + cost);
            if transposed {
                min_nat(best, transposition + 1)
            } else {
                best
            }
        }),
    ensures
        band_step(up, before, diagonal, far, cost as int, transposed, outside) == capped(
            exact,
            outside,
        ),
{
}

/// A cell inside the band is computed exactly from the rows above it.
proof fn lemma_band_cell(
    l: Seq<char>,
    r: Seq<char>,
    previous: Seq<usize>,
    previous_previous: Seq<usize>,
    before: int,
    row: nat,
    column: nat,
    kk: int,
    outside: int,
    far: int,
    cost: nat,
    transposed: bool,
)
    requires
        1 <= row <= l.len(),
        band_first(row as int, kk) <= column <= band_last(row as int, kk, r.len() as int),
        kk >= 0,
        outside == if kk + 1 <= usize::MAX {
            kk + 1
        } else {
            usize::MAX as int
        },
        row_holds(previous, l, r, (row - 1) as nat, kk, outside),
        row >= 2 ==> row_holds(previous_previous, l, r, (row - 2) as nat, kk, outside),
        before == capped(osa_prefix_distance(l, r, row, (column - 1) as nat), outside),
        transposed == (row > 1 && column > 1 && l[row - 1] == r[column - 2] && l[row - 2] == r[
            column - 1]),
        transposed ==> far == previous_previous[column - 2],
        cost == if l[row - 1] == r[column - 1] {
            0nat
        } else {
            1nat
        },
    ensures
        band_step(
            previous[column as int] as int,
            before,
            previous[column - 1] as int,
            far,
            cost as int,
            transposed,
            outside,
        ) == capped(osa_prefix_distance(l, r, row, column), outside),
{
    reveal(osa_prefix_distance);
    let i = row;
    let j = column;
    assert(in_window(row - 1, column as int, kk, r.len() as int));
    assert(in_window(row - 1, column - 1, kk, r.len() as int));
    if transposed {
        assert(in_window(row - 2, column - 2, kk, r.len() as int));
    }
    let transposition = if i > 1 && j > 1 {
        osa_prefix_distance(l, r, (i - 2) as nat, (j - 2) as nat)
    } else {
        0
    };
    lemma_capped_step(
        osa_prefix_distance(l, r, i, j),
        osa_prefix_distance(l, r, (i - 1) as nat, j),
        osa_prefix_distance(l, r, i, (j - 1) as nat),
        osa_prefix_distance(l, r, (i - 1) as nat, (j - 1) as nat),
        cost,
        transposed,
        transposition,
        previous[column as int] as int,
        before,
        previous[column - 1] as int,
        far,
        outside,
    );
}

/// A row whose band and band edges hold exact values satisfies [`row_holds`].
proof fn lemma_row_complete(
    current: Seq<usize>,
    l: Seq<char>,
    r: Seq<char>,
    row: nat,
    kk: int,
    outside: int,
    first: int,
    last: int,
)
    requires
        current.len() == r.len() + 1,
        first == band_first(row as int, kk),
        last == band_last(row as int, kk, r.len() as int),
        forall|c: int|
            #![trigger current[c]]
            (c == 0 || (first > 1 && c == first - 1) || (last < r.len() && c == last + 1) || (first
                <= c < last + 1)) ==> current[c] == capped(
                osa_prefix_distance(l, r, row, c as nat),
                outside,
            ),
    ensures
        row_holds(current, l, r, row, kk, outside),
{
    assert forall|c: int|
        #![trigger current[c]]
        in_window(row as int, c, kk, r.len() as int) implies current[c] == capped(
        osa_prefix_distance(l, r, row, c as nat),
        outside,
    ) by {
        assert(c == 0 || (first > 1 && c == first - 1) || (last < r.len() && c == last + 1) || (
        first <= c < last + 1));
    }
}

/// Builds a row of `columns + 1` entries, entry `c` being `min(c, outside)`.
fn initial_row(columns: usize, outside: usize) -> (row: Vec<usize>)
    ensures
        row@.len() == columns + 1,
        forall|c: int| 0 <= c <= columns ==> #[trigger] row@[c] == if c < outside {
            c
        } else {
            outside as int
        },
{
    let mut row: Vec<usize> = Vec::new();
    row.push(0);
    let mut column: usize = 0;
    while column < columns
        invariant
            column <= columns,
            row@.len() == column + 1,
            forall|c: int| 0 <= c <= column ==> #[trigger] row@[c] == if c < outside {
                c
            } else {
                outside as int
            },
        decreases columns - column,
    {
        column = column + 1;
        row.push(smaller(column, outside));
    }
    row
}

/// Builds a row of `columns + 1` entries, all equal to `value`.
fn constant_row(columns: usize, value: usize) -> (row: Vec<usize>)
    ensures
        row@.len() == columns + 1,
        forall|c: int| 0 <= c <= columns ==> #[trigger] row@[c] == value,
{
    let mut row: Vec<usize> = Vec::new();
    row.push(value);
    let mut column: usize = 0;
    while column < columns
        invariant
            column <= columns,
            row@.len() == column + 1,
            forall|c: int| 0 <= c <= column ==> #[trigger] row@[c] == value,
        decreases columns - column,
    {
        column = column + 1;
        row.push(value);
    }
    row
}

/// Returns the OSA distance between `left` and `right` when it is at most
/// `max_distance`, and `None` otherwise.
pub fn bounded_damerau_levenshtein(left: &str, right: &str, max_distance: usize) -> (result:
    Option<usize>)
    ensures
        result == bounded_osa(left@, right@, max_distance),
{
    calculate::<false>(left, right, max_distance).0
}

/// The thresholded distance, and the number of recurrence evaluations when
/// `COUNT_CELLS` is set (zero otherwise).
#[verifier::rlimit(40)]
pub fn calculate<const COUNT_CELLS: bool>(left: &str, right: &str, max_distance: usize) -> (result:
    (Option<usize>, usize))
    ensures
        result.0 == bounded_osa(left@, right@, max_distance),
        result.1 == if COUNT_CELLS {
            counted_work(left@, right@, max_distance)
        } else {
            0
        },
{
    let left = collect_chars(left);
    let right = collect_chars(right);
    let ghost l = left@;
    let ghost r = right@;
    let n = left.len();
    let m = right.len();
    if same_chars(&left, &right) {
        proof {
            lemma_osa_identical(l, l.len());
        }
        return (Some(0), 0);
    }
    let gap = if n >= m {
        n - m
    } else {
        m - n
    };
    if gap > max_distance {
        proof {
            lemma_osa_length_gap(l, r, n as nat, m as nat);
        }
        return (None, 0);
    }
    if n == 0 || m == 0 {
        proof {
            lemma_osa_at_most_longer(l, r, n as nat, m as nat);
            lemma_osa_length_gap(l, r, n as nat, m as nat);
        }
        return (Some(if n >= m {
            n
        } else {
            m
        }), 0);
    }
    let k = max_distance;
    let outside = saturating_increment(max_distance, 1);
    let ghost kk = k as int;
    let ghost out = outside as int;
    let mut previous_previous = constant_row(m, outside);
    let mut previous = initial_row(m, outside);
    let mut current = constant_row(m, outside);
    let width = previous.len();
    assert(width == m + 1);
    let mut cells: usize = 0;
    let mut done: usize = 0;
    proof {
        assert forall|column: int|
            #![trigger previous@[column]]
            in_window(0, column, kk, m as int) implies previous@[column] == capped(
            osa_prefix_distance(l, r, 0, column as nat),
            out,
        ) by {
            lemma_osa_border(l, r, 0, column as nat);
        }
    }
    while done < n
        invariant
            l == left@,
            r == right@,
            n == l.len(),
            m == r.len(),
            n >= 1,
            m >= 1,
            m + 1 <= usize::MAX,
            n - m <= kk,
            m - n <= kk,
            kk == k,
            out == outside,
            out == if k + 1 <= usize::MAX {
                k + 1
            } else {
                usize::MAX as int
            },
            done <= n,
            current@.len() == m + 1,
            previous_previous@.len() == m + 1,
            row_holds(previous@, l, r, done as nat, kk, out),
            done >= 1 ==> row_holds(previous_previous@, l, r, (done - 1) as nat, kk, out),
            cells == if COUNT_CELLS {
                let work = band_work(done as nat, m as nat, k as nat);
                if work <= usize::MAX {
                    work as int
                } else {
                    usize::MAX as int
                }
            } else {
                0
            },
        decreases n - done,
    {
        let row = done + 1;
        let first = if row > k && row - k > 1 {
            row - k
        } else {
            1
        };
        let last = if k < m && row < m - k {
            row + k
        } else {
            m
        };
        assert(first == band_first(row as int, kk));
        assert(last == band_last(row as int, kk, m as int));
        assert(first <= last);
        current.set(0, smaller(row, outside));
        proof {
            lemma_osa_border(l, r, row as nat, 0);
        }
        if first > 1 {
            current.set(first - 1, outside);
            proof {
                lemma_osa_length_gap(l, r, row as nat, (first - 1) as nat);
            }
        }
        if last < m {
            current.set(last + 1, outside);
            proof {
                lemma_osa_length_gap(l, r, row as nat, (last + 1) as nat);
            }
        }
        let ghost cells_before = cells;
        let mut column = first;
        while column <= last
            invariant
                l == left@,
                r == right@,
                n == l.len(),
                m == r.len(),
                1 <= row <= n,
                row == done + 1,
                m + 1 <= usize::MAX,
                kk == k,
                out == outside,
                out == if k + 1 <= usize::MAX {
                    k + 1
                } else {
                    usize::MAX as int
                },
                first == band_first(row as int, kk),
                last == band_last(row as int, kk, m as int),
                1 <= first <= column <= last + 1,
                last <= m,
                current@.len() == m + 1,
                row_holds(previous@, l, r, done as nat, kk, out),
                done >= 1 ==> row_holds(previous_previous@, l, r, (done - 1) as nat, kk, out),
                forall|c: int|
                    #![trigger current@[c]]
                    (c == 0 || (first > 1 && c == first - 1) || (last < m && c == last + 1) || (
                    first <= c < column)) ==> current@[c] == capped(
                        osa_prefix_distance(l, r, row as nat, c as nat),
                        out,
                    ),
                cells == if COUNT_CELLS {
                    let work = cells_before + (column - first);
                    if work <= usize::MAX {
                        work
                    } else {
                        usize::MAX as int
                    }
                } else {
                    0
                },
                cells_before == if COUNT_CELLS {
                    let work = band_work(done as nat, m as nat, k as nat);
                    if work <= usize::MAX {
                        work as int
                    } else {
                        usize::MAX as int
                    }
                } else {
                    0
                },
            decreases last + 1 - column,
        {
            if COUNT_CELLS {
                cells = saturating_increment(cells, 1);
            }
            let cost: usize = if left[row - 1] != right[column - 1] {
                1
            } else {
                0
            };
            let transposed = row > 1 && column > 1 && left[row - 1] == right[column - 2]
                && left[row - 2] == right[column - 1];
            let far = if transposed {
                previous_previous[column - 2]
            } else {
                0
            };
            let stored = band_step_exec(
                previous[column],
                current[column - 1],
                previous[column - 1],
                far,
                cost,
                transposed,
                outside,
            );
            proof {
                lemma_band_cell(
                    l,
                    r,
                    previous@,
                    previous_previous@,
                    current@[column - 1] as int,
                    row as nat,
                    column as nat,
                    kk,
                    out,
                    far as int,
                    cost as nat,
                    transposed,
                );
            }
            current.set(column, stored);
            column = column + 1;
        }
        proof {
            lemma_row_complete(current@, l, r, row as nat, kk, out, first as int, last as int);
            assert(band_work(row as nat, m as nat, k as nat) == band_work(
                done as nat,
                m as nat,
                k as nat,
            ) + (last - first + 1));
        }
        std::mem::swap(&mut previous_previous, &mut previous);
        std::mem::swap(&mut previous, &mut current);
        done = row;
    }
    let distance = previous[m];
    proof {
        assert(in_window(n as int, m as int, kk, m as int));
        lemma_osa_at_most_longer(l, r, n as nat, m as nat);
    }
    if distance <= max_distance {
        (Some(distance), cells)
    } else {
        (None, cells)
    }
}

} // verus!
