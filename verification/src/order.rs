//! Lexicographic order on text by Unicode scalar value, and sorted string sets.
//!
//! Comparing scalar values one by one orders strings as `str`'s `Ord` does,
//! since UTF-8 preserves the order of scalar values.

use vstd::prelude::*;

use crate::chars::collect_chars;

verus! {

/// `a` sorts strictly before `b`, comparing scalar values from the left.
pub open spec fn chars_less(a: Seq<char>, b: Seq<char>) -> bool
    decreases a.len(),
{
    if a.len() == 0 {
        b.len() > 0
    } else if b.len() == 0 {
        false
    } else if a[0] != b[0] {
        (a[0] as u32) < (b[0] as u32)
    } else {
        chars_less(a.drop_first(), b.drop_first())
    }
}

/// Every element sorts strictly before every later one.
pub open spec fn strictly_sorted(values: Seq<Seq<char>>) -> bool {
    forall|i: int, j: int|
        #![trigger values[i], values[j]]
        0 <= i < j < values.len() ==> chars_less(values[i], values[j])
}

/// The character views of a list of strings.
pub open spec fn views_of(strings: Seq<String>) -> Seq<Seq<char>> {
    strings.map_values(|s: String| s@)
}

/// Nothing sorts before itself.
pub proof fn lemma_chars_less_irreflexive(a: Seq<char>)
    ensures
        !chars_less(a, a),
    decreases a.len(),
{
    if a.len() > 0 {
        lemma_chars_less_irreflexive(a.drop_first());
    }
}

/// Two different texts are ordered one way or the other.
pub proof fn lemma_chars_less_total(a: Seq<char>, b: Seq<char>)
    ensures
        a == b || chars_less(a, b) || chars_less(b, a),
    decreases a.len(),
{
    if a.len() > 0 && b.len() > 0 && a[0] == b[0] {
        lemma_chars_less_total(a.drop_first(), b.drop_first());
        if a.drop_first() == b.drop_first() {
            assert(a =~= seq![a[0]] + a.drop_first());
            assert(b =~= seq![b[0]] + b.drop_first());
        }
    } else if a.len() == 0 && b.len() == 0 {
        assert(a =~= b);
    } else if a.len() > 0 && b.len() > 0 {
        vstd::utf8::char_u32_cast(a[0], a[0] as u32);
        vstd::utf8::char_u32_cast(b[0], b[0] as u32);
    }
}

/// The order is asymmetric.
pub proof fn lemma_chars_less_asymmetric(a: Seq<char>, b: Seq<char>)
    ensures
        !(chars_less(a, b) && chars_less(b, a)),
    decreases a.len(),
{
    if a.len() > 0 && b.len() > 0 && a[0] == b[0] {
        lemma_chars_less_asymmetric(a.drop_first(), b.drop_first());
    }
}

/// The order is transitive.
pub proof fn lemma_chars_less_transitive(a: Seq<char>, b: Seq<char>, c: Seq<char>)
    requires
        chars_less(a, b),
        chars_less(b, c),
    ensures
        chars_less(a, c),
    decreases a.len(),
{
    if a.len() > 0 && b.len() > 0 && c.len() > 0 && a[0] == b[0] && b[0] == c[0] {
        lemma_chars_less_transitive(a.drop_first(), b.drop_first(), c.drop_first());
    }
}

/// Whether `a` sorts strictly before `b`.
pub fn str_less(a: &str, b: &str) -> (less: bool)
    ensures
        less == chars_less(a@, b@),
{
    let a = collect_chars(a);
    let b = collect_chars(b);
    let mut index: usize = 0;
    proof {
        assert(a@.skip(0) =~= a@);
        assert(b@.skip(0) =~= b@);
    }
    while index < a.len() && index < b.len() && a[index] == b[index]
        invariant
            index <= a@.len(),
            index <= b@.len(),
            chars_less(a@, b@) == chars_less(a@.skip(index as int), b@.skip(index as int)),
        decreases a@.len() - index,
    {
        proof {
            assert(a@.skip(index as int).drop_first() =~= a@.skip(index as int + 1));
            assert(b@.skip(index as int).drop_first() =~= b@.skip(index as int + 1));
        }
        index = index + 1;
    }
    if index == a.len() {
        index < b.len()
    } else if index == b.len() {
        false
    } else {
        (a[index] as u32) < (b[index] as u32)
    }
}

/// Inserts `item` into a strictly sorted list of strings, unless it is already there.
pub fn insert_sorted(list: &mut Vec<String>, item: String)
    requires
        strictly_sorted(views_of(old(list)@)),
    ensures
        strictly_sorted(views_of(final(list)@)),
        final(list)@.len() == old(list)@.len() + if views_of(old(list)@).contains(item@) {
            0int
        } else {
            1int
        },
        forall|x: Seq<char>|
            #![trigger views_of(final(list)@).contains(x)]
            views_of(final(list)@).contains(x) <==> views_of(old(list)@).contains(x) || x
                == item@,
{
    let ghost before = views_of(list@);
    let mut position: usize = 0;
    while position < list.len() && str_less(list[position].as_str(), item.as_str())
        invariant
            list@ == old(list)@,
            before == views_of(list@),
            position <= list@.len(),
            forall|i: int| 0 <= i < position ==> #[trigger] chars_less(before[i], item@),
        decreases list@.len() - position,
    {
        position = position + 1;
    }
    if position < list.len() && !str_less(item.as_str(), list[position].as_str()) {
        proof {
            lemma_chars_less_total(before[position as int], item@);
            assert(before[position as int] == item@);
            assert forall|x: Seq<char>|
                #![trigger views_of(list@).contains(x)]
                views_of(list@).contains(x) <==> before.contains(x) || x == item@ by {
                if x == item@ {
                    assert(before[position as int] == x);
                }
            }
        }
        return;
    }
    let ghost item_view = item@;
    proof {
        if before.contains(item_view) {
            let k = choose|k: int| 0 <= k < before.len() && before[k] == item_view;
            if k < position {
                assert(chars_less(before[k], item_view));
                lemma_chars_less_irreflexive(item_view);
            } else {
                assert(position < before.len());
                lemma_chars_less_total(before[position as int], item_view);
                assert(chars_less(item_view, before[position as int]));
                if k > position {
                    assert(chars_less(before[position as int], before[k]));
                    lemma_chars_less_transitive(item_view, before[position as int], before[k]);
                }
                lemma_chars_less_irreflexive(item_view);
            }
        }
    }
    list.insert(position, item);
    proof {
        let after = views_of(list@);
        assert(after =~= before.insert(position as int, item_view));
        assert forall|i: int, j: int|
            #![trigger after[i], after[j]]
            0 <= i < j < after.len() implies chars_less(after[i], after[j]) by {
            if j < position {
            } else if j == position {
                assert(chars_less(before[i], item_view));
            } else if i == position {
                if position < before.len() {
                    assert(!chars_less(before[position as int], item_view));
                    lemma_chars_less_total(before[position as int], item_view);
                    assert(before[position as int] != item_view);
                    if j - 1 > position {
                        assert(chars_less(before[position as int], before[j - 1]));
                        lemma_chars_less_transitive(
                            item_view,
                            before[position as int],
                            before[j - 1],
                        );
                    }
                }
            } else if i < position {
                assert(chars_less(before[i], before[j - 1]));
            } else {
                assert(chars_less(before[i - 1], before[j - 1]));
            }
        }
        assert forall|x: Seq<char>|
            #![trigger views_of(list@).contains(x)]
            views_of(list@).contains(x) <==> before.contains(x) || x == item_view by {
            if before.contains(x) {
                let k = choose|k: int| 0 <= k < before.len() && before[k] == x;
                if k < position {
                    assert(after[k] == x);
                } else {
                    assert(after[k + 1] == x);
                }
            }
            if after.contains(x) {
                let k = choose|k: int| 0 <= k < after.len() && after[k] == x;
                if k < position {
                    assert(before[k] == x);
                } else if k > position {
                    assert(before[k - 1] == x);
                }
            }
            if x == item_view {
                assert(after[position as int] == x);
            }
        }
    }
}

/// Strictly sorted texts are pairwise distinct.
pub proof fn lemma_strictly_sorted_distinct(values: Seq<Seq<char>>)
    requires
        strictly_sorted(values),
    ensures
        values.no_duplicates(),
{
    assert forall|i: int, j: int| 0 <= i < values.len() && 0 <= j < values.len() && i != j implies values[i]
        != values[j] by {
        if i < j {
            assert(chars_less(values[i], values[j]));
            lemma_chars_less_irreflexive(values[i]);
        } else {
            assert(chars_less(values[j], values[i]));
            lemma_chars_less_irreflexive(values[j]);
        }
    }
}

} // verus!
