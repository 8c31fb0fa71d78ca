//! Properties of the speaker exchanges.

use vstd::prelude::*;

use crate::dynamics::ConversationConceptUnit;
use crate::order::lemma_chars_less_irreflexive;
use crate::pairs::{
    exchange_pair, exchange_positions, groups_exchanges, is_exchange, pair_less, pair_of, positions_of,
    SpeakerPairTurns,
};

verus! {

proof fn lemma_exchange_positions_members(
    units: Seq<ConversationConceptUnit>,
    pair: (Seq<char>, Seq<char>),
    count: int,
    p: int,
)
    ensures
        exchange_positions(units, pair, count).contains(p) <==> (0 <= p < count && is_exchange(units, p)
            && exchange_pair(units, p) == pair),
    decreases count,
{
    if count > 0 {
        lemma_exchange_positions_members(units, pair, count - 1, p);
        let earlier = exchange_positions(units, pair, count - 1);
        if is_exchange(units, count - 1) && exchange_pair(units, count - 1) == pair {
            assert(earlier.push(count - 1).contains(p) <==> (earlier.contains(p) || p == count - 1)) by {
                if p == count - 1 {
                    assert(earlier.push(count - 1)[earlier.len() as int] == p);
                }
                if earlier.contains(p) {
                    let k = choose|k: int| 0 <= k < earlier.len() && #[trigger] earlier[k] == p;
                    assert(earlier.push(count - 1)[k] == p);
                }
                if earlier.push(count - 1).contains(p) && p != count - 1 {
                    let k = choose|k: int| 0 <= k < earlier.len() + 1 && #[trigger] earlier.push(count - 1)[k] == p;
                    assert(earlier[k] == p);
                }
            }
        }
    }
}

/// The exchanges are partitioned by the entries that group them: each
/// position an entry lists is an exchange between exactly the entry's two
/// speakers, and every exchange is listed by exactly one entry.
pub proof fn law_exchanges_are_partitioned(units: Seq<ConversationConceptUnit>, entries: Seq<SpeakerPairTurns>)
    requires
        groups_exchanges(units, entries, units.len() as int),
    ensures
        forall|i: int, p: int|
            0 <= i < entries.len() && #[trigger] positions_of(entries[i]).contains(p) ==> is_exchange(units, p)
                && exchange_pair(units, p) == pair_of(entries[i]),
        forall|p: int|
            #[trigger] is_exchange(units, p) ==> exists|i: int|
                0 <= i < entries.len() && #[trigger] positions_of(entries[i]).contains(p),
        forall|i: int, j: int, p: int|
            0 <= i < entries.len() && 0 <= j < entries.len() && #[trigger] positions_of(entries[i]).contains(p)
                && #[trigger] positions_of(entries[j]).contains(p) ==> i == j,
{
    let n = units.len() as int;
    assert forall|i: int, p: int|
        0 <= i < entries.len() && #[trigger] positions_of(entries[i]).contains(p) implies is_exchange(units, p)
        && exchange_pair(units, p) == pair_of(entries[i]) by {
        assert(positions_of(entries[i]) == exchange_positions(units, pair_of(entries[i]), n));
        lemma_exchange_positions_members(units, pair_of(entries[i]), n, p);
    }
    assert forall|p: int| #[trigger] is_exchange(units, p) implies exists|i: int|
        0 <= i < entries.len() && #[trigger] positions_of(entries[i]).contains(p) by {
        assert(0 <= p < n);
        let i = choose|i: int| 0 <= i < entries.len() && pair_of(#[trigger] entries[i]) == exchange_pair(units, p);
        assert(positions_of(entries[i]) == exchange_positions(units, pair_of(entries[i]), n));
        lemma_exchange_positions_members(units, pair_of(entries[i]), n, p);
    }
    assert forall|i: int, j: int, p: int|
        0 <= i < entries.len() && 0 <= j < entries.len() && #[trigger] positions_of(entries[i]).contains(p)
            && #[trigger] positions_of(entries[j]).contains(p) implies i == j by {
        assert(positions_of(entries[i]) == exchange_positions(units, pair_of(entries[i]), n));
        assert(positions_of(entries[j]) == exchange_positions(units, pair_of(entries[j]), n));
        lemma_exchange_positions_members(units, pair_of(entries[i]), n, p);
        lemma_exchange_positions_members(units, pair_of(entries[j]), n, p);
        if i != j {
            let key = pair_of(entries[i]);
            lemma_chars_less_irreflexive(key.0);
            lemma_chars_less_irreflexive(key.1);
            if i < j {
                assert(pair_less(pair_of(entries[i]), pair_of(entries[j])));
            } else {
                assert(pair_less(pair_of(entries[j]), pair_of(entries[i])));
            }
        }
    }
}

} // verus!
