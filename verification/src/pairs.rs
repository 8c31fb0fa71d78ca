//! The exchanges of a conversation: adjacent primary units spoken by two
//! different known speakers, grouped by the pair of speakers.

use vstd::prelude::*;
use vstd::string::StringExecFns;

use crate::chars::same_text;
use crate::dynamics::ConversationConceptUnit;
use crate::order::{
    chars_less, lemma_chars_less_irreflexive, lemma_chars_less_total,
    lemma_chars_less_transitive, str_less,
};

verus! {

/// The exchanges between two speakers. Each position `p` stands for the
/// adjacent units `p` and `p + 1`.
#[derive(Debug, Clone, PartialEq, Eq)]
pub struct SpeakerPairTurns {
    pub left_speaker: String,
    pub right_speaker: String,
    pub positions: Vec<usize>,
}

/// Whether the units at `p` and `p + 1` have two different known speakers.
pub open spec fn is_exchange(units: Seq<ConversationConceptUnit>, p: int) -> bool {
    &&& 0 <= p
    &&& p + 1 < units.len()
    &&& units[p].speaker is Some
    &&& units[p + 1].speaker is Some
    &&& units[p].speaker->0@ != units[p + 1].speaker->0@
}

/// Two speakers in ascending order.
pub open spec fn ordered_pair(a: Seq<char>, b: Seq<char>) -> (Seq<char>, Seq<char>) {
    if chars_less(b, a) {
        (b, a)
    } else {
        (a, b)
    }
}

/// The speakers of the exchange at `p`, in ascending order.
pub open spec fn exchange_pair(units: Seq<ConversationConceptUnit>, p: int) -> (Seq<char>, Seq<char>) {
    ordered_pair(units[p].speaker->0@, units[p + 1].speaker->0@)
}

/// Pairs of speakers in ascending order of the first, then of the second.
pub open spec fn pair_less(x: (Seq<char>, Seq<char>), y: (Seq<char>, Seq<char>)) -> bool {
    chars_less(x.0, y.0) || (x.0 == y.0 && chars_less(x.1, y.1))
}

/// The positions, below `count` and in ascending order, of the exchanges
/// between the speakers of `pair`.
pub open spec fn exchange_positions(
    units: Seq<ConversationConceptUnit>,
    pair: (Seq<char>, Seq<char>),
    count: int,
) -> Seq<int>
    decreases count,
{
    if count <= 0 {
        Seq::empty()
    } else {
        let earlier = exchange_positions(units, pair, count - 1);
        if is_exchange(units, count - 1) && exchange_pair(units, count - 1) == pair {
            earlier.push(count - 1)
        } else {
            earlier
        }
    }
}

/// The pair of speakers of an entry.
pub open spec fn pair_of(entry: SpeakerPairTurns) -> (Seq<char>, Seq<char>) {
    (entry.left_speaker@, entry.right_speaker@)
}

/// The positions of an entry.
pub open spec fn positions_of(entry: SpeakerPairTurns) -> Seq<int> {
    entry.positions@.map_values(|p: usize| p as int)
}

/// `entries` groups the exchanges below `count`: one entry per pair of
/// speakers that exchanged, in ascending order of the pair, each with the
/// positions of the pair's exchanges.
pub open spec fn groups_exchanges(
    units: Seq<ConversationConceptUnit>,
    entries: Seq<SpeakerPairTurns>,
    count: int,
) -> bool {
    &&& forall|i: int, j: int|
        #![trigger entries[i], entries[j]]
        0 <= i < j < entries.len() ==> pair_less(pair_of(entries[i]), pair_of(entries[j]))
    &&& forall|i: int|
        0 <= i < entries.len() ==> positions_of(#[trigger] entries[i]) == exchange_positions(
            units,
            pair_of(entries[i]),
            count,
        ) && entries[i].positions@.len() > 0
    &&& forall|p: int|
        0 <= p < count && #[trigger] is_exchange(units, p) ==> exists|i: int|
            0 <= i < entries.len() && pair_of(#[trigger] entries[i]) == exchange_pair(units, p)
}

proof fn lemma_pair_less_transitive(
    x: (Seq<char>, Seq<char>),
    y: (Seq<char>, Seq<char>),
    z: (Seq<char>, Seq<char>),
)
    requires
        pair_less(x, y),
        pair_less(y, z),
    ensures
        pair_less(x, z),
{
    if chars_less(x.0, y.0) && chars_less(y.0, z.0) {
        lemma_chars_less_transitive(x.0, y.0, z.0);
    } else if chars_less(x.1, y.1) && chars_less(y.1, z.1) {
        lemma_chars_less_transitive(x.1, y.1, z.1);
    }
}

proof fn lemma_pair_less_total(x: (Seq<char>, Seq<char>), y: (Seq<char>, Seq<char>))
    ensures
        x == y || pair_less(x, y) || pair_less(y, x),
{
    lemma_chars_less_total(x.0, y.0);
    lemma_chars_less_total(x.1, y.1);
}

proof fn lemma_pair_less_irreflexive(x: (Seq<char>, Seq<char>))
    ensures
        !pair_less(x, x),
{
    lemma_chars_less_irreflexive(x.0);
    lemma_chars_less_irreflexive(x.1);
}

/// A pair with no exchange below `count` has no positions there.
proof fn lemma_no_exchange_no_positions(
    units: Seq<ConversationConceptUnit>,
    pair: (Seq<char>, Seq<char>),
    count: int,
)
    requires
        forall|p: int| 0 <= p < count && is_exchange(units, p) ==> exchange_pair(units, p) != pair,
    ensures
        exchange_positions(units, pair, count) == Seq::<int>::empty(),
    decreases count,
{
    if count > 0 {
        lemma_no_exchange_no_positions(units, pair, count - 1);
    }
}

/// Whether the pair of `entry` sorts before (`left`, `right`).
fn entry_before(entry: &SpeakerPairTurns, left: &str, right: &str) -> (before: bool)
    ensures
        before == pair_less(pair_of(*entry), (left@, right@)),
{
    if str_less(entry.left_speaker.as_str(), left) {
        true
    } else if same_text(entry.left_speaker.as_str(), left) {
        str_less(entry.right_speaker.as_str(), right)
    } else {
        false
    }
}

/// The exchanges of a conversation, given its primary units in order: for
/// each pair of speakers that spoke two adjacent units (`p` and `p + 1`),
/// in ascending order of the pair (its two speakers themselves in ascending
/// order), the positions `p` of those exchanges in ascending order.
pub fn speaker_exchanges(units: &[ConversationConceptUnit]) -> (entries: Vec<SpeakerPairTurns>)
    ensures
        groups_exchanges(units@, entries@, units@.len() as int),
{
    let mut entries: Vec<SpeakerPairTurns> = Vec::new();
    let mut p: usize = 0;
    while p < units.len()
        invariant
            p <= units@.len(),
            groups_exchanges(units@, entries@, p as int),
        decreases units@.len() - p,
    {
        let ghost count = p as int;
        let ghost old_entries = entries@;
        let ghost mut handled = false;
        if p + 1 < units.len() {
            match (&units[p].speaker, &units[p + 1].speaker) {
                (Some(first), Some(second)) => {
                    if !same_text(first.as_str(), second.as_str()) {
                        let swap = str_less(second.as_str(), first.as_str());
                        let left = if swap {
                            second.as_str()
                        } else {
                            first.as_str()
                        };
                        let right = if swap {
                            first.as_str()
                        } else {
                            second.as_str()
                        };
                        let ghost key = (left@, right@);
                        assert(is_exchange(units@, count) && exchange_pair(units@, count) == key);
                        let mut k: usize = 0;
                        while k < entries.len() && entry_before(&entries[k], left, right)
                            invariant
                                k <= entries@.len(),
                                entries@ == old_entries,
                                key == (left@, right@),
                                forall|i: int| 0 <= i < k ==> pair_less(pair_of(#[trigger] entries@[i]), key),
                            decreases entries@.len() - k,
                        {
                            k = k + 1;
                        }
                        let found = k < entries.len() && same_text(entries[k].left_speaker.as_str(), left)
                            && same_text(entries[k].right_speaker.as_str(), right);
                        if found {
                            let mut entry = entries.remove(k);
                            let ghost old_positions = positions_of(entry);
                            entry.positions.push(p);
                            proof {
                                assert(positions_of(entry) =~= old_positions.push(count));
                            }
                            entries.insert(k, entry);
                            proof {
                                handled = true;
                                assert(entries@ =~= old_entries.update(k as int, entry));
                                assert forall|i: int| 0 <= i < entries@.len() implies positions_of(
                                    #[trigger] entries@[i],
                                ) == exchange_positions(units@, pair_of(entries@[i]), count + 1)
                                    && entries@[i].positions@.len() > 0 by {
                                    if i != k {
                                        assert(entries@[i] == old_entries[i]);
                                        if pair_of(old_entries[i]) == key {
                                            if i < k {
                                                lemma_pair_less_transitive(
                                                    pair_of(old_entries[i]),
                                                    pair_of(old_entries[k as int]),
                                                    key,
                                                );
                                                lemma_pair_less_irreflexive(key);
                                            } else {
                                                lemma_pair_less_irreflexive(key);
                                            }
                                        }
                                    }
                                }
                                assert forall|q: int|
                                    0 <= q < count + 1 && #[trigger] is_exchange(units@, q) implies exists|i: int|
                                    0 <= i < entries@.len() && pair_of(#[trigger] entries@[i]) == exchange_pair(
                                        units@,
                                        q,
                                    ) by {
                                    if q < count {
                                        let i = choose|i: int|
                                            0 <= i < old_entries.len() && pair_of(#[trigger] old_entries[i])
                                                == exchange_pair(units@, q);
                                        assert(pair_of(entries@[i]) == pair_of(old_entries[i]));
                                    } else {
                                        assert(pair_of(entries@[k as int]) == exchange_pair(units@, q));
                                    }
                                }
                            }
                        } else {
                            proof {
                                if k < entries@.len() {
                                    lemma_pair_less_total(pair_of(entries@[k as int]), key);
                                }
                                assert forall|q: int|
                                    0 <= q < count && is_exchange(units@, q) implies exchange_pair(units@, q)
                                    != key by {
                                    if exchange_pair(units@, q) == key {
                                        let i = choose|i: int|
                                            0 <= i < old_entries.len() && pair_of(#[trigger] old_entries[i])
                                                == exchange_pair(units@, q);
                                        if i < k {
                                            lemma_pair_less_irreflexive(key);
                                        } else if i > k {
                                            lemma_pair_less_transitive(key, pair_of(old_entries[k as int]), pair_of(old_entries[i]));
                                            lemma_pair_less_irreflexive(key);
                                        }
                                    }
                                }
                                lemma_no_exchange_no_positions(units@, key, count);
                            }
                            let mut positions: Vec<usize> = Vec::new();
                            positions.push(p);
                            let entry = SpeakerPairTurns {
                                left_speaker: String::from_str(left),
                                right_speaker: String::from_str(right),
                                positions,
                            };
                            proof {
                                assert(positions_of(entry) =~= seq![count]);
                                assert(exchange_positions(units@, key, count + 1) =~= seq![count]);
                            }
                            entries.insert(k, entry);
                            proof {
                                handled = true;
                                assert(entries@ =~= old_entries.insert(k as int, entry));
                                assert forall|i: int, j: int|
                                    0 <= i < j < entries@.len() implies pair_less(
                                    pair_of(#[trigger] entries@[i]),
                                    pair_of(#[trigger] entries@[j]),
                                ) by {
                                    if j == k {
                                        assert(entries@[i] == old_entries[i]);
                                    } else if i == k {
                                        assert(entries@[j] == old_entries[j - 1]);
                                        if j - 1 > k {
                                            lemma_pair_less_transitive(key, pair_of(old_entries[k as int]), pair_of(old_entries[j - 1]));
                                        }
                                    } else if i < k && j > k {
                                        assert(entries@[i] == old_entries[i]);
                                        assert(entries@[j] == old_entries[j - 1]);
                                    } else if j < k {
                                        assert(entries@[i] == old_entries[i]);
                                        assert(entries@[j] == old_entries[j]);
                                    } else {
                                        assert(entries@[i] == old_entries[i - 1]);
                                        assert(entries@[j] == old_entries[j - 1]);
                                    }
                                }
                                assert forall|i: int| 0 <= i < entries@.len() implies positions_of(
                                    #[trigger] entries@[i],
                                ) == exchange_positions(units@, pair_of(entries@[i]), count + 1)
                                    && entries@[i].positions@.len() > 0 by {
                                    if i < k {
                                        assert(entries@[i] == old_entries[i]);
                                        lemma_pair_less_irreflexive(key);
                                    } else if i > k {
                                        assert(entries@[i] == old_entries[i - 1]);
                                        if pair_of(old_entries[i - 1]) == key {
                                            if i - 1 > k {
                                                lemma_pair_less_transitive(key, pair_of(old_entries[k as int]), pair_of(old_entries[i - 1]));
                                            }
                                            lemma_pair_less_irreflexive(key);
                                        }
                                    }
                                }
                                assert forall|q: int|
                                    0 <= q < count + 1 && #[trigger] is_exchange(units@, q) implies exists|i: int|
                                    0 <= i < entries@.len() && pair_of(#[trigger] entries@[i]) == exchange_pair(
                                        units@,
                                        q,
                                    ) by {
                                    if q < count {
                                        let i = choose|i: int|
                                            0 <= i < old_entries.len() && pair_of(#[trigger] old_entries[i])
                                                == exchange_pair(units@, q);
                                        if i < k {
                                            assert(pair_of(entries@[i]) == pair_of(old_entries[i]));
                                        } else {
                                            assert(pair_of(entries@[i + 1]) == pair_of(old_entries[i]));
                                        }
                                    } else {
                                        assert(pair_of(entries@[k as int]) == exchange_pair(units@, q));
                                    }
                                }
                            }
                        }
                    }
                },
                _ => {},
            }
        }
        proof {
            if !handled {
                assert(!is_exchange(units@, count));
                assert forall|i: int| 0 <= i < entries@.len() implies positions_of(#[trigger] entries@[i])
                    == exchange_positions(units@, pair_of(entries@[i]), count + 1)
                    && entries@[i].positions@.len() > 0 by {}
            }
        }
        p = p + 1;
    }
    entries
}

} // verus!
