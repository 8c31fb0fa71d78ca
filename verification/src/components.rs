//! Concept clusters as the groups of units that similarity links connect:
//! each unit not yet claimed seeds a breadth-first search over the links
//! among unclaimed units.

use vstd::prelude::*;
use vstd::string::StringExecFns;

use crate::chars::{decimal, decimal_text};
use crate::model::ClusterMembership;

verus! {

/// Every row of `links` has a column for every unit.
pub open spec fn covers_units(links: Seq<Vec<bool>>) -> bool {
    forall|i: int| 0 <= i < links.len() ==> (#[trigger] links[i])@.len() >= links.len()
}

/// The units whose flag is set.
pub open spec fn flagged(flags: Seq<bool>) -> Set<int> {
    Set::new(|unit: int| 0 <= unit < flags.len() && flags[unit])
}

/// `path` runs through unclaimed units, each linked to the next.
pub open spec fn is_open_path(links: Seq<Vec<bool>>, claimed: Set<int>, path: Seq<int>) -> bool {
    &&& path.len() >= 1
    &&& forall|i: int|
        #![trigger path[i]]
        0 <= i < path.len() ==> 0 <= path[i] < links.len() && !claimed.contains(path[i])
    &&& forall|i: int|
        #![trigger path[i + 1]]
        0 <= i < path.len() - 1 ==> links[path[i]]@[path[i + 1]]
}

/// Unit `to` can be reached from unit `from` through unclaimed units.
pub open spec fn reaches(links: Seq<Vec<bool>>, claimed: Set<int>, from: int, to: int) -> bool {
    exists|path: Seq<int>|
        #[trigger] is_open_path(links, claimed, path) && path[0] == from && path.last() == to
}

/// The units that `seed` reaches through units outside `claimed`.
pub open spec fn component(links: Seq<Vec<bool>>, claimed: Set<int>, seed: int) -> Set<int> {
    Set::new(|unit: int| 0 <= unit < links.len() && reaches(links, claimed, seed, unit))
}

/// The units claimed by the components of the seeds before `seed`.
pub open spec fn claimed_before(links: Seq<Vec<bool>>, seed: nat) -> Set<int>
    decreases seed,
{
    if seed == 0 {
        Set::empty()
    } else {
        let earlier = claimed_before(links, (seed - 1) as nat);
        if earlier.contains(seed - 1) {
            earlier
        } else {
            earlier.union(component(links, earlier, seed - 1))
        }
    }
}

/// The components found for the seeds before `seed`, in seed order.
pub open spec fn components_before(links: Seq<Vec<bool>>, seed: nat) -> Seq<Set<int>>
    decreases seed,
{
    if seed == 0 {
        Seq::empty()
    } else {
        let earlier = components_before(links, (seed - 1) as nat);
        let claimed = claimed_before(links, (seed - 1) as nat);
        if claimed.contains(seed - 1) {
            earlier
        } else {
            earlier.push(component(links, claimed, seed - 1))
        }
    }
}

/// The values of `values`, which ascend strictly, as a set of integers.
pub open spec fn ascending(values: Seq<usize>) -> bool {
    forall|i: int, j: int| #![trigger values[i], values[j]] 0 <= i < j < values.len() ==> values[i] < values[j]
}

/// The values of a list, as a set of integers.
pub open spec fn value_set(values: Seq<usize>) -> Set<int> {
    Set::new(|v: int| exists|i: int| 0 <= i < values.len() && values[i] == v)
}

/// Inserts `value` into an ascending list that does not hold it.
fn insert_ascending(values: &mut Vec<usize>, value: usize)
    requires
        ascending(old(values)@),
        !value_set(old(values)@).contains(value as int),
    ensures
        ascending(final(values)@),
        value_set(final(values)@) == value_set(old(values)@).insert(value as int),
        final(values)@.len() == old(values)@.len() + 1,
{
    let ghost before = values@;
    let mut position: usize = 0;
    while position < values.len() && values[position] < value
        invariant
            values@ == before,
            position <= values@.len(),
            forall|i: int| 0 <= i < position ==> #[trigger] values@[i] < value,
        decreases values@.len() - position,
    {
        position = position + 1;
    }
    proof {
        if position < before.len() {
            assert(before[position as int] != value) by {
                if before[position as int] == value {
                    assert(value_set(before).contains(value as int));
                }
            }
        }
    }
    values.insert(position, value);
    proof {
        let after = values@;
        assert forall|i: int, j: int| #![trigger after[i], after[j]] 0 <= i < j < after.len() implies after[i] < after[j] by {
            if j < position {
                assert(after[i] == before[i] && after[j] == before[j]);
            } else if j == position {
                assert(after[i] == before[i]);
            } else if i < position {
                assert(after[i] == before[i] && after[j] == before[j - 1]);
                assert(before[position as int] > value);
                if j - 1 > position {
                    assert(before[position as int] < before[j - 1]);
                }
            } else if i == position {
                assert(after[j] == before[j - 1]);
                if j - 1 > position {
                    assert(before[position as int] < before[j - 1]);
                }
            } else {
                assert(after[i] == before[i - 1] && after[j] == before[j - 1]);
            }
        }
        assert(value_set(after) =~= value_set(before).insert(value as int)) by {
            assert forall|v: int| value_set(after).contains(v) implies value_set(before).insert(
                value as int,
            ).contains(v) by {
                let i = choose|i: int| 0 <= i < after.len() && after[i] == v;
                if i < position {
                    assert(before[i] == v);
                } else if i > position {
                    assert(before[i - 1] == v);
                }
            }
            assert forall|v: int| value_set(before).insert(value as int).contains(v) implies value_set(
                after,
            ).contains(v) by {
                if v == value {
                    assert(after[position as int] == v);
                } else {
                    let i = choose|i: int| 0 <= i < before.len() && before[i] == v;
                    if i < position {
                        assert(after[i] == v);
                    } else {
                        assert(after[i + 1] == v);
                    }
                }
            }
        }
    }
}

/// Number of units whose flag is not set.
pub open spec fn unset_count(flags: Seq<bool>) -> nat
    decreases flags.len(),
{
    if flags.len() == 0 {
        0
    } else {
        unset_count(flags.drop_last()) + if flags.last() {
            0nat
        } else {
            1nat
        }
    }
}

proof fn lemma_setting_a_flag(flags: Seq<bool>, unit: int)
    requires
        0 <= unit < flags.len(),
        !flags[unit],
    ensures
        unset_count(flags.update(unit, true)) + 1 == unset_count(flags),
    decreases flags.len(),
{
    let updated = flags.update(unit, true);
    if unit < flags.len() - 1 {
        assert(updated.drop_last() =~= flags.drop_last().update(unit, true));
        lemma_setting_a_flag(flags.drop_last(), unit);
    } else {
        assert(updated.drop_last() =~= flags.drop_last());
    }
}

proof fn lemma_extend_path(links: Seq<Vec<bool>>, claimed: Set<int>, seed: int, from: int, to: int)
    requires
        covers_units(links),
        reaches(links, claimed, seed, from),
        0 <= to < links.len(),
        !claimed.contains(to),
        0 <= from < links.len(),
        links[from]@[to],
    ensures
        reaches(links, claimed, seed, to),
{
    let path = choose|path: Seq<int>|
        #[trigger] is_open_path(links, claimed, path) && path[0] == seed && path.last() == from;
    let longer = path.push(to);
    assert forall|i: int| #![trigger longer[i]] 0 <= i < longer.len() implies 0 <= longer[i] < links.len()
        && !claimed.contains(longer[i]) by {
        if i < path.len() {
            assert(longer[i] == path[i]);
        }
    }
    assert forall|i: int| #![trigger longer[i + 1]] 0 <= i < longer.len() - 1 implies links[longer[i]]@[longer[i + 1]] by {
        if i < path.len() - 1 {
            assert(longer[i] == path[i] && longer[i + 1] == path[i + 1]);
        } else {
            assert(longer[i] == from && longer[i + 1] == to);
        }
    }
    assert(is_open_path(links, claimed, longer));
}

proof fn lemma_seed_reaches_itself(links: Seq<Vec<bool>>, claimed: Set<int>, seed: int)
    requires
        0 <= seed < links.len(),
        !claimed.contains(seed),
    ensures
        reaches(links, claimed, seed, seed),
{
    let path = seq![seed];
    assert(is_open_path(links, claimed, path));
}

proof fn lemma_closed_set_holds_paths(
    links: Seq<Vec<bool>>,
    claimed: Set<int>,
    found: Set<int>,
    path: Seq<int>,
    k: int,
)
    requires
        is_open_path(links, claimed, path),
        found.contains(path[0]),
        forall|a: int, b: int|
            #![trigger found.contains(a), links[a]@[b]]
            found.contains(a) && 0 <= b < links.len() && !claimed.contains(b) && links[a]@[b]
                ==> found.contains(b),
        0 <= k < path.len(),
    ensures
        found.contains(path[k]),
    decreases k,
{
    if k > 0 {
        lemma_closed_set_holds_paths(links, claimed, found, path, k - 1);
        assert(links[path[k - 1]]@[path[(k - 1) + 1]]);
        assert(0 <= path[k] < links.len() && !claimed.contains(path[k]));
    }
}

/// Breadth-first search from `seed` over the links among unflagged units:
/// flags every unit it reaches and returns them in ascending order.
fn component_from(links: &Vec<Vec<bool>>, flags: &mut Vec<bool>, seed: usize) -> (members: Vec<usize>)
    requires
        covers_units(links@),
        old(flags)@.len() == links@.len(),
        seed < links@.len(),
        !old(flags)@[seed as int],
    ensures
        final(flags)@.len() == links@.len(),
        flagged(final(flags)@) == flagged(old(flags)@).union(
            component(links@, flagged(old(flags)@), seed as int),
        ),
        ascending(members@),
        value_set(members@) == component(links@, flagged(old(flags)@), seed as int),
{
    let ghost claimed = flagged(flags@);
    let n = links.len();
    let mut queue: Vec<usize> = Vec::new();
    let mut members: Vec<usize> = Vec::new();
    flags.set(seed, true);
    queue.push(seed);
    members.push(seed);
    let ghost seed_flags = flags@;
    proof {
        lemma_seed_reaches_itself(links@, claimed, seed as int);
        assert(value_set(members@) =~= value_set(queue@));
        assert(value_set(queue@) =~= set![seed as int]) by {
            assert(queue@[0] == seed);
        }
        assert(flagged(flags@) =~= claimed.union(value_set(queue@))) by {
            assert forall|u: int| flagged(flags@).contains(u) <==> claimed.union(value_set(queue@)).contains(u) by {
                if 0 <= u < n && u != seed {
                    assert(flags@[u] == seed_flags[u]);
                }
            }
        }
    }
    let mut head: usize = 0;
    while head < queue.len()
        invariant
            n == links@.len(),
            covers_units(links@),
            flags@.len() == n,
            head <= queue@.len(),
            flagged(flags@) == claimed.union(value_set(queue@)),
            forall|i: int|
                #![trigger queue@[i]]
                0 <= i < queue@.len() ==> queue@[i] < n && !claimed.contains(queue@[i] as int)
                    && reaches(links@, claimed, seed as int, queue@[i] as int),
            ascending(members@),
            value_set(members@) == value_set(queue@),
            queue@.len() >= 1,
            queue@[0] == seed,
            forall|i: int, c: int|
                #![trigger queue@[i], links@[queue@[i] as int]@[c]]
                0 <= i < head && 0 <= c < n && links@[queue@[i] as int]@[c] ==> flags@[c],
        decreases unset_count(flags@) + queue@.len() - head,
    {
        let ghost measure = unset_count(flags@) + queue@.len();
        let current = queue[head];
        let mut candidate: usize = 0;
        while candidate < n
            invariant
                n == links@.len(),
                covers_units(links@),
                flags@.len() == n,
                head < queue@.len(),
                current == queue@[head as int],
                current < n,
                flagged(flags@) == claimed.union(value_set(queue@)),
                forall|i: int|
                    #![trigger queue@[i]]
                    0 <= i < queue@.len() ==> queue@[i] < n && !claimed.contains(queue@[i] as int)
                        && reaches(links@, claimed, seed as int, queue@[i] as int),
                ascending(members@),
                value_set(members@) == value_set(queue@),
                queue@.len() >= 1,
                queue@[0] == seed,
                forall|i: int, c: int|
                    #![trigger queue@[i], links@[queue@[i] as int]@[c]]
                    0 <= i < head && 0 <= c < n && links@[queue@[i] as int]@[c] ==> flags@[c],
                forall|c: int| 0 <= c < candidate && #[trigger] links@[current as int]@[c] ==> flags@[c],
                unset_count(flags@) + queue@.len() == measure,
            decreases n - candidate,
        {
            if links[current][candidate] && !flags[candidate] {
                let ghost before_queue = queue@;
                let ghost before_flags = flags@;
                proof {
                    assert(!flagged(flags@).contains(candidate as int));
                    assert(!value_set(members@).contains(candidate as int));
                    lemma_extend_path(links@, claimed, seed as int, current as int, candidate as int);
                }
                flags.set(candidate, true);
                queue.push(candidate);
                insert_ascending(&mut members, candidate);
                proof {
                    assert(flags@ == before_flags.update(candidate as int, true));
                    lemma_setting_a_flag(before_flags, candidate as int);
                    assert(flagged(before_flags) == claimed.union(value_set(before_queue)));
                    assert(value_set(queue@) =~= value_set(before_queue).insert(candidate as int)) by {
                        assert forall|v: int| value_set(queue@).contains(v) implies value_set(
                            before_queue,
                        ).insert(candidate as int).contains(v) by {
                            let i = choose|i: int| 0 <= i < queue@.len() && queue@[i] == v;
                            if i < before_queue.len() {
                                assert(before_queue[i] == v);
                            }
                        }
                        assert forall|v: int| value_set(before_queue).insert(candidate as int).contains(
                            v,
                        ) implies value_set(queue@).contains(v) by {
                            if v == candidate {
                                assert(queue@[before_queue.len() as int] == v);
                            } else {
                                let i = choose|i: int| 0 <= i < before_queue.len() && before_queue[i] == v;
                                assert(queue@[i] == v);
                            }
                        }
                    }
                    assert(flagged(flags@) =~= claimed.union(value_set(queue@))) by {
                        assert forall|u: int| flagged(flags@).contains(u) <==> claimed.union(
                            value_set(queue@),
                        ).contains(u) by {
                            if u == candidate {
                            } else if 0 <= u < n {
                                assert(flags@[u] == before_flags[u]);
                                assert(flagged(flags@).contains(u) == flagged(before_flags).contains(u));
                            } else {
                                if value_set(before_queue).contains(u) {
                                    let i = choose|i: int| 0 <= i < before_queue.len() && before_queue[i] == u;
                                    assert(before_queue[i] < n);
                                }
                                assert(!flagged(before_flags).contains(u));
                            }
                        }
                    }
                    assert forall|i: int|
                        #![trigger queue@[i]]
                        0 <= i < queue@.len() implies queue@[i] < n && !claimed.contains(
                            queue@[i] as int,
                        ) && reaches(links@, claimed, seed as int, queue@[i] as int) by {
                        if i < before_queue.len() {
                            assert(queue@[i] == before_queue[i]);
                        } else {
                            assert(queue@[i] == candidate);
                            assert(!flagged(before_flags).contains(candidate as int));
                        }
                    }
                    assert forall|i: int, c: int|
                        #![trigger queue@[i], links@[queue@[i] as int]@[c]]
                        0 <= i < head && 0 <= c < n && links@[queue@[i] as int]@[c] implies flags@[c] by {
                        assert(queue@[i] == before_queue[i]);
                        assert(before_flags[c]);
                    }
                }
            }
            candidate = candidate + 1;
        }
        head = head + 1;
    }
    proof {
        let found = value_set(queue@);
        let reached = component(links@, claimed, seed as int);
        assert forall|a: int, b: int|
            #![trigger found.contains(a), links@[a]@[b]]
            found.contains(a) && 0 <= b < links@.len() && !claimed.contains(b) && links@[a]@[b]
                implies found.contains(b) by {
            let i = choose|i: int| 0 <= i < queue@.len() && queue@[i] == a;
            assert(flags@[b]);
            assert(flagged(flags@).contains(b));
        }
        assert forall|u: int| reached.contains(u) implies found.contains(u) by {
            let path = choose|path: Seq<int>|
                #[trigger] is_open_path(links@, claimed, path) && path[0] == seed as int && path.last()
                    == u;
            assert(found.contains(path[0])) by {
                assert(queue@[0] == seed);
            }
            lemma_closed_set_holds_paths(links@, claimed, found, path, path.len() - 1);
        }
        assert forall|u: int| found.contains(u) implies reached.contains(u) by {
            let i = choose|i: int| 0 <= i < queue@.len() && queue@[i] == u;
            assert(queue@[i] < n);
        }
        assert(found =~= reached);
    }
    members
}

/// Groups the units into connected concepts. `links[a][b]` tells whether
/// unit `b` is similar enough to unit `a` to join its concept. In unit order,
/// every unit that no earlier concept claimed seeds a new concept: the units
/// it reaches through links among unclaimed units, in ascending order.
pub fn linked_components(links: &Vec<Vec<bool>>) -> (components: Vec<Vec<usize>>)
    requires
        covers_units(links@),
    ensures
        components@.len() == components_before(links@, links@.len()).len(),
        forall|k: int|
            0 <= k < components@.len() ==> ascending((#[trigger] components@[k])@) && value_set(
                components@[k]@,
            ) == components_before(links@, links@.len())[k],
{
    let n = links.len();
    let mut flags: Vec<bool> = Vec::new();
    while flags.len() < n
        invariant
            flags@.len() <= n,
            forall|u: int| 0 <= u < flags@.len() ==> !flags@[u],
        decreases n - flags@.len(),
    {
        flags.push(false);
    }
    proof {
        assert(flagged(flags@) =~= claimed_before(links@, 0));
    }
    let mut components: Vec<Vec<usize>> = Vec::new();
    let mut seed: usize = 0;
    while seed < n
        invariant
            n == links@.len(),
            covers_units(links@),
            seed <= n,
            flags@.len() == n,
            flagged(flags@) == claimed_before(links@, seed as nat),
            components@.len() == components_before(links@, seed as nat).len(),
            forall|k: int|
                0 <= k < components@.len() ==> ascending((#[trigger] components@[k])@) && value_set(
                    components@[k]@,
                ) == components_before(links@, seed as nat)[k],
        decreases n - seed,
    {
        let ghost claimed = claimed_before(links@, seed as nat);
        if flags[seed] {
            proof {
                assert(flagged(flags@).contains(seed as int));
                assert(claimed_before(links@, (seed + 1) as nat) == claimed);
                assert(components_before(links@, (seed + 1) as nat) == components_before(
                    links@,
                    seed as nat,
                ));
            }
        } else {
            proof {
                assert(!claimed.contains(seed as int));
            }
            let ghost before = components@;
            let members = component_from(links, &mut flags, seed);
            components.push(members);
            proof {
                assert(claimed_before(links@, (seed + 1) as nat) == claimed.union(
                    component(links@, claimed, seed as int),
                ));
                assert(components_before(links@, (seed + 1) as nat) == components_before(
                    links@,
                    seed as nat,
                ).push(component(links@, claimed, seed as int)));
                assert forall|k: int|
                    0 <= k < components@.len() implies ascending((#[trigger] components@[k])@)
                    && value_set(components@[k]@) == components_before(links@, (seed + 1) as nat)[k] by {
                    if k < before.len() {
                        assert(components@[k] == before[k]);
                    }
                }
            }
        }
        seed = seed + 1;
    }
    components
}

/// The id of the concept at position `k`: `concept-` and `k + 1` in decimal.
pub open spec fn concept_name(k: int) -> Seq<char> {
    "concept-"@ + decimal_text((k + 1) as nat)
}

/// The unit ids of a component's members.
pub open spec fn member_ids(unit_ids: Seq<String>, members: Seq<usize>) -> Seq<Seq<char>> {
    members.map_values(|member: usize| unit_ids[member as int]@)
}

/// The concepts of a list of components: concept `k` is named
/// `concept-{k + 1}`, lists the ids of its members in order, and has the
/// unit `representatives[k]` as its representative, which is one of its
/// members whenever `representatives[k]` is in the component.
pub fn concept_memberships(
    unit_ids: &[String],
    components: &Vec<Vec<usize>>,
    representatives: &[usize],
) -> (concepts: Vec<ClusterMembership>)
    requires
        components@.len() == representatives@.len(),
        components@.len() < usize::MAX,
        forall|k: int, m: int|
            0 <= k < components@.len() && 0 <= m < components@[k]@.len() ==> (#[trigger] components@[k]@[m])
                < unit_ids@.len(),
        forall|k: int| 0 <= k < representatives@.len() ==> (#[trigger] representatives@[k]) < unit_ids@.len(),
    ensures
        concepts@.len() == components@.len(),
        forall|k: int|
            0 <= k < concepts@.len() ==> {
                &&& (#[trigger] concepts@[k]).id@ == concept_name(k)
                &&& concepts@[k].member_unit_ids@.map_values(|id: String| id@) == member_ids(
                    unit_ids@,
                    components@[k]@,
                )
                &&& concepts@[k].representative_unit_id@ == unit_ids@[representatives@[k] as int]@
            },
        forall|k: int|
            0 <= k < concepts@.len() && components@[k]@.contains(representatives@[k]) ==> (
            #[trigger] concepts@[k]).member_unit_ids@.map_values(|id: String| id@).contains(
                concepts@[k].representative_unit_id@,
            ),
{
    let mut concepts: Vec<ClusterMembership> = Vec::new();
    let mut k: usize = 0;
    while k < components.len()
        invariant
            k <= components@.len(),
            components@.len() == representatives@.len(),
            components@.len() < usize::MAX,
            forall|c: int, m: int|
                0 <= c < components@.len() && 0 <= m < components@[c]@.len() ==> (#[trigger] components@[c]@[m])
                    < unit_ids@.len(),
            forall|c: int| 0 <= c < representatives@.len() ==> (#[trigger] representatives@[c]) < unit_ids@.len(),
            concepts@.len() == k,
            forall|c: int|
                0 <= c < k ==> {
                    &&& (#[trigger] concepts@[c]).id@ == concept_name(c)
                    &&& concepts@[c].member_unit_ids@.map_values(|id: String| id@) == member_ids(
                        unit_ids@,
                        components@[c]@,
                    )
                    &&& concepts@[c].representative_unit_id@ == unit_ids@[representatives@[c] as int]@
                },
        decreases components@.len() - k,
    {
        let members = &components[k];
        let mut ids: Vec<String> = Vec::new();
        let mut m: usize = 0;
        while m < members.len()
            invariant
                m <= members@.len(),
                k < components@.len(),
                *members == components@[k as int],
                forall|c: int, j: int|
                    0 <= c < components@.len() && 0 <= j < components@[c]@.len() ==> (#[trigger] components@[c]@[j])
                        < unit_ids@.len(),
                ids@.map_values(|id: String| id@) == member_ids(unit_ids@, members@.take(m as int)),
            decreases members@.len() - m,
        {
            let ghost before = ids@;
            proof {
                assert(members@[m as int] == components@[k as int]@[m as int]);
            }
            let id = unit_ids[members[m]].clone();
            ids.push(id);
            proof {
                assert(ids@ == before.push(id));
                assert(members@.take(m + 1) == members@.take(m as int).push(members@[m as int]));
                assert(member_ids(unit_ids@, members@.take(m + 1)) =~= member_ids(unit_ids@, members@.take(m as int)).push(
                    unit_ids@[members@[m as int] as int]@,
                ));
                assert(ids@.map_values(|id: String| id@) =~= before.map_values(|id: String| id@).push(id@));
            }
            m = m + 1;
        }
        proof {
            assert(members@.take(m as int) =~= members@);
        }
        let digits = decimal(k + 1);
        let mut name = String::from_str("concept-");
        name.append(digits.as_str());
        concepts.push(
            ClusterMembership {
                id: name,
                member_unit_ids: ids,
                representative_unit_id: unit_ids[representatives[k]].clone(),
            },
        );
        k = k + 1;
    }
    proof {
        assert forall|c: int|
            0 <= c < concepts@.len() && components@[c]@.contains(representatives@[c]) implies (
            #[trigger] concepts@[c]).member_unit_ids@.map_values(|id: String| id@).contains(
                concepts@[c].representative_unit_id@,
            ) by {
            let m = choose|m: int|
                0 <= m < components@[c]@.len() && components@[c]@[m] == representatives@[c];
            assert(member_ids(unit_ids@, components@[c]@)[m] == unit_ids@[representatives@[c] as int]@);
        }
    }
    concepts
}

} // verus!
