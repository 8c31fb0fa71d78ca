//! Properties of the concept components.

use vstd::prelude::*;

use crate::components::{
    claimed_before, component, components_before, is_open_path, member_ids, reaches, value_set,
};
use crate::model::ClusterMembership;

verus! {

proof fn lemma_component_avoids_claimed(links: Seq<Vec<bool>>, claimed: Set<int>, seed: int, unit: int)
    requires
        component(links, claimed, seed).contains(unit),
    ensures
        !claimed.contains(unit),
        0 <= unit < links.len(),
{
    let path = choose|path: Seq<int>|
        #[trigger] is_open_path(links, claimed, path) && path[0] == seed && path.last() == unit;
    assert(path[path.len() - 1] == unit);
}

proof fn lemma_components_state(links: Seq<Vec<bool>>, seed: nat)
    requires
        seed <= links.len(),
    ensures
        forall|u: int|
            #![trigger claimed_before(links, seed).contains(u)]
            claimed_before(links, seed).contains(u) <==> exists|k: int|
                0 <= k < components_before(links, seed).len() && (#[trigger] components_before(
                    links,
                    seed,
                )[k]).contains(u),
        forall|u: int| 0 <= u < seed ==> #[trigger] claimed_before(links, seed).contains(u),
        forall|k: int, j: int, u: int|
            #![trigger components_before(links, seed)[k].contains(u), components_before(links, seed)[j].contains(u)]
            0 <= k < j < components_before(links, seed).len() ==> !(components_before(
                links,
                seed,
            )[k].contains(u) && components_before(links, seed)[j].contains(u)),
    decreases seed,
{
    if seed > 0 {
        let s = (seed - 1) as nat;
        lemma_components_state(links, s);
        let claimed = claimed_before(links, s);
        let comps = components_before(links, s);
        if !claimed.contains(s as int) {
            let fresh = component(links, claimed, s as int);
            let next = components_before(links, seed);
            assert(next == comps.push(fresh));
            assert(claimed_before(links, seed) == claimed.union(fresh));
            assert(fresh.contains(s as int)) by {
                let path = seq![s as int];
                assert(is_open_path(links, claimed, path));
            }
            assert forall|u: int|
                #![trigger claimed_before(links, seed).contains(u)]
                claimed_before(links, seed).contains(u) <==> exists|k: int|
                    0 <= k < next.len() && (#[trigger] next[k]).contains(u) by {
                if claimed.contains(u) {
                    let k = choose|k: int| 0 <= k < comps.len() && (#[trigger] comps[k]).contains(u);
                    assert(next[k] == comps[k]);
                }
                if fresh.contains(u) {
                    assert(next[comps.len() as int] == fresh);
                }
                if exists|k: int| 0 <= k < next.len() && (#[trigger] next[k]).contains(u) {
                    let k = choose|k: int| 0 <= k < next.len() && (#[trigger] next[k]).contains(u);
                    if k < comps.len() {
                        assert(next[k] == comps[k]);
                    }
                }
            }
            assert forall|k: int, j: int, u: int|
                #![trigger next[k].contains(u), next[j].contains(u)]
                0 <= k < j < next.len() implies !(next[k].contains(u) && next[j].contains(u)) by {
                if j == comps.len() {
                    assert(next[k] == comps[k]);
                    if comps[k].contains(u) && fresh.contains(u) {
                        assert(claimed.contains(u));
                        lemma_component_avoids_claimed(links, claimed, s as int, u);
                    }
                } else {
                    assert(next[k] == comps[k] && next[j] == comps[j]);
                }
            }
        } else {
            assert(claimed_before(links, seed) == claimed);
            assert(components_before(links, seed) == comps);
        }
    }
}

/// Every unit belongs to exactly one concept component.
pub proof fn law_components_partition_units(links: Seq<Vec<bool>>, unit: int)
    requires
        0 <= unit < links.len(),
    ensures
        exists|k: int|
            0 <= k < components_before(links, links.len()).len() && (#[trigger] components_before(
                links,
                links.len(),
            )[k]).contains(unit),
        forall|k: int, j: int|
            #![trigger components_before(links, links.len())[k], components_before(links, links.len())[j]]
            0 <= k < j < components_before(links, links.len()).len() ==> !(components_before(
                links,
                links.len(),
            )[k].contains(unit) && components_before(links, links.len())[j].contains(unit)),
{
    lemma_components_state(links, links.len());
    assert(claimed_before(links, links.len()).contains(unit));
}

/// A component holds only units that its seed reaches through links among
/// units that no earlier component claimed.
pub proof fn law_component_members_are_reachable(links: Seq<Vec<bool>>, seed: int, unit: int)
    requires
        0 <= seed < links.len(),
        !claimed_before(links, seed as nat).contains(seed),
        component(links, claimed_before(links, seed as nat), seed).contains(unit),
    ensures
        reaches(links, claimed_before(links, seed as nat), seed, unit),
        !claimed_before(links, seed as nat).contains(unit),
{
    lemma_component_avoids_claimed(links, claimed_before(links, seed as nat), seed, unit);
}

/// The unit ids that concept `concept` lists, as characters.
pub open spec fn listed_ids(concept: ClusterMembership) -> Seq<Seq<char>> {
    concept.member_unit_ids@.map_values(|id: String| id@)
}

/// The concepts that `concept_memberships` builds over the components that
/// `linked_components` finds are the connected components of the links:
/// with distinct unit ids, every unit's id is listed by exactly one concept,
/// and that concept is the component of the links that holds the unit.
pub proof fn law_concepts_are_linked_components(
    links: Seq<Vec<bool>>,
    unit_ids: Seq<String>,
    components: Seq<Vec<usize>>,
    concepts: Seq<ClusterMembership>,
    unit: int,
)
    requires
        unit_ids.len() == links.len(),
        0 <= unit < links.len(),
        forall|a: int, b: int| #![trigger unit_ids[a], unit_ids[b]] 0 <= a < b < unit_ids.len() ==> unit_ids[a]@ != unit_ids[b]@,
        components.len() == components_before(links, links.len()).len(),
        forall|k: int|
            0 <= k < components.len() ==> value_set((#[trigger] components[k])@) == components_before(
                links,
                links.len(),
            )[k],
        forall|k: int, m: int|
            0 <= k < components.len() && 0 <= m < components[k]@.len() ==> (#[trigger] components[k]@[m])
                < unit_ids.len(),
        concepts.len() == components.len(),
        forall|k: int|
            0 <= k < concepts.len() ==> listed_ids(#[trigger] concepts[k]) == member_ids(
                unit_ids,
                components[k]@,
            ),
    ensures
        exists|k: int|
            0 <= k < concepts.len() && listed_ids(#[trigger] concepts[k]).contains(unit_ids[unit]@)
                && components_before(links, links.len())[k].contains(unit),
        forall|k: int|
            0 <= k < concepts.len() && listed_ids(#[trigger] concepts[k]).contains(unit_ids[unit]@)
                ==> components_before(links, links.len())[k].contains(unit),
        forall|k: int, j: int|
            #![trigger concepts[k], concepts[j]]
            0 <= k < j < concepts.len() ==> !(listed_ids(concepts[k]).contains(unit_ids[unit]@)
                && listed_ids(concepts[j]).contains(unit_ids[unit]@)),
{
    let all = components_before(links, links.len());
    law_components_partition_units(links, unit);
    let k = choose|k: int| 0 <= k < all.len() && (#[trigger] all[k]).contains(unit);
    assert(value_set(components[k]@).contains(unit));
    let m = choose|m: int| 0 <= m < components[k]@.len() && components[k]@[m] == unit;
    assert(member_ids(unit_ids, components[k]@)[m] == unit_ids[unit]@);
    assert(listed_ids(concepts[k])[m] == unit_ids[unit]@);
    assert(listed_ids(concepts[k]).contains(unit_ids[unit]@));
    assert forall|j: int|
        0 <= j < concepts.len() && listed_ids(#[trigger] concepts[j]).contains(unit_ids[unit]@) implies all[j].contains(
        unit,
    ) by {
        let q = choose|q: int| 0 <= q < listed_ids(concepts[j]).len() && listed_ids(concepts[j])[q] == unit_ids[unit]@;
        assert(member_ids(unit_ids, components[j]@)[q] == unit_ids[components[j]@[q] as int]@);
        let v = components[j]@[q] as int;
        if v != unit {
            if v < unit {
                assert(unit_ids[v]@ != unit_ids[unit]@);
            } else {
                assert(unit_ids[unit]@ != unit_ids[v]@);
            }
        }
        assert(value_set(components[j]@).contains(unit));
    }
    assert forall|a: int, b: int|
        #![trigger concepts[a], concepts[b]]
        0 <= a < b < concepts.len() implies !(listed_ids(concepts[a]).contains(unit_ids[unit]@)
            && listed_ids(concepts[b]).contains(unit_ids[unit]@)) by {
        if listed_ids(concepts[a]).contains(unit_ids[unit]@) && listed_ids(concepts[b]).contains(
            unit_ids[unit]@,
        ) {
            assert(all[a].contains(unit) && all[b].contains(unit));
        }
    }
}

} // verus!
