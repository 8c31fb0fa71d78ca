//! The concept each primary unit belongs to along the semantic timeline, and
//! where that concept's representative stands.

use vstd::prelude::*;

use crate::chars::same_text;
use crate::model::{ClusterAssignment, ClusterMembership};
use crate::order::views_of;

verus! {

/// The concept of one primary unit on the timeline.
#[derive(Debug, Clone, PartialEq, Eq)]
pub struct TimelineSlot {
    pub unit_id: String,
    pub cluster_id: String,
    /// The position, among the primary units, of the concept's representative.
    pub representative_position: usize,
}

/// The cluster that lists `unit_id` among its members; when several do, the
/// last of them.
pub open spec fn cluster_of_unit(clusters: Seq<ClusterMembership>, unit_id: Seq<char>) -> Option<
    ClusterMembership,
>
    decreases clusters.len(),
{
    if clusters.len() == 0 {
        None
    } else if views_of(clusters.last().member_unit_ids@).contains(unit_id) {
        Some(clusters.last())
    } else {
        cluster_of_unit(clusters.drop_last(), unit_id)
    }
}

/// The position of `id` among `ids`; when it occurs several times, the last.
pub open spec fn last_position(ids: Seq<String>, id: Seq<char>) -> Option<int>
    decreases ids.len(),
{
    if ids.len() == 0 {
        None
    } else if ids.last()@ == id {
        Some(ids.len() - 1)
    } else {
        last_position(ids.drop_last(), id)
    }
}

/// Every primary unit belongs to a cluster whose representative is a primary unit.
pub open spec fn timeline_covered(ids: Seq<String>, clusters: Seq<ClusterMembership>) -> bool {
    forall|p: int|
        0 <= p < ids.len() ==> match cluster_of_unit(clusters, (#[trigger] ids[p])@) {
            Some(cluster) => last_position(ids, cluster.representative_unit_id@) is Some,
            None => false,
        }
}

fn lists_member(members: &Vec<String>, unit_id: &str) -> (listed: bool)
    ensures
        listed == views_of(members@).contains(unit_id@),
{
    let mut index: usize = 0;
    while index < members.len()
        invariant
            index <= members@.len(),
            forall|i: int| 0 <= i < index ==> members@[i]@ != unit_id@,
        decreases members@.len() - index,
    {
        if same_text(members[index].as_str(), unit_id) {
            proof {
                assert(views_of(members@)[index as int] == unit_id@);
            }
            return true;
        }
        index = index + 1;
    }
    proof {
        if views_of(members@).contains(unit_id@) {
            let i = choose|i: int| 0 <= i < views_of(members@).len() && views_of(members@)[i] == unit_id@;
            assert(members@[i]@ == unit_id@);
        }
    }
    false
}

fn find_cluster(clusters: &[ClusterMembership], unit_id: &str) -> (found: Option<usize>)
    ensures
        match found {
            Some(c) => c < clusters@.len() && cluster_of_unit(clusters@, unit_id@) == Some(clusters@[c as int]),
            None => cluster_of_unit(clusters@, unit_id@) is None,
        },
{
    let mut found: Option<usize> = None;
    let mut index: usize = 0;
    while index < clusters.len()
        invariant
            index <= clusters@.len(),
            match found {
                Some(c) => c < index && cluster_of_unit(clusters@.take(index as int), unit_id@) == Some(
                    clusters@[c as int],
                ),
                None => cluster_of_unit(clusters@.take(index as int), unit_id@) is None,
            },
        decreases clusters@.len() - index,
    {
        proof {
            assert(clusters@.take(index + 1).drop_last() =~= clusters@.take(index as int));
        }
        if lists_member(&clusters[index].member_unit_ids, unit_id) {
            found = Some(index);
        }
        index = index + 1;
    }
    proof {
        assert(clusters@.take(index as int) =~= clusters@);
    }
    found
}

fn find_last(ids: &[String], id: &str) -> (found: Option<usize>)
    ensures
        match found {
            Some(p) => last_position(ids@, id@) == Some(p as int),
            None => last_position(ids@, id@) is None,
        },
{
    let mut found: Option<usize> = None;
    let mut index: usize = 0;
    while index < ids.len()
        invariant
            index <= ids@.len(),
            match found {
                Some(p) => last_position(ids@.take(index as int), id@) == Some(p as int),
                None => last_position(ids@.take(index as int), id@) is None,
            },
        decreases ids@.len() - index,
    {
        proof {
            assert(ids@.take(index + 1).drop_last() =~= ids@.take(index as int));
        }
        if same_text(ids[index].as_str(), id) {
            found = Some(index);
        }
        index = index + 1;
    }
    proof {
        assert(ids@.take(index as int) =~= ids@);
    }
    found
}

/// The concept of each primary unit (`unit_ids`, in timeline order): the
/// last cluster that lists the unit among its members, and the position of
/// that cluster's representative among the primary units (its last position
/// if it occurs twice).
pub fn timeline_slots(unit_ids: &[String], clusters: &[ClusterMembership]) -> (slots: Vec<TimelineSlot>)
    requires
        timeline_covered(unit_ids@, clusters@),
    ensures
        slots@.len() == unit_ids@.len(),
        forall|p: int|
            0 <= p < slots@.len() ==> {
                let cluster = cluster_of_unit(clusters@, unit_ids@[p]@)->0;
                &&& (#[trigger] slots@[p]).unit_id@ == unit_ids@[p]@
                &&& slots@[p].cluster_id@ == cluster.id@
                &&& last_position(unit_ids@, cluster.representative_unit_id@) == Some(
                    slots@[p].representative_position as int,
                )
            },
{
    let mut slots: Vec<TimelineSlot> = Vec::new();
    let mut index: usize = 0;
    while index < unit_ids.len()
        invariant
            index <= unit_ids@.len(),
            timeline_covered(unit_ids@, clusters@),
            slots@.len() == index,
            forall|p: int|
                0 <= p < index ==> {
                    let cluster = cluster_of_unit(clusters@, unit_ids@[p]@)->0;
                    &&& (#[trigger] slots@[p]).unit_id@ == unit_ids@[p]@
                    &&& slots@[p].cluster_id@ == cluster.id@
                    &&& last_position(unit_ids@, cluster.representative_unit_id@) == Some(
                        slots@[p].representative_position as int,
                    )
                },
        decreases unit_ids@.len() - index,
    {
        let unit_id = unit_ids[index].as_str();
        proof {
            assert(cluster_of_unit(clusters@, unit_ids@[index as int]@) is Some);
        }
        let c = match find_cluster(clusters, unit_id) {
            Some(c) => c,
            None => vstd::pervasive::unreached(),
        };
        let cluster = &clusters[c];
        let position = match find_last(unit_ids, cluster.representative_unit_id.as_str()) {
            Some(p) => p,
            None => vstd::pervasive::unreached(),
        };
        slots.push(
            TimelineSlot {
                unit_id: unit_ids[index].clone(),
                cluster_id: cluster.id.clone(),
                representative_position: position,
            },
        );
        index = index + 1;
    }
    slots
}

/// Where one concept is active along the timeline.
#[derive(Debug, Clone, PartialEq, Eq)]
pub struct HotspotExtent {
    pub cluster_id: String,
    /// The timeline positions of the concept's points, in order.
    pub positions: Vec<usize>,
    /// The sequence index of its first point.
    pub first_sequence_index: usize,
    /// The sequence index of its last point.
    pub last_sequence_index: usize,
}

/// The timeline positions, below `count`, of the points of `cluster_id`.
pub open spec fn cluster_positions(timeline: Seq<ClusterAssignment>, cluster_id: Seq<char>, count: int) -> Seq<int>
    decreases count,
{
    if count <= 0 {
        Seq::empty()
    } else if timeline[count - 1].cluster_id@ == cluster_id {
        cluster_positions(timeline, cluster_id, count - 1).push(count - 1)
    } else {
        cluster_positions(timeline, cluster_id, count - 1)
    }
}

/// The extents of the first `count` clusters that have a point on the
/// timeline: the cluster, its positions, and the sequence indices of its
/// first and last points.
pub open spec fn extents_of(
    timeline: Seq<ClusterAssignment>,
    sequence_indices: Seq<usize>,
    clusters: Seq<ClusterMembership>,
    count: int,
) -> Seq<(Seq<char>, Seq<int>, usize, usize)>
    decreases count,
{
    if count <= 0 {
        Seq::empty()
    } else {
        let earlier = extents_of(timeline, sequence_indices, clusters, count - 1);
        let id = clusters[count - 1].id@;
        let positions = cluster_positions(timeline, id, timeline.len() as int);
        if positions.len() == 0 {
            earlier
        } else {
            earlier.push((id, positions, sequence_indices[positions[0]], sequence_indices[positions.last()]))
        }
    }
}

/// The views of a list of extents.
pub open spec fn extent_views(extents: Seq<HotspotExtent>) -> Seq<(Seq<char>, Seq<int>, usize, usize)> {
    extents.map_values(
        |extent: HotspotExtent|
            (
                extent.cluster_id@,
                extent.positions@.map_values(|p: usize| p as int),
                extent.first_sequence_index,
                extent.last_sequence_index,
            ),
    )
}

proof fn lemma_cluster_positions_bounded(timeline: Seq<ClusterAssignment>, cluster_id: Seq<char>, count: int)
    requires
        0 <= count,
    ensures
        forall|k: int|
            0 <= k < cluster_positions(timeline, cluster_id, count).len() ==> 0 <= #[trigger] cluster_positions(
                timeline,
                cluster_id,
                count,
            )[k] < count,
    decreases count,
{
    if count > 0 {
        lemma_cluster_positions_bounded(timeline, cluster_id, count - 1);
        let earlier = cluster_positions(timeline, cluster_id, count - 1);
        let now = cluster_positions(timeline, cluster_id, count);
        assert forall|k: int| 0 <= k < now.len() implies 0 <= #[trigger] now[k] < count by {
            if k < earlier.len() {
                assert(now[k] == earlier[k]);
            }
        }
    }
}

fn positions_of_cluster(timeline: &[ClusterAssignment], cluster_id: &str) -> (positions: Vec<usize>)
    ensures
        positions@.map_values(|p: usize| p as int) == cluster_positions(timeline@, cluster_id@, timeline@.len() as int),
{
    let mut positions: Vec<usize> = Vec::new();
    let mut index: usize = 0;
    while index < timeline.len()
        invariant
            index <= timeline@.len(),
            positions@.map_values(|p: usize| p as int) == cluster_positions(timeline@, cluster_id@, index as int),
        decreases timeline@.len() - index,
    {
        let ghost before = positions@;
        if same_text(timeline[index].cluster_id.as_str(), cluster_id) {
            positions.push(index);
            proof {
                assert(positions@.map_values(|p: usize| p as int) =~= before.map_values(|p: usize| p as int).push(
                    index as int,
                ));
            }
        }
        index = index + 1;
    }
    positions
}

/// Where each concept is active along the timeline (`timeline[p]` has the
/// sequence index `sequence_indices[p]`): for each cluster in order that has
/// a point on the timeline, the positions of its points and the sequence
/// indices of its first and last points.
pub fn hotspot_extents(
    timeline: &[ClusterAssignment],
    sequence_indices: &[usize],
    clusters: &[ClusterMembership],
) -> (extents: Vec<HotspotExtent>)
    requires
        sequence_indices@.len() == timeline@.len(),
    ensures
        extent_views(extents@) == extents_of(timeline@, sequence_indices@, clusters@, clusters@.len() as int),
{
    let mut extents: Vec<HotspotExtent> = Vec::new();
    let mut c: usize = 0;
    while c < clusters.len()
        invariant
            c <= clusters@.len(),
            sequence_indices@.len() == timeline@.len(),
            extent_views(extents@) == extents_of(timeline@, sequence_indices@, clusters@, c as int),
        decreases clusters@.len() - c,
    {
        let cluster = &clusters[c];
        let positions = positions_of_cluster(timeline, cluster.id.as_str());
        proof {
            lemma_cluster_positions_bounded(timeline@, cluster.id@, timeline@.len() as int);
            assert(forall|k: int| 0 <= k < positions@.len() ==> positions@.map_values(|p: usize| p as int)[k] == positions@[k] as int);
        }
        if positions.len() > 0 {
            let first = sequence_indices[positions[0]];
            let last = sequence_indices[positions[positions.len() - 1]];
            let ghost before = extents@;
            let extent = HotspotExtent {
                cluster_id: cluster.id.clone(),
                positions,
                first_sequence_index: first,
                last_sequence_index: last,
            };
            extents.push(extent);
            proof {
                assert(extent_views(extents@) =~= extent_views(before).push(
                    (
                        extent.cluster_id@,
                        extent.positions@.map_values(|p: usize| p as int),
                        first,
                        last,
                    ),
                ));
            }
        }
        c = c + 1;
    }
    extents
}

} // verus!
