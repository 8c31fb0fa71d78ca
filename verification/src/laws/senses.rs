//! How word senses account for the occurrences of the target.

use vstd::prelude::*;

use crate::model::ClusterMembership;
use crate::senses::{
    is_sense_of, member_occurrences, occurrence_for, sensed_clusters, SemanticWordOccurrence,
    SemanticWordSense,
};

verus! {

/// Number of member units over all clusters.
pub open spec fn member_total(clusters: Seq<ClusterMembership>) -> nat
    decreases clusters.len(),
{
    if clusters.len() == 0 {
        0
    } else {
        member_total(clusters.drop_last()) + clusters.last().member_unit_ids@.len()
    }
}

/// Number of occurrences over all senses.
pub open spec fn sense_total(senses: Seq<SemanticWordSense>) -> nat
    decreases senses.len(),
{
    if senses.len() == 0 {
        0
    } else {
        sense_total(senses.drop_last()) + senses.last().occurrence_count as nat
    }
}

/// The clusters split the occurrences' units among them: every member and
/// every representative is the unit of an occurrence, and the clusters hold
/// as many members as there are occurrences.
pub open spec fn clusters_split_occurrences(
    occurrences: Seq<SemanticWordOccurrence>,
    clusters: Seq<ClusterMembership>,
) -> bool {
    &&& forall|c: int|
        0 <= c < clusters.len() ==> occurrence_for(
            occurrences,
            (#[trigger] clusters[c]).representative_unit_id@,
        ) is Some
    &&& forall|c: int, m: int|
        0 <= c < clusters.len() && 0 <= m < clusters[c].member_unit_ids@.len() ==> occurrence_for(
            occurrences,
            (#[trigger] clusters[c].member_unit_ids@[m])@,
        ) is Some
    &&& member_total(clusters) == occurrences.len()
}

proof fn lemma_all_sensed(occurrences: Seq<SemanticWordOccurrence>, clusters: Seq<ClusterMembership>)
    requires
        forall|c: int|
            0 <= c < clusters.len() ==> occurrence_for(
                occurrences,
                (#[trigger] clusters[c]).representative_unit_id@,
            ) is Some,
    ensures
        sensed_clusters(occurrences, clusters) == clusters,
    decreases clusters.len(),
{
    if clusters.len() > 0 {
        let shorter = clusters.drop_last();
        assert forall|c: int| 0 <= c < shorter.len() implies occurrence_for(
            occurrences,
            (#[trigger] shorter[c]).representative_unit_id@,
        ) is Some by {
            assert(shorter[c] == clusters[c]);
        }
        lemma_all_sensed(occurrences, shorter);
        assert(clusters.last() == clusters[clusters.len() - 1]);
        assert(shorter.push(clusters.last()) =~= clusters);
    }
}

proof fn lemma_members_found(occurrences: Seq<SemanticWordOccurrence>, members: Seq<String>)
    requires
        forall|m: int| 0 <= m < members.len() ==> occurrence_for(occurrences, (#[trigger] members[m])@) is Some,
    ensures
        member_occurrences(occurrences, members).len() == members.len(),
    decreases members.len(),
{
    if members.len() > 0 {
        let shorter = members.drop_last();
        assert forall|m: int| 0 <= m < shorter.len() implies occurrence_for(
            occurrences,
            (#[trigger] shorter[m])@,
        ) is Some by {
            assert(shorter[m] == members[m]);
        }
        lemma_members_found(occurrences, shorter);
        assert(members.last() == members[members.len() - 1]);
    }
}

proof fn lemma_sense_total(
    occurrences: Seq<SemanticWordOccurrence>,
    clusters: Seq<ClusterMembership>,
    senses: Seq<SemanticWordSense>,
)
    requires
        senses.len() == clusters.len(),
        forall|i: int| 0 <= i < senses.len() ==> is_sense_of(occurrences, clusters[i], #[trigger] senses[i]),
        forall|c: int, m: int|
            0 <= c < clusters.len() && 0 <= m < clusters[c].member_unit_ids@.len() ==> occurrence_for(
                occurrences,
                (#[trigger] clusters[c].member_unit_ids@[m])@,
            ) is Some,
    ensures
        sense_total(senses) == member_total(clusters),
    decreases senses.len(),
{
    if senses.len() > 0 {
        let last = senses.len() - 1;
        lemma_sense_total(occurrences, clusters.drop_last(), senses.drop_last());
        assert(is_sense_of(occurrences, clusters[last], senses[last]));
        let members = clusters[last].member_unit_ids@;
        assert forall|m: int| 0 <= m < members.len() implies occurrence_for(
            occurrences,
            (#[trigger] members[m])@,
        ) is Some by {
            assert(clusters[last].member_unit_ids@[m] == members[m]);
        }
        lemma_members_found(occurrences, members);
        assert(senses.last() == senses[last]);
        assert(clusters.last() == clusters[last]);
    }
}

/// When the clusters split the occurrences' units among them, every
/// occurrence of the target is counted in exactly one sense: the senses'
/// occurrence counts add up to the number of occurrences.
pub proof fn law_senses_account_for_every_occurrence(
    occurrences: Seq<SemanticWordOccurrence>,
    clusters: Seq<ClusterMembership>,
    senses: Seq<SemanticWordSense>,
)
    requires
        clusters_split_occurrences(occurrences, clusters),
        senses.len() == sensed_clusters(occurrences, clusters).len(),
        forall|i: int|
            0 <= i < senses.len() ==> is_sense_of(
                occurrences,
                sensed_clusters(occurrences, clusters)[i],
                #[trigger] senses[i],
            ),
    ensures
        sense_total(senses) == occurrences.len(),
{
    lemma_all_sensed(occurrences, clusters);
    lemma_sense_total(occurrences, clusters, senses);
}

} // verus!
