//! How the corpus concepts account for the clustered units.

use vstd::prelude::*;

use crate::corpus::PassageUnit;
use crate::evidence::{
    alphabetic, clustered_units, evidenced_clusters, is_key_term_candidate, key_term_candidates,
    passage_unit_for, units_below_support, ConceptTerm,
};
use crate::laws::senses::member_total;
use crate::model::ClusterMembership;

verus! {

/// Every cluster with enough members to be a concept has its representative
/// among the recorded units.
pub open spec fn supported_clusters_represented(
    units: Seq<PassageUnit>,
    clusters: Seq<ClusterMembership>,
    min_members: usize,
) -> bool {
    forall|c: int|
        0 <= c < clusters.len() && (#[trigger] clusters[c]).member_unit_ids@.len() >= min_members
            ==> passage_unit_for(units, clusters[c].representative_unit_id@) is Some
}

/// When every supported cluster's representative is recorded, the units of
/// the concepts and the units counted as outside any concept add up to all
/// clustered units: each clustered unit is either in a concept or counted by
/// `non_concept_unit_count`, never both.
pub proof fn law_concept_units_and_the_rest_add_up(
    units: Seq<PassageUnit>,
    clusters: Seq<ClusterMembership>,
    min_members: usize,
)
    requires
        supported_clusters_represented(units, clusters, min_members),
    ensures
        member_total(evidenced_clusters(units, clusters, min_members)) + units_below_support(
            clusters,
            min_members,
        ) == clustered_units(clusters),
    decreases clusters.len(),
{
    if clusters.len() > 0 {
        let shorter = clusters.drop_last();
        assert forall|c: int|
            0 <= c < shorter.len() && (#[trigger] shorter[c]).member_unit_ids@.len() >= min_members
                implies passage_unit_for(units, shorter[c].representative_unit_id@) is Some by {
            assert(shorter[c] == clusters[c]);
        }
        law_concept_units_and_the_rest_add_up(units, shorter, min_members);
        assert(clusters.last() == clusters[clusters.len() - 1]);
        let kept = evidenced_clusters(units, clusters, min_members);
        let earlier = evidenced_clusters(units, shorter, min_members);
        if clusters.last().member_unit_ids@.len() >= min_members {
            assert(kept == earlier.push(clusters.last()));
            assert(kept.drop_last() =~= earlier);
        } else {
            assert(kept == earlier);
        }
    }
}

proof fn lemma_candidates_members(terms: Seq<ConceptTerm>, total_primary_units: usize, term: ConceptTerm)
    ensures
        key_term_candidates(terms, total_primary_units).contains(term) <==> terms.contains(term)
            && is_key_term_candidate(term, total_primary_units),
    decreases terms.len(),
{
    if terms.len() > 0 {
        let shorter = terms.drop_last();
        lemma_candidates_members(shorter, total_primary_units, term);
        let earlier = key_term_candidates(shorter, total_primary_units);
        let now = key_term_candidates(terms, total_primary_units);
        assert(terms == shorter.push(terms.last()));
        if terms.contains(term) && !shorter.contains(term) {
            let k = choose|k: int| 0 <= k < terms.len() && terms[k] == term;
            if k < shorter.len() {
                assert(shorter[k] == term);
            }
        }
        if shorter.contains(term) {
            let k = choose|k: int| 0 <= k < shorter.len() && shorter[k] == term;
            assert(terms[k] == term);
        }
        if is_key_term_candidate(terms.last(), total_primary_units) {
            assert(now == earlier.push(terms.last()));
            if earlier.contains(term) {
                let k = choose|k: int| 0 <= k < earlier.len() && earlier[k] == term;
                assert(now[k] == term);
            }
            if now.contains(term) && term != terms.last() {
                let k = choose|k: int| 0 <= k < now.len() && now[k] == term;
                assert(earlier[k] == term);
            }
            assert(now[earlier.len() as int] == terms.last());
            assert(terms[terms.len() - 1] == terms.last());
        } else {
            assert(now == earlier);
            assert(terms[terms.len() - 1] == terms.last());
        }
    }
}

/// A term of a cluster becomes a key-term candidate exactly when it has at
/// least two characters, at least one of its characters, at any position,
/// is alphabetic, and it is not near-ubiquitous: not in at least four fifths
/// of the primary units when there are at least five.
pub proof fn law_key_term_candidates_need_a_letter_anywhere(
    terms: Seq<ConceptTerm>,
    total_primary_units: usize,
    k: int,
)
    requires
        0 <= k < terms.len(),
    ensures
        key_term_candidates(terms, total_primary_units).contains(terms[k]) <==> {
            &&& terms[k].term@.len() >= 2
            &&& exists|i: int| 0 <= i < terms[k].term@.len() && alphabetic(#[trigger] terms[k].term@[i])
            &&& !(total_primary_units >= 5 && terms[k].document_count * 5 >= total_primary_units * 4)
        },
{
    lemma_candidates_members(terms, total_primary_units, terms[k]);
    assert(terms.contains(terms[k]));
}

/// Every key-term candidate is one of the cluster's terms.
pub proof fn law_key_term_candidates_come_from_the_terms(
    terms: Seq<ConceptTerm>,
    total_primary_units: usize,
    candidate: ConceptTerm,
)
    ensures
        key_term_candidates(terms, total_primary_units).contains(candidate) ==> terms.contains(candidate),
{
    lemma_candidates_members(terms, total_primary_units, candidate);
}

} // verus!
