//! Properties of concept introductions, adoptions, handoffs and recurrences.

use vstd::prelude::*;

use crate::dynamics::{
    adopted_pairs, adoptions_of, handoffs_of, introduced_clusters, introduction_for,
    introductions_of, non_adjacent_returns, recurring_entry, ConceptIntroduction,
    ConversationConceptUnit, RecurringConcept,
};

verus! {

/// Each concept is introduced at most once.
pub proof fn law_introductions_are_distinct(units: Seq<ConversationConceptUnit>)
    ensures
        introduced_clusters(introductions_of(units)).no_duplicates(),
    decreases units.len(),
{
    if units.len() > 0 {
        let earlier = introductions_of(units.drop_last());
        law_introductions_are_distinct(units.drop_last());
        let current = introductions_of(units);
        if current != earlier {
            let added = current.last();
            assert(current == earlier.push(added));
            assert(introduced_clusters(current) =~= introduced_clusters(earlier).push(
                added.cluster_id@,
            ));
            assert(!introduced_clusters(earlier).contains(added.cluster_id@));
        }
    }
}

proof fn lemma_introduction_for_push(
    introductions: Seq<ConceptIntroduction>,
    added: ConceptIntroduction,
    cluster_id: Seq<char>,
)
    requires
        introduction_for(introductions, cluster_id) is Some,
    ensures
        introduction_for(introductions.push(added), cluster_id) == introduction_for(
            introductions,
            cluster_id,
        ),
    decreases introductions.len(),
{
    let extended = introductions.push(added);
    assert(extended[0] == introductions[0]);
    if introductions[0].cluster_id@ != cluster_id {
        assert(extended.drop_first() =~= introductions.drop_first().push(added));
        lemma_introduction_for_push(introductions.drop_first(), added, cluster_id);
    }
}

proof fn lemma_introductions_extend(units: Seq<ConversationConceptUnit>, cluster_id: Seq<char>)
    requires
        units.len() > 0,
        introduction_for(introductions_of(units.drop_last()), cluster_id) is Some,
    ensures
        introduction_for(introductions_of(units), cluster_id) == introduction_for(
            introductions_of(units.drop_last()),
            cluster_id,
        ),
{
    let earlier = introductions_of(units.drop_last());
    let current = introductions_of(units);
    if current != earlier {
        assert(current == earlier.push(current.last()));
        lemma_introduction_for_push(earlier, current.last(), cluster_id);
    }
}

/// Every adoption is by a speaker other than the concept's introducer, and
/// names the speaker that the introductions record for that concept.
pub proof fn law_adoption_follows_introduction(units: Seq<ConversationConceptUnit>)
    ensures
        forall|i: int|
            #![trigger adoptions_of(units)[i]]
            0 <= i < adoptions_of(units).len() ==> {
                let adoption = adoptions_of(units)[i];
                &&& adoption.introduced_by@ != adoption.adopted_by@
                &&& introduction_for(introductions_of(units), adoption.cluster_id@) matches Some(
                    introduction,
                ) && introduction.speaker == adoption.introduced_by
            },
    decreases units.len(),
{
    if units.len() > 0 {
        let earlier = adoptions_of(units.drop_last());
        law_adoption_follows_introduction(units.drop_last());
        let current = adoptions_of(units);
        assert forall|i: int|
            #![trigger adoptions_of(units)[i]]
            0 <= i < current.len() implies {
                let adoption = adoptions_of(units)[i];
                &&& adoption.introduced_by@ != adoption.adopted_by@
                &&& introduction_for(introductions_of(units), adoption.cluster_id@) matches Some(
                    introduction,
                ) && introduction.speaker == adoption.introduced_by
            } by {
            if i < earlier.len() {
                assert(current[i] == earlier[i]);
                lemma_introductions_extend(units, earlier[i].cluster_id@);
            } else {
                lemma_introductions_extend(units, current[i].cluster_id@);
            }
        }
    }
}

/// A speaker adopts a concept at most once.
pub proof fn law_adoptions_are_distinct(units: Seq<ConversationConceptUnit>)
    ensures
        adopted_pairs(adoptions_of(units)).no_duplicates(),
    decreases units.len(),
{
    if units.len() > 0 {
        let earlier = adoptions_of(units.drop_last());
        law_adoptions_are_distinct(units.drop_last());
        let current = adoptions_of(units);
        if current != earlier {
            let added = current.last();
            assert(current == earlier.push(added));
            assert(adopted_pairs(current) =~= adopted_pairs(earlier).push(
                (added.cluster_id@, added.adopted_by@),
            ));
        }
    }
}

/// Every handoff changes both the speaker and the concept.
pub proof fn law_handoffs_change_speaker_and_concept(units: Seq<ConversationConceptUnit>)
    ensures
        forall|i: int|
            #![trigger handoffs_of(units)[i]]
            0 <= i < handoffs_of(units).len() ==> handoffs_of(units)[i].from_speaker@
                != handoffs_of(units)[i].to_speaker@ && handoffs_of(units)[i].from_cluster_id@
                != handoffs_of(units)[i].to_cluster_id@,
    decreases units.len(),
{
    if units.len() >= 2 {
        law_handoffs_change_speaker_and_concept(units.drop_last());
        let earlier = handoffs_of(units.drop_last());
        let current = handoffs_of(units);
        assert forall|i: int| 0 <= i < current.len() implies #[trigger] current[i].from_speaker@
            != current[i].to_speaker@ && current[i].from_cluster_id@
            != current[i].to_cluster_id@ by {
            if i < earlier.len() {
                assert(current[i] == earlier[i]);
            }
        }
    }
}

proof fn lemma_returns_below_occurrences(indices: Seq<usize>)
    requires
        indices.len() >= 1,
    ensures
        non_adjacent_returns(indices) < indices.len(),
    decreases indices.len(),
{
    if indices.len() >= 2 {
        lemma_returns_below_occurrences(indices.drop_last());
    }
}

/// A recurring concept occurs at least twice, and fewer of its returns come
/// after an intervening turn than it has occurrences.
pub proof fn law_recurring_counts(units: Seq<ConversationConceptUnit>, entry: RecurringConcept)
    requires
        recurring_entry(units, entry),
    ensures
        entry.occurrence_count >= 2,
        entry.non_adjacent_return_count < entry.occurrence_count,
{
    lemma_returns_below_occurrences(crate::dynamics::cluster_indices(units, entry.cluster_id@));
}

} // verus!
