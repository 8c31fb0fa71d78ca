//! Properties of per-speaker concept distributions.

use vstd::prelude::*;

use crate::dynamics::ConversationConceptUnit;
use crate::order::lemma_chars_less_irreflexive;
use crate::profiles::{
    concept_ids, concept_ranks_before, is_profile_of, speaker_concept_count, speaker_unit_count,
    spoken_by, SpeakerConceptCount, SpeakerProfile,
};

verus! {

/// The total of the unit counts of a list of concepts.
pub open spec fn total_units(concepts: Seq<SpeakerConceptCount>) -> nat
    decreases concepts.len(),
{
    if concepts.len() == 0 {
        0
    } else {
        total_units(concepts.drop_last()) + concepts.last().unit_count as nat
    }
}

spec fn counts_over(units: Seq<ConversationConceptUnit>, speaker: Seq<char>, ids: Seq<Seq<char>>) -> nat
    decreases ids.len(),
{
    if ids.len() == 0 {
        0
    } else {
        counts_over(units, speaker, ids.drop_last()) + speaker_concept_count(
            units,
            speaker,
            ids.last(),
        )
    }
}

spec fn occurrences_of(ids: Seq<Seq<char>>, id: Seq<char>) -> nat
    decreases ids.len(),
{
    if ids.len() == 0 {
        0
    } else {
        occurrences_of(ids.drop_last(), id) + if ids.last() == id {
            1nat
        } else {
            0nat
        }
    }
}

proof fn lemma_counts_over_step(units: Seq<ConversationConceptUnit>, speaker: Seq<char>, ids: Seq<Seq<char>>)
    requires
        units.len() > 0,
    ensures
        counts_over(units, speaker, ids) == counts_over(units.drop_last(), speaker, ids) + if spoken_by(
            units.last(),
            speaker,
        ) {
            occurrences_of(ids, units.last().cluster_id->0@)
        } else {
            0
        },
    decreases ids.len(),
{
    if ids.len() > 0 {
        lemma_counts_over_step(units, speaker, ids.drop_last());
    }
}

proof fn lemma_single_occurrence(ids: Seq<Seq<char>>, id: Seq<char>)
    requires
        ids.no_duplicates(),
    ensures
        occurrences_of(ids, id) == if ids.contains(id) {
            1nat
        } else {
            0nat
        },
    decreases ids.len(),
{
    if ids.len() > 0 {
        let shorter = ids.drop_last();
        assert forall|i: int, j: int| 0 <= i < shorter.len() && 0 <= j < shorter.len() && i != j implies shorter[i]
            != shorter[j] by {
            assert(shorter[i] == ids[i] && shorter[j] == ids[j]);
        }
        lemma_single_occurrence(shorter, id);
        if ids.last() == id {
            if shorter.contains(id) {
                let t = choose|t: int| 0 <= t < shorter.len() && shorter[t] == id;
                assert(ids[t] == ids[ids.len() - 1]);
            }
            assert(ids[ids.len() - 1] == id);
        } else {
            if ids.contains(id) {
                let t = choose|t: int| 0 <= t < ids.len() && ids[t] == id;
                assert(shorter[t] == id);
            }
            if shorter.contains(id) {
                let t = choose|t: int| 0 <= t < shorter.len() && shorter[t] == id;
                assert(ids[t] == id);
            }
        }
    }
}

proof fn lemma_counts_over_empty(units: Seq<ConversationConceptUnit>, speaker: Seq<char>, ids: Seq<Seq<char>>)
    requires
        units.len() == 0,
    ensures
        counts_over(units, speaker, ids) == 0,
    decreases ids.len(),
{
    if ids.len() > 0 {
        lemma_counts_over_empty(units, speaker, ids.drop_last());
    }
}

proof fn lemma_counts_cover_units(units: Seq<ConversationConceptUnit>, speaker: Seq<char>, ids: Seq<Seq<char>>)
    requires
        ids.no_duplicates(),
        forall|x: Seq<char>| #![trigger ids.contains(x)] speaker_concept_count(units, speaker, x) > 0 ==> ids.contains(x),
    ensures
        counts_over(units, speaker, ids) == speaker_unit_count(units, speaker),
    decreases units.len(),
{
    if units.len() == 0 {
        lemma_counts_over_empty(units, speaker, ids);
    } else {
        let shorter = units.drop_last();
        assert forall|x: Seq<char>| #![trigger ids.contains(x)] speaker_concept_count(shorter, speaker, x) > 0 implies ids.contains(x) by {
            assert(speaker_concept_count(units, speaker, x) >= speaker_concept_count(shorter, speaker, x));
        }
        lemma_counts_cover_units(shorter, speaker, ids);
        lemma_counts_over_step(units, speaker, ids);
        if spoken_by(units.last(), speaker) {
            let c = units.last().cluster_id->0@;
            assert(speaker_concept_count(units, speaker, c) > 0);
            assert(ids.contains(c));
            lemma_single_occurrence(ids, c);
        }
    }
}

proof fn lemma_total_units_is_counts_over(
    units: Seq<ConversationConceptUnit>,
    speaker: Seq<char>,
    concepts: Seq<SpeakerConceptCount>,
)
    requires
        forall|i: int|
            #![trigger concepts[i]]
            0 <= i < concepts.len() ==> concepts[i].unit_count == speaker_concept_count(
                units,
                speaker,
                concepts[i].cluster_id@,
            ),
    ensures
        total_units(concepts) == counts_over(units, speaker, concept_ids(concepts)),
    decreases concepts.len(),
{
    if concepts.len() > 0 {
        let shorter = concepts.drop_last();
        assert(concept_ids(shorter) =~= concept_ids(concepts).drop_last());
        assert forall|i: int|
            #![trigger shorter[i]]
            0 <= i < shorter.len() implies shorter[i].unit_count == speaker_concept_count(
                units,
                speaker,
                shorter[i].cluster_id@,
            ) by {
            assert(shorter[i] == concepts[i]);
        }
        lemma_total_units_is_counts_over(units, speaker, shorter);
        assert(concepts[concepts.len() - 1] == concepts.last());
    }
}

/// The concept counts of a speaker's profile add up to the speaker's units:
/// every unit of the speaker with a concept is counted under exactly one of
/// the listed concepts.
pub proof fn law_profile_counts_add_up(units: Seq<ConversationConceptUnit>, profile: SpeakerProfile)
    requires
        is_profile_of(units, profile),
    ensures
        total_units(profile.concepts@) == profile.unit_count,
{
    let speaker = profile.speaker@;
    let concepts = profile.concepts@;
    let ids = concept_ids(concepts);
    assert forall|i: int, j: int| 0 <= i < ids.len() && 0 <= j < ids.len() && i != j implies ids[i]
        != ids[j] by {
        if ids[i] == ids[j] {
            assert(concepts[i].unit_count == concepts[j].unit_count);
            lemma_chars_less_irreflexive(ids[i]);
            if i < j {
                assert(concept_ranks_before(concepts[i], concepts[j]));
            } else {
                assert(concept_ranks_before(concepts[j], concepts[i]));
            }
        }
    }
    lemma_total_units_is_counts_over(units, speaker, concepts);
    lemma_counts_cover_units(units, speaker, ids);
}

} // verus!
