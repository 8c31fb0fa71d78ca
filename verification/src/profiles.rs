//! Per-speaker concept distributions: how many of a speaker's units each
//! concept holds, most frequent first.

use vstd::prelude::*;

use crate::chars::same_text;
use crate::corpus::SemanticCorpusItem;
use crate::dynamics::ConversationConceptUnit;
use crate::model::ClusterMembership;
use crate::order::{
    chars_less, insert_sorted, lemma_chars_less_asymmetric, lemma_chars_less_irreflexive,
    lemma_chars_less_total, lemma_chars_less_transitive, lemma_strictly_sorted_distinct, str_less,
    strictly_sorted, views_of,
};
use crate::whitespace::{trim_white_space, trimmed};

verus! {

/// How many of a speaker's units one concept holds.
#[derive(Debug, Clone, PartialEq, Eq)]
pub struct SpeakerConceptCount {
    pub cluster_id: String,
    pub unit_count: usize,
}

/// The concept distribution of one speaker.
#[derive(Debug, Clone, PartialEq, Eq)]
pub struct SpeakerProfile {
    pub speaker: String,
    pub unit_count: usize,
    pub concepts: Vec<SpeakerConceptCount>,
}

/// The unit is attributed to `speaker` and assigned to a concept.
pub open spec fn spoken_by(unit: ConversationConceptUnit, speaker: Seq<char>) -> bool {
    &&& unit.speaker matches Some(name) && name@ == speaker
    &&& unit.cluster_id is Some
}

/// Number of units of `speaker` assigned to `cluster_id`.
pub open spec fn speaker_concept_count(
    units: Seq<ConversationConceptUnit>,
    speaker: Seq<char>,
    cluster_id: Seq<char>,
) -> nat
    decreases units.len(),
{
    if units.len() == 0 {
        0
    } else {
        speaker_concept_count(units.drop_last(), speaker, cluster_id) + if spoken_by(
            units.last(),
            speaker,
        ) && units.last().cluster_id->0@ == cluster_id {
            1nat
        } else {
            0nat
        }
    }
}

/// Number of units of `speaker` assigned to any concept.
pub open spec fn speaker_unit_count(units: Seq<ConversationConceptUnit>, speaker: Seq<char>) -> nat
    decreases units.len(),
{
    if units.len() == 0 {
        0
    } else {
        speaker_unit_count(units.drop_last(), speaker) + if spoken_by(units.last(), speaker) {
            1nat
        } else {
            0nat
        }
    }
}

/// Order of a speaker's concepts: more units first, then ascending id.
pub open spec fn concept_ranks_before(first: SpeakerConceptCount, second: SpeakerConceptCount) -> bool {
    first.unit_count > second.unit_count || (first.unit_count == second.unit_count && chars_less(
        first.cluster_id@,
        second.cluster_id@,
    ))
}

/// The cluster ids of a list of concept counts.
pub open spec fn concept_ids(concepts: Seq<SpeakerConceptCount>) -> Seq<Seq<char>> {
    concepts.map_values(|concept: SpeakerConceptCount| concept.cluster_id@)
}

/// The speakers of a list of profiles.
pub open spec fn profile_speakers(profiles: Seq<SpeakerProfile>) -> Seq<Seq<char>> {
    profiles.map_values(|profile: SpeakerProfile| profile.speaker@)
}

/// `profile` is the concept distribution of its speaker over `units`.
pub open spec fn is_profile_of(units: Seq<ConversationConceptUnit>, profile: SpeakerProfile) -> bool {
    let speaker = profile.speaker@;
    &&& profile.unit_count == speaker_unit_count(units, speaker)
    &&& forall|i: int, j: int|
        #![trigger profile.concepts@[i], profile.concepts@[j]]
        0 <= i < j < profile.concepts@.len() ==> concept_ranks_before(
            profile.concepts@[i],
            profile.concepts@[j],
        )
    &&& forall|i: int|
        #![trigger profile.concepts@[i]]
        0 <= i < profile.concepts@.len() ==> profile.concepts@[i].unit_count
            == speaker_concept_count(units, speaker, profile.concepts@[i].cluster_id@)
    &&& forall|x: Seq<char>|
        #![trigger concept_ids(profile.concepts@).contains(x)]
        concept_ids(profile.concepts@).contains(x) <==> speaker_concept_count(units, speaker, x)
            > 0
}

proof fn lemma_concept_order(a: SpeakerConceptCount, b: SpeakerConceptCount, c: SpeakerConceptCount)
    ensures
        !concept_ranks_before(a, a),
        !(concept_ranks_before(a, b) && concept_ranks_before(b, a)),
        concept_ranks_before(a, b) && concept_ranks_before(b, c) ==> concept_ranks_before(a, c),
        a.cluster_id@ != b.cluster_id@ ==> concept_ranks_before(a, b) || concept_ranks_before(b, a),
{
    lemma_chars_less_irreflexive(a.cluster_id@);
    lemma_chars_less_asymmetric(a.cluster_id@, b.cluster_id@);
    lemma_chars_less_total(a.cluster_id@, b.cluster_id@);
    if chars_less(a.cluster_id@, b.cluster_id@) && chars_less(b.cluster_id@, c.cluster_id@) {
        lemma_chars_less_transitive(a.cluster_id@, b.cluster_id@, c.cluster_id@);
    }
}

proof fn lemma_counts_bounded(units: Seq<ConversationConceptUnit>, speaker: Seq<char>, cluster_id: Seq<char>)
    ensures
        speaker_concept_count(units, speaker, cluster_id) <= speaker_unit_count(units, speaker),
        speaker_unit_count(units, speaker) <= units.len(),
    decreases units.len(),
{
    if units.len() > 0 {
        lemma_counts_bounded(units.drop_last(), speaker, cluster_id);
    }
}

fn is_spoken_by(unit: &ConversationConceptUnit, speaker: &str) -> (spoken: bool)
    ensures
        spoken == spoken_by(*unit, speaker@),
{
    match (&unit.speaker, &unit.cluster_id) {
        (Some(name), Some(_)) => same_text(name.as_str(), speaker),
        _ => false,
    }
}

/// The counts of `speaker`: over all concepts, and for `cluster_id`.
fn count_speaker(units: &[ConversationConceptUnit], speaker: &str, cluster_id: &str) -> (counts: (
    usize,
    usize,
))
    ensures
        counts.0 == speaker_unit_count(units@, speaker@),
        counts.1 == speaker_concept_count(units@, speaker@, cluster_id@),
{
    let mut total: usize = 0;
    let mut count: usize = 0;
    let mut index: usize = 0;
    while index < units.len()
        invariant
            index <= units@.len(),
            total == speaker_unit_count(units@.take(index as int), speaker@),
            count == speaker_concept_count(units@.take(index as int), speaker@, cluster_id@),
        decreases units@.len() - index,
    {
        proof {
            assert(units@.take(index + 1).drop_last() =~= units@.take(index as int));
            lemma_counts_bounded(units@.take(index as int), speaker@, cluster_id@);
        }
        let unit = &units[index];
        if is_spoken_by(unit, speaker) {
            total = total + 1;
            match &unit.cluster_id {
                Some(id) => {
                    if same_text(id.as_str(), cluster_id) {
                        count = count + 1;
                    }
                },
                None => {},
            }
        }
        index = index + 1;
    }
    proof {
        assert(units@.take(index as int) =~= units@);
    }
    (total, count)
}

proof fn lemma_speaker_step(units: Seq<ConversationConceptUnit>, n: int, speaker: Seq<char>, cluster_id: Seq<char>)
    requires
        0 <= n < units.len(),
    ensures
        speaker_unit_count(units.take(n + 1), speaker) == speaker_unit_count(units.take(n), speaker)
            + if spoken_by(units[n], speaker) {
            1nat
        } else {
            0nat
        },
        speaker_concept_count(units.take(n + 1), speaker, cluster_id) == speaker_concept_count(
            units.take(n),
            speaker,
            cluster_id,
        ) + if spoken_by(units[n], speaker) && units[n].cluster_id->0@ == cluster_id {
            1nat
        } else {
            0nat
        },
{
    assert(units.take(n + 1).drop_last() =~= units.take(n));
}

/// The speakers with at least one unit assigned to a concept, sorted.
fn distinct_speakers(units: &[ConversationConceptUnit]) -> (speakers: Vec<String>)
    ensures
        strictly_sorted(views_of(speakers@)),
        forall|x: Seq<char>|
            #![trigger views_of(speakers@).contains(x)]
            views_of(speakers@).contains(x) <==> speaker_unit_count(units@, x) > 0,
{
    let mut speakers: Vec<String> = Vec::new();
    let mut index: usize = 0;
    proof {
        assert(views_of(speakers@) =~= Seq::<Seq<char>>::empty());
    }
    while index < units.len()
        invariant
            index <= units@.len(),
            strictly_sorted(views_of(speakers@)),
            forall|x: Seq<char>|
                #![trigger views_of(speakers@).contains(x)]
                views_of(speakers@).contains(x) <==> speaker_unit_count(units@.take(index as int), x)
                    > 0,
        decreases units@.len() - index,
    {
        let ghost before = views_of(speakers@);
        let unit = &units[index];
        match (&unit.speaker, &unit.cluster_id) {
            (Some(name), Some(_)) => {
                insert_sorted(&mut speakers, name.clone());
            },
            _ => {},
        }
        proof {
            assert forall|x: Seq<char>|
                #![trigger views_of(speakers@).contains(x)]
                views_of(speakers@).contains(x) <==> speaker_unit_count(units@.take(index + 1), x)
                    > 0 by {
                lemma_speaker_step(units@, index as int, x, x);
                assert(before.contains(x) <==> speaker_unit_count(units@.take(index as int), x) > 0);
            }
        }
        index = index + 1;
    }
    proof {
        assert(units@.take(index as int) =~= units@);
    }
    speakers
}

/// The concepts of `speaker`, sorted by id.
fn speaker_clusters(units: &[ConversationConceptUnit], speaker: &str) -> (clusters: Vec<String>)
    ensures
        strictly_sorted(views_of(clusters@)),
        forall|x: Seq<char>|
            #![trigger views_of(clusters@).contains(x)]
            views_of(clusters@).contains(x) <==> speaker_concept_count(units@, speaker@, x) > 0,
{
    let mut clusters: Vec<String> = Vec::new();
    let mut index: usize = 0;
    proof {
        assert(views_of(clusters@) =~= Seq::<Seq<char>>::empty());
    }
    while index < units.len()
        invariant
            index <= units@.len(),
            strictly_sorted(views_of(clusters@)),
            forall|x: Seq<char>|
                #![trigger views_of(clusters@).contains(x)]
                views_of(clusters@).contains(x) <==> speaker_concept_count(
                    units@.take(index as int),
                    speaker@,
                    x,
                ) > 0,
        decreases units@.len() - index,
    {
        let ghost before = views_of(clusters@);
        let unit = &units[index];
        if is_spoken_by(unit, speaker) {
            match &unit.cluster_id {
                Some(id) => {
                    insert_sorted(&mut clusters, id.clone());
                },
                None => {},
            }
        }
        proof {
            assert forall|x: Seq<char>|
                #![trigger views_of(clusters@).contains(x)]
                views_of(clusters@).contains(x) <==> speaker_concept_count(
                    units@.take(index + 1),
                    speaker@,
                    x,
                ) > 0 by {
                lemma_speaker_step(units@, index as int, speaker@, x);
                assert(before.contains(x) <==> speaker_concept_count(
                    units@.take(index as int),
                    speaker@,
                    x,
                ) > 0);
            }
        }
        index = index + 1;
    }
    proof {
        assert(units@.take(index as int) =~= units@);
    }
    clusters
}

/// The concept distribution of `speaker` over `units`.
fn speaker_profile(units: &[ConversationConceptUnit], speaker: &String) -> (profile: SpeakerProfile)
    ensures
        profile.speaker == *speaker,
        is_profile_of(units@, profile),
{
    let ids = speaker_clusters(units, speaker.as_str());
    let ghost id_views = views_of(ids@);
    proof {
        lemma_strictly_sorted_distinct(id_views);
    }
    let mut concepts: Vec<SpeakerConceptCount> = Vec::new();
    let (total, _) = count_speaker(units, speaker.as_str(), "");
    let mut k: usize = 0;
    while k < ids.len()
        invariant
            k <= ids@.len(),
            id_views == views_of(ids@),
            id_views.no_duplicates(),
            forall|x: Seq<char>|
                #![trigger id_views.contains(x)]
                id_views.contains(x) <==> speaker_concept_count(units@, speaker@, x) > 0,
            total == speaker_unit_count(units@, speaker@),
            forall|i: int, j: int|
                #![trigger concepts@[i], concepts@[j]]
                0 <= i < j < concepts@.len() ==> concept_ranks_before(concepts@[i], concepts@[j]),
            forall|i: int|
                #![trigger concepts@[i]]
                0 <= i < concepts@.len() ==> concepts@[i].unit_count == speaker_concept_count(
                    units@,
                    speaker@,
                    concepts@[i].cluster_id@,
                ),
            forall|x: Seq<char>|
                #![trigger concept_ids(concepts@).contains(x)]
                concept_ids(concepts@).contains(x) <==> id_views.take(k as int).contains(x),
        decreases ids@.len() - k,
    {
        let (_, count) = count_speaker(units, speaker.as_str(), ids[k].as_str());
        let mut position: usize = 0;
        while position < concepts.len() && (concepts[position].unit_count > count || (
        concepts[position].unit_count == count && str_less(
            concepts[position].cluster_id.as_str(),
            ids[k].as_str(),
        )))
            invariant
                position <= concepts@.len(),
                k < ids@.len(),
                forall|i: int|
                    #![trigger concepts@[i]]
                    0 <= i < position ==> concept_ranks_before(
                        concepts@[i],
                        SpeakerConceptCount { cluster_id: ids@[k as int], unit_count: count },
                    ),
            decreases concepts@.len() - position,
        {
            position = position + 1;
        }
        let fresh = SpeakerConceptCount { cluster_id: ids[k].clone(), unit_count: count };
        let ghost before = concepts@;
        proof {
            assert(id_views[k as int] == ids@[k as int]@);
            assert(!id_views.take(k as int).contains(ids@[k as int]@)) by {
                if id_views.take(k as int).contains(ids@[k as int]@) {
                    let t = choose|t: int|
                        0 <= t < id_views.take(k as int).len() && id_views.take(k as int)[t]
                            == ids@[k as int]@;
                    assert(id_views[t] == id_views[k as int]);
                }
            }
            assert forall|i: int|
                #![trigger before[i]]
                position <= i < before.len() implies concept_ranks_before(fresh, before[i]) by {
                let p = position as int;
                assert(!concept_ranks_before(before[p], fresh));
                assert(concept_ids(before)[p] == before[p].cluster_id@);
                assert(concept_ids(before).contains(before[p].cluster_id@));
                assert(id_views.take(k as int).contains(before[p].cluster_id@));
                assert(before[p].cluster_id@ != fresh.cluster_id@);
                lemma_concept_order(before[p], fresh, before[i]);
                lemma_concept_order(fresh, before[p], before[i]);
            }
        }
        concepts.insert(position, fresh);
        proof {
            let p = position as int;
            assert forall|i: int, j: int|
                #![trigger concepts@[i], concepts@[j]]
                0 <= i < j < concepts@.len() implies concept_ranks_before(concepts@[i], concepts@[j]) by {
                if j < p {
                    assert(concepts@[i] == before[i] && concepts@[j] == before[j]);
                } else if j == p {
                    assert(concepts@[i] == before[i]);
                } else if i < p {
                    assert(concepts@[i] == before[i] && concepts@[j] == before[j - 1]);
                    assert(concept_ranks_before(before[i], fresh));
                    assert(concept_ranks_before(fresh, before[j - 1]));
                    lemma_concept_order(before[i], fresh, before[j - 1]);
                } else if i == p {
                    assert(concepts@[j] == before[j - 1]);
                } else {
                    assert(concepts@[i] == before[i - 1] && concepts@[j] == before[j - 1]);
                }
            }
            assert forall|i: int|
                #![trigger concepts@[i]]
                0 <= i < concepts@.len() implies concepts@[i].unit_count == speaker_concept_count(
                    units@,
                    speaker@,
                    concepts@[i].cluster_id@,
                ) by {
                if i < p {
                    assert(concepts@[i] == before[i]);
                } else if i > p {
                    assert(concepts@[i] == before[i - 1]);
                }
            }
            assert(id_views.take(k + 1) =~= id_views.take(k as int).push(id_views[k as int]));
            assert forall|x: Seq<char>|
                #![trigger concept_ids(concepts@).contains(x)]
                concept_ids(concepts@).contains(x) <==> id_views.take(k + 1).contains(x) by {
                assert(concept_ids(concepts@) =~= concept_ids(before).insert(p, fresh.cluster_id@));
                let taken = id_views.take(k as int);
                if taken.contains(x) {
                    let t = choose|t: int| 0 <= t < taken.len() && taken[t] == x;
                    assert(id_views.take(k + 1)[t] == x);
                }
                let extended = id_views.take(k + 1);
                if extended.contains(x) && x != fresh.cluster_id@ {
                    let t = choose|t: int| 0 <= t < extended.len() && extended[t] == x;
                    assert(taken[t] == x);
                }
                assert(id_views.take(k + 1)[k as int] == fresh.cluster_id@);
                if concept_ids(before).contains(x) {
                    let t = choose|t: int|
                        0 <= t < concept_ids(before).len() && concept_ids(before)[t] == x;
                    if t < p {
                        assert(concept_ids(concepts@)[t] == x);
                    } else {
                        assert(concept_ids(concepts@)[t + 1] == x);
                    }
                }
                if concept_ids(concepts@).contains(x) && x != fresh.cluster_id@ {
                    let t = choose|t: int|
                        0 <= t < concept_ids(concepts@).len() && concept_ids(concepts@)[t] == x;
                    if t < p {
                        assert(concept_ids(before)[t] == x);
                    } else if t > p {
                        assert(concept_ids(before)[t - 1] == x);
                    }
                }
                assert(concept_ids(concepts@)[p] == fresh.cluster_id@);
            }
        }
        k = k + 1;
    }
    proof {
        assert(id_views.take(k as int) =~= id_views);
    }
    SpeakerProfile { speaker: speaker.clone(), unit_count: total, concepts }
}

/// The concept distribution of every speaker with at least one unit assigned
/// to a concept, in ascending order of speaker: the number of such units, and
/// each concept with its unit count, most units first, then ascending id.
pub fn speaker_profiles(units: &[ConversationConceptUnit]) -> (profiles: Vec<SpeakerProfile>)
    ensures
        strictly_sorted(profile_speakers(profiles@)),
        forall|x: Seq<char>|
            #![trigger profile_speakers(profiles@).contains(x)]
            profile_speakers(profiles@).contains(x) <==> speaker_unit_count(units@, x) > 0,
        forall|i: int| 0 <= i < profiles@.len() ==> is_profile_of(units@, #[trigger] profiles@[i]),
{
    let speakers = distinct_speakers(units);
    let mut profiles: Vec<SpeakerProfile> = Vec::new();
    let mut index: usize = 0;
    while index < speakers.len()
        invariant
            index <= speakers@.len(),
            profile_speakers(profiles@) == views_of(speakers@).take(index as int),
            forall|i: int| 0 <= i < profiles@.len() ==> is_profile_of(units@, #[trigger] profiles@[i]),
        decreases speakers@.len() - index,
    {
        let profile = speaker_profile(units, &speakers[index]);
        let ghost before = profiles@;
        profiles.push(profile);
        proof {
            assert(profile_speakers(profiles@) =~= profile_speakers(before).push(
                speakers@[index as int]@,
            ));
            assert(views_of(speakers@).take(index + 1) =~= views_of(speakers@).take(
                index as int,
            ).push(speakers@[index as int]@));
            assert forall|i: int| 0 <= i < profiles@.len() implies is_profile_of(
                units@,
                #[trigger] profiles@[i],
            ) by {
                if i < before.len() {
                    assert(profiles@[i] == before[i]);
                }
            }
        }
        index = index + 1;
    }
    proof {
        assert(views_of(speakers@).take(index as int) =~= views_of(speakers@));
    }
    profiles
}

/// What corpus analysis reports of one author: the positions of the author's
/// items, their number, the author's semantic units, and the author's
/// concepts among the supported ones.
#[derive(Debug, Clone, PartialEq, Eq)]
pub struct AuthorProfile {
    pub author: String,
    pub item_positions: Vec<usize>,
    pub item_count: usize,
    pub semantic_unit_count: usize,
    pub concepts: Vec<SpeakerConceptCount>,
}

/// The item is attributed to `author` once white space is trimmed.
pub open spec fn written_by(item: SemanticCorpusItem, author: Seq<char>) -> bool {
    item.author matches Some(name) && trimmed(name@) == author
}

/// Positions of the items written by `author`, in ascending order.
pub open spec fn author_positions(items: Seq<SemanticCorpusItem>, author: Seq<char>) -> Seq<usize>
    decreases items.len(),
{
    if items.len() == 0 {
        Seq::empty()
    } else {
        let earlier = author_positions(items.drop_last(), author);
        if written_by(items.last(), author) {
            earlier.push((items.len() - 1) as usize)
        } else {
            earlier
        }
    }
}

/// The profile recorded for `speaker`; when several are, the last of them.
pub open spec fn profile_for(profiles: Seq<SpeakerProfile>, speaker: Seq<char>) -> Option<SpeakerProfile>
    decreases profiles.len(),
{
    if profiles.len() == 0 {
        None
    } else if profiles.last().speaker@ == speaker {
        Some(profiles.last())
    } else {
        profile_for(profiles.drop_last(), speaker)
    }
}

/// Some cluster named `cluster_id` has at least `min_members` members.
pub open spec fn is_supported(clusters: Seq<ClusterMembership>, cluster_id: Seq<char>, min_members: usize) -> bool {
    exists|c: int|
        0 <= c < clusters.len() && (#[trigger] clusters[c]).id@ == cluster_id
            && clusters[c].member_unit_ids@.len() >= min_members
}

/// The concepts among `concepts` whose cluster is supported, in order.
pub open spec fn supported_concepts(
    concepts: Seq<SpeakerConceptCount>,
    clusters: Seq<ClusterMembership>,
    min_members: usize,
) -> Seq<SpeakerConceptCount>
    decreases concepts.len(),
{
    if concepts.len() == 0 {
        Seq::empty()
    } else {
        let earlier = supported_concepts(concepts.drop_last(), clusters, min_members);
        if is_supported(clusters, concepts.last().cluster_id@, min_members) {
            earlier.push(concepts.last())
        } else {
            earlier
        }
    }
}

/// The authors of a list of author profiles.
pub open spec fn profile_authors(profiles: Seq<AuthorProfile>) -> Seq<Seq<char>> {
    profiles.map_values(|profile: AuthorProfile| profile.author@)
}

/// `profile` is what corpus analysis reports of its author.
pub open spec fn is_author_profile_of(
    items: Seq<SemanticCorpusItem>,
    speakers: Seq<SpeakerProfile>,
    clusters: Seq<ClusterMembership>,
    min_members: usize,
    profile: AuthorProfile,
) -> bool {
    let author = profile.author@;
    &&& profile.item_positions@ == author_positions(items, author)
    &&& profile.item_count == profile.item_positions@.len()
    &&& match profile_for(speakers, author) {
        Some(found) => {
            &&& profile.semantic_unit_count == found.unit_count
            &&& profile.concepts@ == supported_concepts(found.concepts@, clusters, min_members)
        },
        None => profile.semantic_unit_count == 0 && profile.concepts@.len() == 0,
    }
}

fn copy_concept(concept: &SpeakerConceptCount) -> (copy: SpeakerConceptCount)
    ensures
        copy == *concept,
{
    SpeakerConceptCount { cluster_id: concept.cluster_id.clone(), unit_count: concept.unit_count }
}

fn supported(clusters: &[ClusterMembership], cluster_id: &str, min_members: usize) -> (found: bool)
    ensures
        found == is_supported(clusters@, cluster_id@, min_members),
{
    let mut index: usize = 0;
    while index < clusters.len()
        invariant
            index <= clusters@.len(),
            forall|c: int|
                0 <= c < index ==> !((#[trigger] clusters@[c]).id@ == cluster_id@
                    && clusters@[c].member_unit_ids@.len() >= min_members),
        decreases clusters@.len() - index,
    {
        if clusters[index].member_unit_ids.len() >= min_members && same_text(
            clusters[index].id.as_str(),
            cluster_id,
        ) {
            return true;
        }
        index = index + 1;
    }
    false
}

fn find_profile(speakers: &[SpeakerProfile], author: &str) -> (found: Option<usize>)
    ensures
        match found {
            Some(k) => k < speakers@.len() && profile_for(speakers@, author@) == Some(
                speakers@[k as int],
            ),
            None => profile_for(speakers@, author@) is None,
        },
{
    let mut found: Option<usize> = None;
    let mut index: usize = 0;
    while index < speakers.len()
        invariant
            index <= speakers@.len(),
            match found {
                Some(k) => k < index && profile_for(speakers@.take(index as int), author@) == Some(
                    speakers@[k as int],
                ),
                None => profile_for(speakers@.take(index as int), author@) is None,
            },
        decreases speakers@.len() - index,
    {
        proof {
            assert(speakers@.take(index + 1).drop_last() =~= speakers@.take(index as int));
        }
        if same_text(speakers[index].speaker.as_str(), author) {
            found = Some(index);
        }
        index = index + 1;
    }
    proof {
        assert(speakers@.take(index as int) =~= speakers@);
    }
    found
}

fn written_by_exec(item: &SemanticCorpusItem, author: &str) -> (written: bool)
    ensures
        written == written_by(*item, author@),
{
    match item.author {
        Some(name) => {
            let name = trim_white_space(name);
            same_text(name.as_str(), author)
        },
        None => false,
    }
}

/// The authors of the items, trimmed, sorted and each once.
fn distinct_authors(items: &[SemanticCorpusItem]) -> (authors: Vec<String>)
    ensures
        strictly_sorted(views_of(authors@)),
        forall|x: Seq<char>|
            #![trigger views_of(authors@).contains(x)]
            views_of(authors@).contains(x) <==> author_positions(items@, x).len() > 0,
{
    let mut authors: Vec<String> = Vec::new();
    let mut index: usize = 0;
    proof {
        assert(views_of(authors@) =~= Seq::<Seq<char>>::empty());
    }
    while index < items.len()
        invariant
            index <= items@.len(),
            strictly_sorted(views_of(authors@)),
            forall|x: Seq<char>|
                #![trigger views_of(authors@).contains(x)]
                views_of(authors@).contains(x) <==> author_positions(items@.take(index as int), x).len()
                    > 0,
        decreases items@.len() - index,
    {
        let ghost before = views_of(authors@);
        proof {
            assert(items@.take(index + 1).drop_last() =~= items@.take(index as int));
        }
        match items[index].author {
            Some(name) => {
                insert_sorted(&mut authors, trim_white_space(name));
            },
            None => {},
        }
        proof {
            assert forall|x: Seq<char>|
                #![trigger views_of(authors@).contains(x)]
                views_of(authors@).contains(x) <==> author_positions(items@.take(index + 1), x).len()
                    > 0 by {
                assert(before.contains(x) <==> author_positions(items@.take(index as int), x).len()
                    > 0);
                assert(items@.take(index + 1).last() == items@[index as int]);
            }
        }
        index = index + 1;
    }
    proof {
        assert(items@.take(index as int) =~= items@);
    }
    authors
}

fn positions_of(items: &[SemanticCorpusItem], author: &str) -> (positions: Vec<usize>)
    ensures
        positions@ == author_positions(items@, author@),
{
    let mut positions: Vec<usize> = Vec::new();
    let mut index: usize = 0;
    while index < items.len()
        invariant
            index <= items@.len(),
            positions@ == author_positions(items@.take(index as int), author@),
        decreases items@.len() - index,
    {
        proof {
            assert(items@.take(index + 1).drop_last() =~= items@.take(index as int));
        }
        if written_by_exec(&items[index], author) {
            positions.push(index);
        }
        index = index + 1;
    }
    proof {
        assert(items@.take(index as int) =~= items@);
    }
    positions
}

fn kept_concepts(concepts: &Vec<SpeakerConceptCount>, clusters: &[ClusterMembership], min_members: usize) -> (kept:
    Vec<SpeakerConceptCount>)
    ensures
        kept@ == supported_concepts(concepts@, clusters@, min_members),
{
    let mut kept: Vec<SpeakerConceptCount> = Vec::new();
    let mut index: usize = 0;
    while index < concepts.len()
        invariant
            index <= concepts@.len(),
            kept@ == supported_concepts(concepts@.take(index as int), clusters@, min_members),
        decreases concepts@.len() - index,
    {
        proof {
            assert(concepts@.take(index + 1).drop_last() =~= concepts@.take(index as int));
        }
        if supported(clusters, concepts[index].cluster_id.as_str(), min_members) {
            kept.push(copy_concept(&concepts[index]));
        }
        index = index + 1;
    }
    proof {
        assert(concepts@.take(index as int) =~= concepts@);
    }
    kept
}

/// One profile per author of the items, in ascending order of the trimmed
/// author: the positions and number of the author's items, and, from the
/// author's speaker profile when there is one, the semantic unit count and
/// the concepts whose cluster has at least `min_members` members.
pub fn author_profiles(
    items: &[SemanticCorpusItem],
    speakers: &[SpeakerProfile],
    clusters: &[ClusterMembership],
    min_members: usize,
) -> (profiles: Vec<AuthorProfile>)
    ensures
        strictly_sorted(profile_authors(profiles@)),
        forall|x: Seq<char>|
            #![trigger profile_authors(profiles@).contains(x)]
            profile_authors(profiles@).contains(x) <==> author_positions(items@, x).len() > 0,
        forall|i: int|
            0 <= i < profiles@.len() ==> is_author_profile_of(
                items@,
                speakers@,
                clusters@,
                min_members,
                #[trigger] profiles@[i],
            ),
{
    let authors = distinct_authors(items);
    let mut profiles: Vec<AuthorProfile> = Vec::new();
    let mut index: usize = 0;
    while index < authors.len()
        invariant
            index <= authors@.len(),
            profile_authors(profiles@) == views_of(authors@).take(index as int),
            forall|i: int|
                0 <= i < profiles@.len() ==> is_author_profile_of(
                    items@,
                    speakers@,
                    clusters@,
                    min_members,
                    #[trigger] profiles@[i],
                ),
        decreases authors@.len() - index,
    {
        let author = authors[index].as_str();
        let positions = positions_of(items, author);
        let item_count = positions.len();
        let (semantic_unit_count, concepts) = match find_profile(speakers, author) {
            Some(k) => (
                speakers[k].unit_count,
                kept_concepts(&speakers[k].concepts, clusters, min_members),
            ),
            None => (0, Vec::new()),
        };
        let ghost before = profiles@;
        profiles.push(
            AuthorProfile {
                author: authors[index].clone(),
                item_positions: positions,
                item_count,
                semantic_unit_count,
                concepts,
            },
        );
        proof {
            assert(profile_authors(profiles@) =~= profile_authors(before).push(
                authors@[index as int]@,
            ));
            assert(views_of(authors@).take(index + 1) =~= views_of(authors@).take(
                index as int,
            ).push(authors@[index as int]@));
            assert forall|i: int|
                0 <= i < profiles@.len() implies is_author_profile_of(
                items@,
                speakers@,
                clusters@,
                min_members,
                #[trigger] profiles@[i],
            ) by {
                if i < before.len() {
                    assert(profiles@[i] == before[i]);
                }
            }
        }
        index = index + 1;
    }
    proof {
        assert(views_of(authors@).take(index as int) =~= views_of(authors@));
    }
    profiles
}

} // verus!
