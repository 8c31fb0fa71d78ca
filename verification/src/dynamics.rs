//! Conversation concept dynamics: who introduces a concept, who adopts it,
//! where adjacent speakers hand one concept over to another, and which
//! concepts return after other turns.

use vstd::prelude::*;

use crate::chars::same_text;
use crate::model::ClusterAssignment;
use crate::units::StructuralUnit;
use crate::order::{chars_less, insert_sorted, strictly_sorted, views_of};

verus! {

/// One primary conversation unit with the concept cluster it was assigned to.
#[derive(Debug, Clone, PartialEq, Eq)]
pub struct ConversationConceptUnit {
    pub unit_id: String,
    pub speaker: Option<String>,
    pub sequence_index: usize,
    pub cluster_id: Option<String>,
}

/// First observed use of a deterministic concept by a speaker.
#[derive(Debug, Clone, PartialEq, Eq)]
pub struct ConceptIntroduction {
    pub cluster_id: String,
    pub speaker: String,
    pub sequence_index: usize,
}

/// First later use of an introduced concept by another speaker.
#[derive(Debug, Clone, PartialEq, Eq)]
pub struct ConceptAdoption {
    pub cluster_id: String,
    pub introduced_by: String,
    pub adopted_by: String,
    pub sequence_index: usize,
}

/// Adjacent speaker change accompanied by a deterministic concept change.
#[derive(Debug, Clone, PartialEq, Eq)]
pub struct ConceptHandoff {
    pub from_cluster_id: String,
    pub to_cluster_id: String,
    pub from_speaker: String,
    pub to_speaker: String,
    pub sequence_index: usize,
}

/// Deterministic concept that returns after at least one intervening turn.
#[derive(Debug, Clone, PartialEq, Eq)]
pub struct RecurringConcept {
    pub cluster_id: String,
    pub occurrence_count: usize,
    pub non_adjacent_return_count: usize,
    pub first_sequence_index: usize,
    pub last_sequence_index: usize,
}

/// One contiguous active run of a deterministic conversation concept thread.
#[derive(Debug, Clone, PartialEq, Eq)]
pub struct ConversationSemanticThreadSegment {
    pub start_sequence_index: usize,
    pub end_sequence_index: usize,
    pub unit_count: usize,
}

/// One deterministic concept tracked as a potentially re-entered conversation thread.
#[derive(Debug, Clone, PartialEq, Eq)]
pub struct ConversationSemanticThread {
    pub cluster_id: String,
    pub occurrence_count: usize,
    pub segment_count: usize,
    pub reentry_count: usize,
    pub first_sequence_index: usize,
    pub last_sequence_index: usize,
    pub segments: Vec<ConversationSemanticThreadSegment>,
}

/// Evidence that two deterministic concept threads alternate across nearby source_units.
#[derive(Debug, Clone, PartialEq, Eq)]
pub struct ConversationThreadInterleaving {
    pub left_cluster_id: String,
    pub right_cluster_id: String,
    pub alternation_count: usize,
    pub first_sequence_index: usize,
    pub last_sequence_index: usize,
}

/// The cluster ids of a list of introductions.
pub open spec fn introduced_clusters(introductions: Seq<ConceptIntroduction>) -> Seq<Seq<char>> {
    introductions.map_values(|introduction: ConceptIntroduction| introduction.cluster_id@)
}

/// Introductions made by `units`: the first attributed use of each concept.
pub open spec fn introductions_of(units: Seq<ConversationConceptUnit>) -> Seq<ConceptIntroduction>
    decreases units.len(),
{
    if units.len() == 0 {
        Seq::empty()
    } else {
        let earlier = introductions_of(units.drop_last());
        let unit = units.last();
        match (unit.speaker, unit.cluster_id) {
            (Some(speaker), Some(cluster_id)) => if introduced_clusters(earlier).contains(
                cluster_id@,
            ) {
                earlier
            } else {
                earlier.push(
                    ConceptIntroduction {
                        cluster_id,
                        speaker,
                        sequence_index: unit.sequence_index,
                    },
                )
            },
            _ => earlier,
        }
    }
}

/// The introduction of the concept `cluster_id`, if any.
pub open spec fn introduction_for(introductions: Seq<ConceptIntroduction>, cluster_id: Seq<char>) -> Option<
    ConceptIntroduction,
>
    decreases introductions.len(),
{
    if introductions.len() == 0 {
        None
    } else if introductions[0].cluster_id@ == cluster_id {
        Some(introductions[0])
    } else {
        introduction_for(introductions.drop_first(), cluster_id)
    }
}

/// The (concept, adopter) pairs of a list of adoptions.
pub open spec fn adopted_pairs(adoptions: Seq<ConceptAdoption>) -> Seq<(Seq<char>, Seq<char>)> {
    adoptions.map_values(|adoption: ConceptAdoption| (adoption.cluster_id@, adoption.adopted_by@))
}

/// Adoptions made by `units`: the first use of an introduced concept by each other speaker.
pub open spec fn adoptions_of(units: Seq<ConversationConceptUnit>) -> Seq<ConceptAdoption>
    decreases units.len(),
{
    if units.len() == 0 {
        Seq::empty()
    } else {
        let earlier = adoptions_of(units.drop_last());
        let unit = units.last();
        match (unit.speaker, unit.cluster_id) {
            (Some(speaker), Some(cluster_id)) => match introduction_for(
                introductions_of(units.drop_last()),
                cluster_id@,
            ) {
                None => earlier,
                Some(introduction) => if introduction.speaker@ == speaker@
                    || adopted_pairs(earlier).contains((cluster_id@, speaker@)) {
                    earlier
                } else {
                    earlier.push(
                        ConceptAdoption {
                            cluster_id,
                            introduced_by: introduction.speaker,
                            adopted_by: speaker,
                            sequence_index: unit.sequence_index,
                        },
                    )
                },
            },
            _ => earlier,
        }
    }
}

/// The handoff between two adjacent units, if there is one.
pub open spec fn handoff_between(left: ConversationConceptUnit, right: ConversationConceptUnit) -> Option<
    ConceptHandoff,
> {
    match (left.speaker, right.speaker, left.cluster_id, right.cluster_id) {
        (Some(from_speaker), Some(to_speaker), Some(from_cluster_id), Some(to_cluster_id)) => if
        from_speaker@ == to_speaker@ || from_cluster_id@ == to_cluster_id@ {
            None
        } else {
            Some(
                ConceptHandoff {
                    from_cluster_id,
                    to_cluster_id,
                    from_speaker,
                    to_speaker,
                    sequence_index: right.sequence_index,
                },
            )
        },
        _ => None,
    }
}

/// Handoffs over every pair of adjacent units, in order.
pub open spec fn handoffs_of(units: Seq<ConversationConceptUnit>) -> Seq<ConceptHandoff>
    decreases units.len(),
{
    if units.len() < 2 {
        Seq::empty()
    } else {
        let earlier = handoffs_of(units.drop_last());
        match handoff_between(units[units.len() - 2], units.last()) {
            Some(handoff) => earlier.push(handoff),
            None => earlier,
        }
    }
}

/// Sequence indices of the units assigned to `cluster_id`, in unit order.
pub open spec fn cluster_indices(units: Seq<ConversationConceptUnit>, cluster_id: Seq<char>) -> Seq<
    usize,
>
    decreases units.len(),
{
    if units.len() == 0 {
        Seq::empty()
    } else {
        let earlier = cluster_indices(units.drop_last(), cluster_id);
        match units.last().cluster_id {
            Some(id) => if id@ == cluster_id {
                earlier.push(units.last().sequence_index)
            } else {
                earlier
            },
            None => earlier,
        }
    }
}

/// Number of consecutive occurrences separated by more than one step.
pub open spec fn non_adjacent_returns(indices: Seq<usize>) -> nat
    decreases indices.len(),
{
    if indices.len() < 2 {
        0
    } else {
        non_adjacent_returns(indices.drop_last()) + if indices.last() - indices[indices.len() - 2]
            > 1 {
            1nat
        } else {
            0nat
        }
    }
}

/// `entry` describes the concept `entry.cluster_id` of `units` correctly.
pub open spec fn recurring_entry(units: Seq<ConversationConceptUnit>, entry: RecurringConcept) -> bool {
    let indices = cluster_indices(units, entry.cluster_id@);
    &&& indices.len() >= 2
    &&& entry.occurrence_count == indices.len()
    &&& entry.non_adjacent_return_count == non_adjacent_returns(indices)
    &&& entry.first_sequence_index == indices[0]
    &&& entry.last_sequence_index == indices.last()
}

/// The cluster ids of a list of recurring concepts.
pub open spec fn recurring_clusters(entries: Seq<RecurringConcept>) -> Seq<Seq<char>> {
    entries.map_values(|entry: RecurringConcept| entry.cluster_id@)
}

proof fn lemma_introduction_for_found(introductions: Seq<ConceptIntroduction>, cluster_id: Seq<char>)
    ensures
        introduced_clusters(introductions).contains(cluster_id) <==> introduction_for(
            introductions,
            cluster_id,
        ) is Some,
        introduction_for(introductions, cluster_id) matches Some(found) ==> found.cluster_id@
            == cluster_id,
    decreases introductions.len(),
{
    if introductions.len() > 0 {
        lemma_introduction_for_found(introductions.drop_first(), cluster_id);
        assert(introduced_clusters(introductions.drop_first()) =~= introduced_clusters(
            introductions,
        ).drop_first());
        if introductions[0].cluster_id@ == cluster_id {
            assert(introduced_clusters(introductions)[0] == cluster_id);
        } else if introduced_clusters(introductions).contains(cluster_id) {
            let k = choose|k: int|
                0 <= k < introduced_clusters(introductions).len() && introduced_clusters(
                    introductions,
                )[k] == cluster_id;
            assert(introduced_clusters(introductions.drop_first())[k - 1] == cluster_id);
        } else if introduced_clusters(introductions.drop_first()).contains(cluster_id) {
            let k = choose|k: int|
                0 <= k < introduced_clusters(introductions.drop_first()).len()
                    && introduced_clusters(introductions.drop_first())[k] == cluster_id;
            assert(introduced_clusters(introductions)[k + 1] == cluster_id);
        }
    }
}

fn string_eq(left: &String, right: &String) -> (same: bool)
    ensures
        same == (left@ == right@),
{
    *left == *right
}

fn find_introduction(introductions: &Vec<ConceptIntroduction>, cluster_id: &String) -> (found:
    Option<usize>)
    ensures
        match found {
            Some(k) => k < introductions@.len() && introduction_for(introductions@, cluster_id@)
                == Some(introductions@[k as int]),
            None => introduction_for(introductions@, cluster_id@) is None,
        },
{
    let mut k: usize = 0;
    proof {
        assert(introductions@.skip(0) =~= introductions@);
    }
    while k < introductions.len()
        invariant
            k <= introductions@.len(),
            introduction_for(introductions@, cluster_id@) == introduction_for(
                introductions@.skip(k as int),
                cluster_id@,
            ),
        decreases introductions@.len() - k,
    {
        proof {
            assert(introductions@.skip(k as int).drop_first() =~= introductions@.skip(k + 1));
        }
        if string_eq(&introductions[k].cluster_id, cluster_id) {
            return Some(k);
        }
        k = k + 1;
    }
    None
}

/// The first attributed use of each concept, in conversation order.
pub fn concept_introductions(units: &[ConversationConceptUnit]) -> (introductions: Vec<
    ConceptIntroduction,
>)
    ensures
        introductions@ == introductions_of(units@),
{
    let mut introductions: Vec<ConceptIntroduction> = Vec::new();
    let mut index: usize = 0;
    while index < units.len()
        invariant
            index <= units@.len(),
            introductions@ == introductions_of(units@.take(index as int)),
        decreases units@.len() - index,
    {
        proof {
            assert(units@.take(index + 1).drop_last() =~= units@.take(index as int));
        }
        let unit = &units[index];
        match (&unit.speaker, &unit.cluster_id) {
            (Some(speaker), Some(cluster_id)) => {
                let found = find_introduction(&introductions, cluster_id);
                proof {
                    lemma_introduction_for_found(introductions@, cluster_id@);
                }
                if found.is_none() {
                    introductions.push(
                        ConceptIntroduction {
                            cluster_id: cluster_id.clone(),
                            speaker: speaker.clone(),
                            sequence_index: unit.sequence_index,
                        },
                    );
                }
            },
            _ => {},
        }
        index = index + 1;
    }
    proof {
        assert(units@.take(index as int) =~= units@);
    }
    introductions
}

fn adopted(adoptions: &Vec<ConceptAdoption>, cluster_id: &String, speaker: &String) -> (found: bool)
    ensures
        found == adopted_pairs(adoptions@).contains((cluster_id@, speaker@)),
{
    let mut k: usize = 0;
    while k < adoptions.len()
        invariant
            k <= adoptions@.len(),
            forall|j: int|
                0 <= j < k ==> adopted_pairs(adoptions@)[j] != (cluster_id@, speaker@),
        decreases adoptions@.len() - k,
    {
        if string_eq(&adoptions[k].cluster_id, cluster_id) && string_eq(
            &adoptions[k].adopted_by,
            speaker,
        ) {
            proof {
                assert(adopted_pairs(adoptions@)[k as int] == (cluster_id@, speaker@));
            }
            return true;
        }
        k = k + 1;
    }
    false
}

/// The first use of each introduced concept by each speaker other than its introducer.
pub fn concept_adoptions(units: &[ConversationConceptUnit]) -> (adoptions: Vec<ConceptAdoption>)
    ensures
        adoptions@ == adoptions_of(units@),
{
    let mut introductions: Vec<ConceptIntroduction> = Vec::new();
    let mut adoptions: Vec<ConceptAdoption> = Vec::new();
    let mut index: usize = 0;
    while index < units.len()
        invariant
            index <= units@.len(),
            introductions@ == introductions_of(units@.take(index as int)),
            adoptions@ == adoptions_of(units@.take(index as int)),
        decreases units@.len() - index,
    {
        proof {
            assert(units@.take(index + 1).drop_last() =~= units@.take(index as int));
        }
        let unit = &units[index];
        match (&unit.speaker, &unit.cluster_id) {
            (Some(speaker), Some(cluster_id)) => {
                let found = find_introduction(&introductions, cluster_id);
                proof {
                    lemma_introduction_for_found(introductions@, cluster_id@);
                }
                match found {
                    None => {
                        introductions.push(
                            ConceptIntroduction {
                                cluster_id: cluster_id.clone(),
                                speaker: speaker.clone(),
                                sequence_index: unit.sequence_index,
                            },
                        );
                    },
                    Some(k) => {
                        let introducer = &introductions[k].speaker;
                        if !string_eq(introducer, speaker) && !adopted(
                            &adoptions,
                            cluster_id,
                            speaker,
                        ) {
                            adoptions.push(
                                ConceptAdoption {
                                    cluster_id: cluster_id.clone(),
                                    introduced_by: introducer.clone(),
                                    adopted_by: speaker.clone(),
                                    sequence_index: unit.sequence_index,
                                },
                            );
                        }
                    },
                }
            },
            _ => {},
        }
        index = index + 1;
    }
    proof {
        assert(units@.take(index as int) =~= units@);
    }
    adoptions
}

/// Adjacent speaker changes that also change the concept, in conversation order.
pub fn concept_handoffs(units: &[ConversationConceptUnit]) -> (handoffs: Vec<ConceptHandoff>)
    ensures
        handoffs@ == handoffs_of(units@),
{
    let mut handoffs: Vec<ConceptHandoff> = Vec::new();
    if units.len() < 2 {
        return handoffs;
    }
    let mut index: usize = 1;
    proof {
        assert(handoffs_of(units@.take(1)) =~= Seq::<ConceptHandoff>::empty());
    }
    while index < units.len()
        invariant
            1 <= index <= units@.len(),
            handoffs@ == handoffs_of(units@.take(index as int)),
        decreases units@.len() - index,
    {
        proof {
            assert(units@.take(index + 1).drop_last() =~= units@.take(index as int));
        }
        let left = &units[index - 1];
        let right = &units[index];
        match (&left.speaker, &right.speaker, &left.cluster_id, &right.cluster_id) {
            (Some(from_speaker), Some(to_speaker), Some(from_cluster), Some(to_cluster)) => {
                if !string_eq(from_speaker, to_speaker) && !string_eq(from_cluster, to_cluster) {
                    handoffs.push(
                        ConceptHandoff {
                            from_cluster_id: from_cluster.clone(),
                            to_cluster_id: to_cluster.clone(),
                            from_speaker: from_speaker.clone(),
                            to_speaker: to_speaker.clone(),
                            sequence_index: right.sequence_index,
                        },
                    );
                }
            },
            _ => {},
        }
        index = index + 1;
    }
    proof {
        assert(units@.take(index as int) =~= units@);
    }
    handoffs
}

proof fn lemma_non_adjacent_bounded(indices: Seq<usize>)
    ensures
        non_adjacent_returns(indices) <= indices.len(),
    decreases indices.len(),
{
    if indices.len() >= 2 {
        lemma_non_adjacent_bounded(indices.drop_last());
    }
}

/// Sequence indices of the units of `units` assigned to `cluster_id`.
fn indices_of_cluster(units: &[ConversationConceptUnit], cluster_id: &String) -> (indices: Vec<usize>)
    ensures
        indices@ == cluster_indices(units@, cluster_id@),
{
    let mut indices: Vec<usize> = Vec::new();
    let mut index: usize = 0;
    while index < units.len()
        invariant
            index <= units@.len(),
            indices@ == cluster_indices(units@.take(index as int), cluster_id@),
        decreases units@.len() - index,
    {
        proof {
            assert(units@.take(index + 1).drop_last() =~= units@.take(index as int));
        }
        match &units[index].cluster_id {
            Some(id) => {
                if string_eq(id, cluster_id) {
                    indices.push(units[index].sequence_index);
                }
            },
            None => {},
        }
        index = index + 1;
    }
    proof {
        assert(units@.take(index as int) =~= units@);
    }
    indices
}

/// Number of consecutive indices that are more than one step apart.
fn count_non_adjacent(indices: &Vec<usize>) -> (count: usize)
    ensures
        count == non_adjacent_returns(indices@),
{
    let mut count: usize = 0;
    if indices.len() < 2 {
        return 0;
    }
    let mut index: usize = 1;
    while index < indices.len()
        invariant
            1 <= index <= indices@.len(),
            count == non_adjacent_returns(indices@.take(index as int)),
        decreases indices@.len() - index,
    {
        proof {
            assert(indices@.take(index + 1).drop_last() =~= indices@.take(index as int));
            lemma_non_adjacent_bounded(indices@.take(index as int));
        }
        if indices[index].saturating_sub(indices[index - 1]) > 1 {
            count = count + 1;
        }
        index = index + 1;
    }
    proof {
        assert(indices@.take(index as int) =~= indices@);
    }
    count
}

/// The concept of a unit is `cluster_id` exactly when that unit adds to its indices.
proof fn lemma_cluster_indices_step(units: Seq<ConversationConceptUnit>, n: int, x: Seq<char>)
    requires
        0 <= n < units.len(),
    ensures
        cluster_indices(units.take(n + 1), x).len() > 0 <==> cluster_indices(units.take(n), x).len()
            > 0 || (units[n].cluster_id matches Some(id) && id@ == x),
{
    assert(units.take(n + 1).drop_last() =~= units.take(n));
}

/// Sorted, distinct concept ids of `units`.
fn distinct_clusters(units: &[ConversationConceptUnit]) -> (ids: Vec<String>)
    ensures
        strictly_sorted(views_of(ids@)),
        forall|x: Seq<char>|
            #![trigger views_of(ids@).contains(x)]
            views_of(ids@).contains(x) <==> cluster_indices(units@, x).len() > 0,
{
    let mut ids: Vec<String> = Vec::new();
    let mut index: usize = 0;
    while index < units.len()
        invariant
            index <= units@.len(),
            strictly_sorted(views_of(ids@)),
            forall|x: Seq<char>|
                #![trigger views_of(ids@).contains(x)]
                views_of(ids@).contains(x) <==> cluster_indices(units@.take(index as int), x).len()
                    > 0,
        decreases units@.len() - index,
    {
        let ghost before = ids@;
        match &units[index].cluster_id {
            Some(id) => {
                insert_sorted(&mut ids, id.clone());
            },
            None => {},
        }
        proof {
            assert forall|x: Seq<char>|
                #![trigger views_of(ids@).contains(x)]
                views_of(ids@).contains(x) <==> cluster_indices(units@.take(index + 1), x).len()
                    > 0 by {
                lemma_cluster_indices_step(units@, index as int, x);
                assert(views_of(before).contains(x) <==> cluster_indices(
                    units@.take(index as int),
                    x,
                ).len() > 0);
            }
        }
        index = index + 1;
    }
    proof {
        assert(units@.take(index as int) =~= units@);
    }
    ids
}

/// Concepts used at least twice, in ascending order of their ids, with their
/// occurrence count, the number of returns after an intervening turn, and the
/// first and last sequence index.
pub fn recurring_concepts(units: &[ConversationConceptUnit]) -> (recurring: Vec<RecurringConcept>)
    ensures
        strictly_sorted(recurring_clusters(recurring@)),
        forall|i: int| 0 <= i < recurring@.len() ==> recurring_entry(units@, #[trigger] recurring@[i]),
        forall|x: Seq<char>|
            #![trigger recurring_clusters(recurring@).contains(x)]
            recurring_clusters(recurring@).contains(x) <==> cluster_indices(units@, x).len() >= 2,
{
    let ids = distinct_clusters(units);
    let ghost id_views = views_of(ids@);
    let mut recurring: Vec<RecurringConcept> = Vec::new();
    let mut k: usize = 0;
    while k < ids.len()
        invariant
            k <= ids@.len(),
            id_views == views_of(ids@),
            strictly_sorted(id_views),
            strictly_sorted(recurring_clusters(recurring@)),
            forall|i: int|
                0 <= i < recurring@.len() ==> recurring_entry(units@, #[trigger] recurring@[i]),
            forall|i: int, t: int|
                0 <= i < recurring@.len() && k <= t < id_views.len() ==> chars_less(
                    #[trigger] recurring_clusters(recurring@)[i],
                    #[trigger] id_views[t],
                ),
            forall|t: int|
                0 <= t < k && cluster_indices(units@, #[trigger] id_views[t]).len() >= 2
                    ==> recurring_clusters(recurring@).contains(id_views[t]),
        decreases ids@.len() - k,
    {
        let indices = indices_of_cluster(units, &ids[k]);
        if indices.len() >= 2 {
            let count = count_non_adjacent(&indices);
            let ghost before = recurring@;
            let entry = RecurringConcept {
                cluster_id: ids[k].clone(),
                occurrence_count: indices.len(),
                non_adjacent_return_count: count,
                first_sequence_index: indices[0],
                last_sequence_index: indices[indices.len() - 1],
            };
            recurring.push(entry);
            proof {
                let rc = recurring_clusters(recurring@);
                assert(rc =~= recurring_clusters(before).push(id_views[k as int]));
                assert forall|i: int, j: int|
                    #![trigger rc[i], rc[j]]
                    0 <= i < j < rc.len() implies chars_less(rc[i], rc[j]) by {
                    if j == rc.len() - 1 {
                        assert(chars_less(recurring_clusters(before)[i], id_views[k as int]));
                    } else {
                        assert(rc[i] == recurring_clusters(before)[i]);
                        assert(rc[j] == recurring_clusters(before)[j]);
                    }
                }
                assert forall|i: int, t: int|
                    0 <= i < recurring@.len() && k + 1 <= t < id_views.len() implies chars_less(
                    #[trigger] rc[i],
                    #[trigger] id_views[t],
                ) by {
                    if i == recurring@.len() - 1 {
                        assert(chars_less(id_views[k as int], id_views[t]));
                    } else {
                        assert(rc[i] == recurring_clusters(before)[i]);
                        assert(chars_less(recurring_clusters(before)[i], id_views[t]));
                    }
                }
                assert forall|t: int|
                    0 <= t < k + 1 && cluster_indices(units@, #[trigger] id_views[t]).len() >= 2
                    implies rc.contains(id_views[t]) by {
                    if t == k {
                        assert(rc[rc.len() - 1] == id_views[t]);
                    } else {
                        assert(recurring_clusters(before).contains(id_views[t]));
                        let i = choose|i: int|
                            0 <= i < recurring_clusters(before).len()
                                && recurring_clusters(before)[i] == id_views[t];
                        assert(rc[i] == id_views[t]);
                    }
                }
                assert forall|i: int|
                    0 <= i < recurring@.len() implies recurring_entry(
                    units@,
                    #[trigger] recurring@[i],
                ) by {
                    if i < before.len() {
                        assert(recurring@[i] == before[i]);
                    }
                }
            }
        } else {
            proof {
                assert forall|i: int, t: int|
                    0 <= i < recurring@.len() && k + 1 <= t < id_views.len() implies chars_less(
                    #[trigger] recurring_clusters(recurring@)[i],
                    #[trigger] id_views[t],
                ) by {}
            }
        }
        k = k + 1;
    }
    proof {
        let rc = recurring_clusters(recurring@);
        assert forall|x: Seq<char>|
            #![trigger rc.contains(x)]
            rc.contains(x) <==> cluster_indices(units@, x).len() >= 2 by {
            if rc.contains(x) {
                let i = choose|i: int| 0 <= i < rc.len() && rc[i] == x;
                assert(recurring_entry(units@, recurring@[i]));
            }
            if cluster_indices(units@, x).len() >= 2 {
                assert(id_views.contains(x));
                let t = choose|t: int| 0 <= t < id_views.len() && id_views[t] == x;
                assert(cluster_indices(units@, id_views[t]).len() >= 2);
            }
        }
    }
    recurring
}

/// The cluster assigned to `unit_id`; when several assignments name it, the last.
pub open spec fn assigned_cluster(assignments: Seq<ClusterAssignment>, unit_id: Seq<char>) -> Option<
    String,
>
    decreases assignments.len(),
{
    if assignments.len() == 0 {
        None
    } else if assignments.last().unit_id@ == unit_id {
        Some(assignments.last().cluster_id)
    } else {
        assigned_cluster(assignments.drop_last(), unit_id)
    }
}

/// The concept unit that `unit` becomes under `assignments`.
pub open spec fn concept_unit(unit: StructuralUnit, assignments: Seq<ClusterAssignment>) -> ConversationConceptUnit {
    ConversationConceptUnit {
        unit_id: unit.id,
        speaker: unit.speaker,
        sequence_index: unit.sequence_index,
        cluster_id: assigned_cluster(assignments, unit.id@),
    }
}

fn copy_option(value: &Option<String>) -> (copy: Option<String>)
    ensures
        copy == *value,
{
    match value {
        Some(text) => Some(text.clone()),
        None => None,
    }
}

fn cluster_of(assignments: &[ClusterAssignment], unit_id: &str) -> (cluster: Option<String>)
    ensures
        cluster == assigned_cluster(assignments@, unit_id@),
{
    let mut cluster: Option<String> = None;
    let mut index: usize = 0;
    while index < assignments.len()
        invariant
            index <= assignments@.len(),
            cluster == assigned_cluster(assignments@.take(index as int), unit_id@),
        decreases assignments@.len() - index,
    {
        proof {
            assert(assignments@.take(index + 1).drop_last() =~= assignments@.take(index as int));
        }
        if same_text(assignments[index].unit_id.as_str(), unit_id) {
            cluster = Some(assignments[index].cluster_id.clone());
        }
        index = index + 1;
    }
    proof {
        assert(assignments@.take(index as int) =~= assignments@);
    }
    cluster
}

/// The primary units of a conversation, in the order of `primary_indices`,
/// each with the cluster that the timeline assigned to it.
pub fn primary_concept_units(
    source_units: &[StructuralUnit],
    primary_indices: &[usize],
    assignments: &[ClusterAssignment],
) -> (units: Vec<ConversationConceptUnit>)
    requires
        forall|i: int| 0 <= i < primary_indices@.len() ==> #[trigger] primary_indices@[i] < source_units@.len(),
    ensures
        units@.len() == primary_indices@.len(),
        forall|i: int|
            0 <= i < units@.len() ==> #[trigger] units@[i] == concept_unit(
                source_units@[primary_indices@[i] as int],
                assignments@,
            ),
{
    let mut units: Vec<ConversationConceptUnit> = Vec::new();
    let mut index: usize = 0;
    while index < primary_indices.len()
        invariant
            index <= primary_indices@.len(),
            forall|i: int| 0 <= i < primary_indices@.len() ==> #[trigger] primary_indices@[i] < source_units@.len(),
            units@.len() == index,
            forall|i: int|
                0 <= i < index ==> #[trigger] units@[i] == concept_unit(
                    source_units@[primary_indices@[i] as int],
                    assignments@,
                ),
        decreases primary_indices@.len() - index,
    {
        let unit = &source_units[primary_indices[index]];
        let cluster_id = cluster_of(assignments, unit.id.as_str());
        units.push(
            ConversationConceptUnit {
                unit_id: unit.id.clone(),
                speaker: copy_option(&unit.speaker),
                sequence_index: unit.sequence_index,
                cluster_id,
            },
        );
        index = index + 1;
    }
    units
}

/// The concept units of the primary units of a conversation, as characters.
pub open spec fn primary_units_of(
    source_units: Seq<StructuralUnit>,
    primary_indices: Seq<usize>,
    assignments: Seq<ClusterAssignment>,
) -> Seq<ConversationConceptUnit> {
    Seq::new(
        primary_indices.len(),
        |i: int| concept_unit(source_units[primary_indices[i] as int], assignments),
    )
}

/// How concepts move through a conversation.
#[derive(Debug, Clone, PartialEq, Eq)]
pub struct ConceptDynamics {
    pub introductions: Vec<ConceptIntroduction>,
    pub adoptions: Vec<ConceptAdoption>,
    pub handoffs: Vec<ConceptHandoff>,
    pub recurring_concepts: Vec<RecurringConcept>,
}

/// The introductions, adoptions, handoffs and recurring concepts of the
/// primary units of a conversation, each unit taking the cluster that the
/// timeline assigned to it.
pub fn conversation_concept_dynamics(
    source_units: &[StructuralUnit],
    primary_indices: &[usize],
    assignments: &[ClusterAssignment],
) -> (dynamics: ConceptDynamics)
    requires
        forall|i: int| 0 <= i < primary_indices@.len() ==> #[trigger] primary_indices@[i] < source_units@.len(),
    ensures
        ({
            let units = primary_units_of(source_units@, primary_indices@, assignments@);
            &&& dynamics.introductions@ == introductions_of(units)
            &&& dynamics.adoptions@ == adoptions_of(units)
            &&& dynamics.handoffs@ == handoffs_of(units)
            &&& strictly_sorted(recurring_clusters(dynamics.recurring_concepts@))
            &&& forall|i: int|
                0 <= i < dynamics.recurring_concepts@.len() ==> recurring_entry(
                    units,
                    #[trigger] dynamics.recurring_concepts@[i],
                )
            &&& forall|x: Seq<char>|
                #![trigger recurring_clusters(dynamics.recurring_concepts@).contains(x)]
                recurring_clusters(dynamics.recurring_concepts@).contains(x) <==> cluster_indices(
                    units,
                    x,
                ).len() >= 2
        }),
{
    let units = primary_concept_units(source_units, primary_indices, assignments);
    proof {
        assert(units@ =~= primary_units_of(source_units@, primary_indices@, assignments@));
    }
    let introductions = concept_introductions(units.as_slice());
    let adoptions = concept_adoptions(units.as_slice());
    let handoffs = concept_handoffs(units.as_slice());
    let recurring_concepts = recurring_concepts(units.as_slice());
    ConceptDynamics { introductions, adoptions, handoffs, recurring_concepts }
}

} // verus!
