//! Word-sense evidence: the exact occurrences of a target term grouped by the
//! cluster of usage contexts they were assigned to.

use vstd::prelude::*;
use vstd::string::StringExecFns;

use crate::chars::same_text;
use crate::laws::senses::{clusters_split_occurrences, law_senses_account_for_every_occurrence, sense_total};
use crate::model::ClusterMembership;
use crate::order::{insert_sorted, lemma_strictly_sorted_distinct, strictly_sorted, views_of};
use crate::span::TextSpan;

verus! {

/// One exact occurrence of a target term and the sentence context embedded for clustering.
#[derive(Debug, Clone, PartialEq, Eq)]
pub struct SemanticWordOccurrence {
    pub unit_id: String,
    pub source_id: String,
    pub author: Option<String>,
    pub source: Option<String>,
    pub timestamp_millis: Option<i64>,
    pub occurrence_span: TextSpan,
    pub context_span: TextSpan,
    pub context_text: String,
}

/// One deterministic cluster of usage contexts for the target term.
#[derive(Debug, Clone, PartialEq, Eq)]
pub struct SemanticWordSense {
    pub cluster_id: String,
    pub occurrence_count: usize,
    pub source_item_count: usize,
    pub author_count: usize,
    pub source_item_ids: Vec<String>,
    pub authors: Vec<String>,
    pub representative: SemanticWordOccurrence,
    pub occurrences: Vec<SemanticWordOccurrence>,
}

/// Totals over every occurrence of the target term.
#[derive(Debug, Clone, Copy, PartialEq, Eq)]
pub struct WordSenseTotals {
    pub occurrence_count: usize,
    pub source_item_count: usize,
    pub author_count: usize,
}

/// The occurrence recorded for `unit_id`; when several are, the last of them.
pub open spec fn occurrence_for(occurrences: Seq<SemanticWordOccurrence>, unit_id: Seq<char>) -> Option<
    SemanticWordOccurrence,
>
    decreases occurrences.len(),
{
    if occurrences.len() == 0 {
        None
    } else if occurrences.last().unit_id@ == unit_id {
        Some(occurrences.last())
    } else {
        occurrence_for(occurrences.drop_last(), unit_id)
    }
}

/// The occurrences recorded for the member units, in member order, skipping
/// members without one.
pub open spec fn member_occurrences(occurrences: Seq<SemanticWordOccurrence>, members: Seq<String>) -> Seq<
    SemanticWordOccurrence,
>
    decreases members.len(),
{
    if members.len() == 0 {
        Seq::empty()
    } else {
        let earlier = member_occurrences(occurrences, members.drop_last());
        match occurrence_for(occurrences, members.last()@) {
            Some(found) => earlier.push(found),
            None => earlier,
        }
    }
}

/// The unit ids of a list of occurrences.
pub open spec fn unit_ids_of(occurrences: Seq<SemanticWordOccurrence>) -> Seq<Seq<char>> {
    occurrences.map_values(|occurrence: SemanticWordOccurrence| occurrence.unit_id@)
}

/// The source item ids of a list of occurrences.
pub open spec fn source_ids_of(occurrences: Seq<SemanticWordOccurrence>) -> Seq<Seq<char>> {
    occurrences.map_values(|occurrence: SemanticWordOccurrence| occurrence.source_id@)
}

/// The authors named by a list of occurrences, skipping those without one.
pub open spec fn authors_of(occurrences: Seq<SemanticWordOccurrence>) -> Seq<Seq<char>>
    decreases occurrences.len(),
{
    if occurrences.len() == 0 {
        Seq::empty()
    } else {
        let earlier = authors_of(occurrences.drop_last());
        match occurrences.last().author {
            Some(author) => earlier.push(author@),
            None => earlier,
        }
    }
}

/// `sense` is the sense that `cluster` yields over `occurrences`.
pub open spec fn is_sense_of(
    occurrences: Seq<SemanticWordOccurrence>,
    cluster: ClusterMembership,
    sense: SemanticWordSense,
) -> bool {
    &&& sense.cluster_id@ == cluster.id@
    &&& occurrence_for(occurrences, cluster.representative_unit_id@) == Some(sense.representative)
    &&& sense.occurrences@ == member_occurrences(occurrences, cluster.member_unit_ids@)
    &&& sense.occurrence_count == sense.occurrences@.len()
    &&& strictly_sorted(views_of(sense.source_item_ids@))
    &&& forall|x: Seq<char>|
        #![trigger views_of(sense.source_item_ids@).contains(x)]
        views_of(sense.source_item_ids@).contains(x) <==> source_ids_of(sense.occurrences@).contains(
            x,
        )
    &&& sense.source_item_count == sense.source_item_ids@.len()
    &&& strictly_sorted(views_of(sense.authors@))
    &&& forall|x: Seq<char>|
        #![trigger views_of(sense.authors@).contains(x)]
        views_of(sense.authors@).contains(x) <==> authors_of(sense.occurrences@).contains(x)
    &&& sense.author_count == sense.authors@.len()
}

/// The clusters whose representative unit has an occurrence, in order.
pub open spec fn sensed_clusters(occurrences: Seq<SemanticWordOccurrence>, clusters: Seq<ClusterMembership>) -> Seq<
    ClusterMembership,
>
    decreases clusters.len(),
{
    if clusters.len() == 0 {
        Seq::empty()
    } else {
        let earlier = sensed_clusters(occurrences, clusters.drop_last());
        if occurrence_for(occurrences, clusters.last().representative_unit_id@) is Some {
            earlier.push(clusters.last())
        } else {
            earlier
        }
    }
}

fn copy_option(value: &Option<String>) -> (copy: Option<String>)
    ensures
        copy == *value,
{
    match value {
        Some(text) => Some(text.clone()),
        None => None,
    }
}

pub(crate) fn copy_occurrence(occurrence: &SemanticWordOccurrence) -> (copy: SemanticWordOccurrence)
    ensures
        copy == *occurrence,
{
    SemanticWordOccurrence {
        unit_id: occurrence.unit_id.clone(),
        source_id: occurrence.source_id.clone(),
        author: copy_option(&occurrence.author),
        source: copy_option(&occurrence.source),
        timestamp_millis: occurrence.timestamp_millis,
        occurrence_span: occurrence.occurrence_span,
        context_span: occurrence.context_span,
        context_text: occurrence.context_text.clone(),
    }
}

/// Position of the occurrence recorded for `unit_id` (the last one, if several are).
fn find_occurrence(occurrences: &[SemanticWordOccurrence], unit_id: &str) -> (found: Option<usize>)
    ensures
        match found {
            Some(k) => k < occurrences@.len() && occurrence_for(occurrences@, unit_id@) == Some(
                occurrences@[k as int],
            ),
            None => occurrence_for(occurrences@, unit_id@) is None,
        },
{
    let mut found: Option<usize> = None;
    let mut index: usize = 0;
    while index < occurrences.len()
        invariant
            index <= occurrences@.len(),
            match found {
                Some(k) => k < index && occurrence_for(occurrences@.take(index as int), unit_id@)
                    == Some(occurrences@[k as int]),
                None => occurrence_for(occurrences@.take(index as int), unit_id@) is None,
            },
        decreases occurrences@.len() - index,
    {
        proof {
            assert(occurrences@.take(index + 1).drop_last() =~= occurrences@.take(index as int));
        }
        if same_text(occurrences[index].unit_id.as_str(), unit_id) {
            found = Some(index);
        }
        index = index + 1;
    }
    proof {
        assert(occurrences@.take(index as int) =~= occurrences@);
    }
    found
}

/// The sorted distinct source ids and authors of `occurrences`.
fn distinct_sources_and_authors(occurrences: &[SemanticWordOccurrence]) -> (result: (
    Vec<String>,
    Vec<String>,
))
    ensures
        strictly_sorted(views_of(result.0@)),
        forall|x: Seq<char>|
            #![trigger views_of(result.0@).contains(x)]
            views_of(result.0@).contains(x) <==> source_ids_of(occurrences@).contains(x),
        strictly_sorted(views_of(result.1@)),
        forall|x: Seq<char>|
            #![trigger views_of(result.1@).contains(x)]
            views_of(result.1@).contains(x) <==> authors_of(occurrences@).contains(x),
{
    let mut sources: Vec<String> = Vec::new();
    let mut authors: Vec<String> = Vec::new();
    let mut index: usize = 0;
    proof {
        assert(views_of(sources@) =~= Seq::<Seq<char>>::empty());
        assert(views_of(authors@) =~= Seq::<Seq<char>>::empty());
    }
    while index < occurrences.len()
        invariant
            index <= occurrences@.len(),
            strictly_sorted(views_of(sources@)),
            strictly_sorted(views_of(authors@)),
            forall|x: Seq<char>|
                #![trigger views_of(sources@).contains(x)]
                views_of(sources@).contains(x) <==> source_ids_of(
                    occurrences@.take(index as int),
                ).contains(x),
            forall|x: Seq<char>|
                #![trigger views_of(authors@).contains(x)]
                views_of(authors@).contains(x) <==> authors_of(occurrences@.take(index as int)).contains(
                    x,
                ),
        decreases occurrences@.len() - index,
    {
        let occurrence = &occurrences[index];
        let ghost taken = occurrences@.take(index as int);
        let ghost next = occurrences@.take(index + 1);
        proof {
            assert(next.drop_last() =~= taken);
            assert(source_ids_of(next) =~= source_ids_of(taken).push(occurrence.source_id@));
        }
        let ghost sources_before = views_of(sources@);
        let ghost authors_before = views_of(authors@);
        insert_sorted(&mut sources, occurrence.source_id.clone());
        match &occurrence.author {
            Some(author) => {
                insert_sorted(&mut authors, author.clone());
            },
            None => {},
        }
        proof {
            assert forall|x: Seq<char>|
                #![trigger views_of(sources@).contains(x)]
                views_of(sources@).contains(x) <==> source_ids_of(next).contains(x) by {
                let before = source_ids_of(taken);
                if before.contains(x) {
                    let t = choose|t: int| 0 <= t < before.len() && before[t] == x;
                    assert(source_ids_of(next)[t] == x);
                }
                if source_ids_of(next).contains(x) && x != occurrence.source_id@ {
                    let t = choose|t: int|
                        0 <= t < source_ids_of(next).len() && source_ids_of(next)[t] == x;
                    assert(before[t] == x);
                }
                assert(source_ids_of(next)[index as int] == occurrence.source_id@);
                assert(sources_before.contains(x) <==> before.contains(x));
            }
            assert forall|x: Seq<char>|
                #![trigger views_of(authors@).contains(x)]
                views_of(authors@).contains(x) <==> authors_of(next).contains(x) by {
                let before = authors_of(taken);
                assert(authors_before.contains(x) <==> before.contains(x));
                match occurrence.author {
                    Some(author) => {
                        assert(authors_of(next) == before.push(author@));
                        if before.contains(x) {
                            let t = choose|t: int| 0 <= t < before.len() && before[t] == x;
                            assert(authors_of(next)[t] == x);
                        }
                        if authors_of(next).contains(x) && x != author@ {
                            let t = choose|t: int|
                                0 <= t < authors_of(next).len() && authors_of(next)[t] == x;
                            assert(before[t] == x);
                        }
                        assert(authors_of(next)[before.len() as int] == author@);
                    },
                    None => {
                        assert(authors_of(next) == before);
                    },
                }
            }
        }
        index = index + 1;
    }
    proof {
        assert(occurrences@.take(index as int) =~= occurrences@);
    }
    (sources, authors)
}

/// The sense that `cluster` yields over `occurrences`, or `None` when its
/// representative unit has no occurrence.
fn sense_for_cluster(occurrences: &[SemanticWordOccurrence], cluster: &ClusterMembership) -> (sense:
    Option<SemanticWordSense>)
    ensures
        match sense {
            Some(sense) => is_sense_of(occurrences@, *cluster, sense),
            None => occurrence_for(occurrences@, cluster.representative_unit_id@) is None,
        },
{
    let representative = match find_occurrence(occurrences, cluster.representative_unit_id.as_str()) {
        Some(k) => copy_occurrence(&occurrences[k]),
        None => return None,
    };
    let mut members: Vec<SemanticWordOccurrence> = Vec::new();
    let mut index: usize = 0;
    while index < cluster.member_unit_ids.len()
        invariant
            index <= cluster.member_unit_ids@.len(),
            members@ == member_occurrences(
                occurrences@,
                cluster.member_unit_ids@.take(index as int),
            ),
        decreases cluster.member_unit_ids@.len() - index,
    {
        proof {
            assert(cluster.member_unit_ids@.take(index + 1).drop_last()
                =~= cluster.member_unit_ids@.take(index as int));
        }
        match find_occurrence(occurrences, cluster.member_unit_ids[index].as_str()) {
            Some(k) => {
                members.push(copy_occurrence(&occurrences[k]));
            },
            None => {},
        }
        index = index + 1;
    }
    proof {
        assert(cluster.member_unit_ids@.take(index as int) =~= cluster.member_unit_ids@);
    }
    let (sources, authors) = distinct_sources_and_authors(members.as_slice());
    let occurrence_count = members.len();
    let source_item_count = sources.len();
    let author_count = authors.len();
    Some(
        SemanticWordSense {
            cluster_id: cluster.id.clone(),
            occurrence_count,
            source_item_count,
            author_count,
            source_item_ids: sources,
            authors,
            representative,
            occurrences: members,
        },
    )
}

/// One sense per cluster whose representative unit has an occurrence, in
/// cluster order: the member occurrences in member order, with the sorted
/// distinct source items and authors among them and their counts. When the
/// clusters split the occurrences' units among them, the senses' occurrence
/// counts add up to the number of occurrences.
pub fn assemble_word_senses(occurrences: &[SemanticWordOccurrence], clusters: &[ClusterMembership]) -> (senses:
    Vec<SemanticWordSense>)
    ensures
        senses@.len() == sensed_clusters(occurrences@, clusters@).len(),
        forall|i: int|
            0 <= i < senses@.len() ==> is_sense_of(
                occurrences@,
                sensed_clusters(occurrences@, clusters@)[i],
                #[trigger] senses@[i],
            ),
        clusters_split_occurrences(occurrences@, clusters@) ==> sense_total(senses@)
            == occurrences@.len(),
{
    let mut senses: Vec<SemanticWordSense> = Vec::new();
    let mut index: usize = 0;
    while index < clusters.len()
        invariant
            index <= clusters@.len(),
            senses@.len() == sensed_clusters(occurrences@, clusters@.take(index as int)).len(),
            forall|i: int|
                0 <= i < senses@.len() ==> is_sense_of(
                    occurrences@,
                    sensed_clusters(occurrences@, clusters@.take(index as int))[i],
                    #[trigger] senses@[i],
                ),
        decreases clusters@.len() - index,
    {
        proof {
            assert(clusters@.take(index + 1).drop_last() =~= clusters@.take(index as int));
        }
        let ghost before = senses@;
        match sense_for_cluster(occurrences, &clusters[index]) {
            Some(sense) => {
                senses.push(sense);
                proof {
                    assert forall|i: int|
                        0 <= i < senses@.len() implies is_sense_of(
                        occurrences@,
                        sensed_clusters(occurrences@, clusters@.take(index + 1))[i],
                        #[trigger] senses@[i],
                    ) by {
                        if i < before.len() {
                            assert(senses@[i] == before[i]);
                        }
                    }
                }
            },
            None => {},
        }
        index = index + 1;
    }
    proof {
        assert(clusters@.take(index as int) =~= clusters@);
        if clusters_split_occurrences(occurrences@, clusters@) {
            law_senses_account_for_every_occurrence(occurrences@, clusters@, senses@);
        }
    }
    senses
}

/// Number of distinct unit ids, distinct source items and distinct authors
/// among the occurrences.
pub fn word_sense_totals(occurrences: &[SemanticWordOccurrence]) -> (totals: WordSenseTotals)
    ensures
        totals.occurrence_count == unit_ids_of(occurrences@).to_set().len(),
        totals.source_item_count == source_ids_of(occurrences@).to_set().len(),
        totals.author_count == authors_of(occurrences@).to_set().len(),
{
    let mut units: Vec<String> = Vec::new();
    let mut index: usize = 0;
    proof {
        assert(views_of(units@) =~= Seq::<Seq<char>>::empty());
    }
    while index < occurrences.len()
        invariant
            index <= occurrences@.len(),
            strictly_sorted(views_of(units@)),
            forall|x: Seq<char>|
                #![trigger views_of(units@).contains(x)]
                views_of(units@).contains(x) <==> unit_ids_of(occurrences@.take(index as int)).contains(
                    x,
                ),
        decreases occurrences@.len() - index,
    {
        let ghost taken = unit_ids_of(occurrences@.take(index as int));
        let ghost next = unit_ids_of(occurrences@.take(index + 1));
        proof {
            assert(next =~= taken.push(occurrences@[index as int].unit_id@));
        }
        let ghost units_before = views_of(units@);
        insert_sorted(&mut units, occurrences[index].unit_id.clone());
        proof {
            assert forall|x: Seq<char>|
                #![trigger views_of(units@).contains(x)]
                views_of(units@).contains(x) <==> next.contains(x) by {
                if taken.contains(x) {
                    let t = choose|t: int| 0 <= t < taken.len() && taken[t] == x;
                    assert(next[t] == x);
                }
                if next.contains(x) && x != occurrences@[index as int].unit_id@ {
                    let t = choose|t: int| 0 <= t < next.len() && next[t] == x;
                    assert(taken[t] == x);
                }
                assert(next[index as int] == occurrences@[index as int].unit_id@);
                assert(units_before.contains(x) <==> taken.contains(x));
            }
        }
        index = index + 1;
    }
    proof {
        assert(occurrences@.take(index as int) =~= occurrences@);
    }
    let (sources, authors) = distinct_sources_and_authors(occurrences);
    proof {
        lemma_distinct_count(views_of(units@), unit_ids_of(occurrences@));
        lemma_distinct_count(views_of(sources@), source_ids_of(occurrences@));
        lemma_distinct_count(views_of(authors@), authors_of(occurrences@));
    }
    WordSenseTotals {
        occurrence_count: units.len(),
        source_item_count: sources.len(),
        author_count: authors.len(),
    }
}

/// A strictly sorted list holding exactly the elements of `values` is as
/// long as the set of those elements.
proof fn lemma_distinct_count(sorted: Seq<Seq<char>>, values: Seq<Seq<char>>)
    requires
        strictly_sorted(sorted),
        forall|x: Seq<char>| #![trigger sorted.contains(x)] sorted.contains(x) <==> values.contains(x),
    ensures
        sorted.len() == values.to_set().len(),
{
    lemma_strictly_sorted_distinct(sorted);
    sorted.unique_seq_to_set();
    assert(sorted.to_set() =~= values.to_set());
}

/// The structural part of a word-sense report: the target as written and
/// normalized, the totals over its occurrences, and its senses.
#[derive(Debug, Clone, PartialEq, Eq)]
pub struct WordSenseSummary {
    pub target: String,
    pub normalized_target: String,
    pub occurrence_count: usize,
    pub source_item_count: usize,
    pub author_count: usize,
    pub senses: Vec<SemanticWordSense>,
}

/// The word-sense report of a target over its occurrences and the clusters
/// of their contexts. A target without occurrences gives an empty report
/// whatever the clusters; otherwise the totals count the distinct units,
/// source items and authors of the occurrences, and the senses are those of
/// `assemble_word_senses`.
pub fn summarize_word_senses(
    target: &str,
    normalized_target: String,
    occurrences: &[SemanticWordOccurrence],
    clusters: &[ClusterMembership],
) -> (summary: WordSenseSummary)
    ensures
        summary.target@ == target@,
        summary.normalized_target@ == normalized_target@,
        occurrences@.len() == 0 ==> summary.occurrence_count == 0 && summary.source_item_count == 0
            && summary.author_count == 0 && summary.senses@.len() == 0,
        occurrences@.len() > 0 ==> {
            &&& summary.occurrence_count == unit_ids_of(occurrences@).to_set().len()
            &&& summary.source_item_count == source_ids_of(occurrences@).to_set().len()
            &&& summary.author_count == authors_of(occurrences@).to_set().len()
            &&& clusters_split_occurrences(occurrences@, clusters@) ==> sense_total(summary.senses@)
                == occurrences@.len()
            &&& summary.senses@.len() == sensed_clusters(occurrences@, clusters@).len()
            &&& forall|i: int|
                0 <= i < summary.senses@.len() ==> is_sense_of(
                    occurrences@,
                    sensed_clusters(occurrences@, clusters@)[i],
                    #[trigger] summary.senses@[i],
                )
        },
{
    if occurrences.len() == 0 {
        return WordSenseSummary {
            target: String::from_str(target),
            normalized_target,
            occurrence_count: 0,
            source_item_count: 0,
            author_count: 0,
            senses: Vec::new(),
        };
    }
    let totals = word_sense_totals(occurrences);
    let senses = assemble_word_senses(occurrences, clusters);
    WordSenseSummary {
        target: String::from_str(target),
        normalized_target,
        occurrence_count: totals.occurrence_count,
        source_item_count: totals.source_item_count,
        author_count: totals.author_count,
        senses,
    }
}

} // verus!
