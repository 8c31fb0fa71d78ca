//! The evidence of each well-supported corpus concept: its representative
//! passage and the distinct items and authors among its members.

use vstd::prelude::*;
use vstd::string::StringExecFns;

use crate::chars::{collect_chars, same_text};
use crate::corpus::{passage, PassageUnit, SemanticCorpusPassage, SemanticCorpusSource};
use crate::model::ClusterMembership;
use crate::order::{
    chars_less, insert_sorted, lemma_chars_less_asymmetric, lemma_chars_less_irreflexive,
    lemma_chars_less_total, lemma_chars_less_transitive, str_less, strictly_sorted, views_of,
};

verus! {

/// The structural evidence of one corpus concept.
#[derive(Debug, Clone, PartialEq, Eq)]
pub struct ConceptEvidence {
    pub cluster_id: String,
    /// The cluster id when the concept has no key terms; otherwise its first
    /// key terms (at most three) joined by `" · "`.
    pub label: String,
    /// The concept's most distinctive terms, best first, at most four.
    pub key_terms: Vec<String>,
    pub member_unit_count: usize,
    /// The rank of the cluster's coherence among the clusters: a higher rank
    /// for a more coherent cluster, an equal rank for an equal coherence.
    pub coherence_rank: u64,
    pub source_item_count: usize,
    pub author_count: usize,
    pub source_item_ids: Vec<String>,
    pub authors: Vec<String>,
    pub representative: SemanticCorpusPassage,
}

/// What is known of a cluster beyond its members: the rank of its
/// coherence among the clusters (higher for more coherent, equal for equal
/// coherence) and its candidate key terms, best first.
#[derive(Debug, Clone, PartialEq, Eq)]
pub struct ConceptScores {
    pub coherence_rank: u64,
    pub ranked_terms: Vec<String>,
}

/// A term of a cluster's units: how often the cluster's units use it, and in
/// how many primary units of the whole analysis it occurs.
#[derive(Debug, Clone, PartialEq, Eq)]
pub struct ConceptTerm {
    pub term: String,
    pub count: usize,
    pub document_count: usize,
}

/// Most key terms a concept keeps.
pub const CONCEPT_KEY_TERM_LIMIT: usize = 4;

/// Most key terms a concept label shows.
pub const CONCEPT_LABEL_TERM_LIMIT: usize = 3;

/// Name for whether `c` has the Unicode `Alphabetic` property, as
/// `char::is_alphabetic` reports it.
pub uninterp spec fn alphabetic(c: char) -> bool;

/// Calls `char::is_alphabetic`. The Unicode property table is not restated:
/// the result is named `alphabetic(c)`.
#[verifier::external_body]
fn char_is_alphabetic(c: char) -> (result: bool)
    ensures
        result == alphabetic(c),
{
    c.is_alphabetic()
}

/// Some character of `term` is alphabetic.
pub open spec fn has_letter(term: Seq<char>) -> bool {
    exists|i: int| 0 <= i < term.len() && alphabetic(#[trigger] term[i])
}

/// A term that occurs in at least four fifths of the primary units, when
/// there are at least five of them.
pub open spec fn near_ubiquitous(document_count: usize, total_primary_units: usize) -> bool {
    total_primary_units >= 5 && document_count * 5 >= total_primary_units * 4
}

/// A term that may become a key term: at least two characters, at least one
/// of them alphabetic, and not near-ubiquitous.
pub open spec fn is_key_term_candidate(term: ConceptTerm, total_primary_units: usize) -> bool {
    &&& term.term@.len() >= 2
    &&& has_letter(term.term@)
    &&& !near_ubiquitous(term.document_count, total_primary_units)
}

/// The candidate terms, in order.
pub open spec fn key_term_candidates(terms: Seq<ConceptTerm>, total_primary_units: usize) -> Seq<ConceptTerm>
    decreases terms.len(),
{
    if terms.len() == 0 {
        Seq::empty()
    } else {
        let earlier = key_term_candidates(terms.drop_last(), total_primary_units);
        if is_key_term_candidate(terms.last(), total_primary_units) {
            earlier.push(terms.last())
        } else {
            earlier
        }
    }
}

/// The key terms kept of the ranked candidates: the first four.
pub open spec fn key_term_choice(ranked: Seq<Seq<char>>) -> Seq<Seq<char>> {
    if ranked.len() <= CONCEPT_KEY_TERM_LIMIT {
        ranked
    } else {
        ranked.take(CONCEPT_KEY_TERM_LIMIT as int)
    }
}

/// The texts joined with `" · "` between neighbours.
pub open spec fn dot_joined(texts: Seq<Seq<char>>) -> Seq<char>
    decreases texts.len(),
{
    if texts.len() == 0 {
        Seq::empty()
    } else if texts.len() == 1 {
        texts[0]
    } else {
        dot_joined(texts.drop_last()) + " · "@ + texts.last()
    }
}

/// The label of a concept: its cluster id without key terms, otherwise its
/// first key terms (at most three) joined by `" · "`.
pub open spec fn concept_label_text(cluster_id: Seq<char>, key_terms: Seq<Seq<char>>) -> Seq<char> {
    if key_terms.len() == 0 {
        cluster_id
    } else if key_terms.len() <= CONCEPT_LABEL_TERM_LIMIT {
        dot_joined(key_terms)
    } else {
        dot_joined(key_terms.take(CONCEPT_LABEL_TERM_LIMIT as int))
    }
}

/// `evidence` carries what `scores` gives it: the coherence rank, the first
/// four ranked terms as key terms, and the label made of them.
pub open spec fn scored_as(evidence: ConceptEvidence, scores: ConceptScores) -> bool {
    &&& evidence.coherence_rank == scores.coherence_rank
    &&& views_of(evidence.key_terms@) == key_term_choice(views_of(scores.ranked_terms@))
    &&& evidence.label@ == concept_label_text(evidence.cluster_id@, views_of(evidence.key_terms@))
}

fn term_has_letter(term: &str) -> (found: bool)
    ensures
        found == has_letter(term@),
{
    let chars = collect_chars(term);
    let mut index: usize = 0;
    while index < chars.len()
        invariant
            chars@ == term@,
            index <= chars@.len(),
            forall|i: int| 0 <= i < index ==> !alphabetic(#[trigger] term@[i]),
        decreases chars@.len() - index,
    {
        if char_is_alphabetic(chars[index]) {
            return true;
        }
        index = index + 1;
    }
    false
}

fn copy_term(term: &ConceptTerm) -> (copy: ConceptTerm)
    ensures
        copy == *term,
{
    ConceptTerm { term: term.term.clone(), count: term.count, document_count: term.document_count }
}

/// The terms of a cluster that may become key terms, in the given order:
/// those of at least two characters with an alphabetic one among them, and
/// not near-ubiquitous (in at least four fifths of the `total_primary_units`
/// primary units, when there are at least five).
pub fn candidate_key_terms(terms: &[ConceptTerm], total_primary_units: usize) -> (candidates: Vec<
    ConceptTerm,
>)
    ensures
        candidates@ == key_term_candidates(terms@, total_primary_units),
{
    let mut candidates: Vec<ConceptTerm> = Vec::new();
    let mut index: usize = 0;
    while index < terms.len()
        invariant
            index <= terms@.len(),
            candidates@ == key_term_candidates(terms@.take(index as int), total_primary_units),
        decreases terms@.len() - index,
    {
        proof {
            assert(terms@.take(index + 1).drop_last() =~= terms@.take(index as int));
        }
        let term = &terms[index];
        let long_enough = term.term.as_str().unicode_len() >= 2;
        let ubiquitous = total_primary_units >= 5 && (term.document_count as u128) * 5 >= (
        total_primary_units as u128) * 4;
        if long_enough && !ubiquitous && term_has_letter(term.term.as_str()) {
            candidates.push(copy_term(term));
        }
        index = index + 1;
    }
    proof {
        assert(terms@.take(index as int) =~= terms@);
    }
    candidates
}

/// The first four ranked terms.
fn leading_terms(ranked: &Vec<String>) -> (terms: Vec<String>)
    ensures
        views_of(terms@) == key_term_choice(views_of(ranked@)),
{
    let mut terms: Vec<String> = Vec::new();
    let mut index: usize = 0;
    while index < ranked.len() && index < CONCEPT_KEY_TERM_LIMIT
        invariant
            index <= ranked@.len(),
            index <= CONCEPT_KEY_TERM_LIMIT,
            views_of(terms@) == views_of(ranked@).take(index as int),
        decreases ranked@.len() - index,
    {
        let ghost before = terms@;
        let term = ranked[index].clone();
        terms.push(term);
        proof {
            assert(terms@ == before.push(term));
            assert(views_of(terms@) =~= views_of(before).push(term@));
            assert(views_of(ranked@).take(index + 1) =~= views_of(ranked@).take(index as int).push(
                ranked@[index as int]@,
            ));
        }
        index = index + 1;
    }
    proof {
        if ranked@.len() <= CONCEPT_KEY_TERM_LIMIT {
            assert(views_of(ranked@).take(index as int) =~= views_of(ranked@));
        }
    }
    terms
}

/// The label of a concept with the given key terms: the cluster id when
/// there are none, otherwise the first key terms (at most three) joined by
/// `" · "`.
pub fn concept_label(cluster_id: &str, key_terms: &[String]) -> (label: String)
    ensures
        label@ == concept_label_text(cluster_id@, views_of(key_terms@)),
{
    if key_terms.len() == 0 {
        return String::from_str(cluster_id);
    }
    let mut label = String::new();
    let mut index: usize = 0;
    while index < key_terms.len() && index < CONCEPT_LABEL_TERM_LIMIT
        invariant
            index <= key_terms@.len(),
            index <= CONCEPT_LABEL_TERM_LIMIT,
            label@ == dot_joined(views_of(key_terms@).take(index as int)),
        decreases key_terms@.len() - index,
    {
        proof {
            assert(views_of(key_terms@).take(index + 1).drop_last() =~= views_of(key_terms@).take(
                index as int,
            ));
        }
        if index > 0 {
            label.append(" · ");
        }
        label.append(key_terms[index].as_str());
        proof {
            if index == 0 {
                assert(label@ =~= dot_joined(views_of(key_terms@).take(1)));
            }
        }
        index = index + 1;
    }
    proof {
        if key_terms@.len() <= CONCEPT_LABEL_TERM_LIMIT {
            assert(views_of(key_terms@).take(index as int) =~= views_of(key_terms@));
        }
    }
    label
}

/// The unit recorded under `id`; when several are, the last of them.
pub open spec fn passage_unit_for(units: Seq<PassageUnit>, id: Seq<char>) -> Option<PassageUnit>
    decreases units.len(),
{
    if units.len() == 0 {
        None
    } else if units.last().id@ == id {
        Some(units.last())
    } else {
        passage_unit_for(units.drop_last(), id)
    }
}

/// The source record of item `id`; when several are, the last of them.
pub open spec fn source_for(sources: Seq<SemanticCorpusSource>, id: Seq<char>) -> Option<SemanticCorpusSource>
    decreases sources.len(),
{
    if sources.len() == 0 {
        None
    } else if sources.last().id@ == id {
        Some(sources.last())
    } else {
        source_for(sources.drop_last(), id)
    }
}

/// The units recorded for the members, in member order, skipping members without one.
pub open spec fn member_units(units: Seq<PassageUnit>, members: Seq<String>) -> Seq<PassageUnit>
    decreases members.len(),
{
    if members.len() == 0 {
        Seq::empty()
    } else {
        let earlier = member_units(units, members.drop_last());
        match passage_unit_for(units, members.last()@) {
            Some(unit) => earlier.push(unit),
            None => earlier,
        }
    }
}

/// The source item ids of a list of units.
pub open spec fn unit_sources(units: Seq<PassageUnit>) -> Seq<Seq<char>> {
    units.map_values(|unit: PassageUnit| unit.source_id@)
}

/// The speakers of a list of units, skipping units without one.
pub open spec fn unit_speakers(units: Seq<PassageUnit>) -> Seq<Seq<char>>
    decreases units.len(),
{
    if units.len() == 0 {
        Seq::empty()
    } else {
        let earlier = unit_speakers(units.drop_last());
        match units.last().speaker {
            Some(speaker) => earlier.push(speaker@),
            None => earlier,
        }
    }
}

/// The passage that quotes `unit`, with its item's source record when known.
pub open spec fn quoted_passage(unit: PassageUnit, source: Option<SemanticCorpusSource>) -> SemanticCorpusPassage {
    SemanticCorpusPassage {
        unit_id: unit.id,
        source_id: unit.source_id,
        author: unit.speaker,
        source: match source {
            Some(record) => record.source,
            None => None,
        },
        timestamp_millis: match source {
            Some(record) => record.timestamp_millis,
            None => None,
        },
        span: unit.span,
        text: unit.text,
    }
}

/// `evidence` is the evidence that `cluster` has over `units` and `sources`.
pub open spec fn is_evidence_of(
    units: Seq<PassageUnit>,
    sources: Seq<SemanticCorpusSource>,
    cluster: ClusterMembership,
    evidence: ConceptEvidence,
) -> bool {
    let members = member_units(units, cluster.member_unit_ids@);
    &&& evidence.cluster_id@ == cluster.id@
    &&& evidence.member_unit_count == cluster.member_unit_ids@.len()
    &&& passage_unit_for(units, cluster.representative_unit_id@) matches Some(representative)
        && evidence.representative == quoted_passage(
        representative,
        source_for(sources, representative.source_id@),
    )
    &&& strictly_sorted(views_of(evidence.source_item_ids@))
    &&& forall|x: Seq<char>|
        #![trigger views_of(evidence.source_item_ids@).contains(x)]
        views_of(evidence.source_item_ids@).contains(x) <==> unit_sources(members).contains(x)
    &&& evidence.source_item_count == evidence.source_item_ids@.len()
    &&& strictly_sorted(views_of(evidence.authors@))
    &&& forall|x: Seq<char>|
        #![trigger views_of(evidence.authors@).contains(x)]
        views_of(evidence.authors@).contains(x) <==> unit_speakers(members).contains(x)
    &&& evidence.author_count == evidence.authors@.len()
}

/// The clusters with at least `min_members` members whose representative
/// unit is recorded, in order.
pub open spec fn evidenced_clusters(
    units: Seq<PassageUnit>,
    clusters: Seq<ClusterMembership>,
    min_members: usize,
) -> Seq<ClusterMembership>
    decreases clusters.len(),
{
    if clusters.len() == 0 {
        Seq::empty()
    } else {
        let earlier = evidenced_clusters(units, clusters.drop_last(), min_members);
        let cluster = clusters.last();
        if cluster.member_unit_ids@.len() >= min_members && passage_unit_for(
            units,
            cluster.representative_unit_id@,
        ) is Some {
            earlier.push(cluster)
        } else {
            earlier
        }
    }
}

/// What is known of each cluster that `evidenced_clusters` keeps, in the
/// same order; `scores` holds one entry per cluster.
pub open spec fn evidenced_scores(
    units: Seq<PassageUnit>,
    clusters: Seq<ClusterMembership>,
    scores: Seq<ConceptScores>,
    min_members: usize,
) -> Seq<ConceptScores>
    decreases clusters.len(),
{
    if clusters.len() == 0 {
        Seq::empty()
    } else {
        let earlier = evidenced_scores(units, clusters.drop_last(), scores.drop_last(), min_members);
        let cluster = clusters.last();
        if cluster.member_unit_ids@.len() >= min_members && passage_unit_for(
            units,
            cluster.representative_unit_id@,
        ) is Some {
            earlier.push(scores.last())
        } else {
            earlier
        }
    }
}

/// `a` comes strictly before `b` among the concepts: more member units first,
/// then the higher coherence rank, then the cluster id that sorts first.
pub open spec fn ranks_before(a: ConceptEvidence, b: ConceptEvidence) -> bool {
    ||| a.member_unit_count > b.member_unit_count
    ||| a.member_unit_count == b.member_unit_count && a.coherence_rank > b.coherence_rank
    ||| a.member_unit_count == b.member_unit_count && a.coherence_rank == b.coherence_rank
        && chars_less(a.cluster_id@, b.cluster_id@)
}

/// `a` and `b` agree on member count, coherence rank and cluster id.
pub open spec fn same_rank(a: ConceptEvidence, b: ConceptEvidence) -> bool {
    &&& a.member_unit_count == b.member_unit_count
    &&& a.coherence_rank == b.coherence_rank
    &&& a.cluster_id@ == b.cluster_id@
}

/// `order` lists each position below `n` exactly once.
pub open spec fn is_arrangement(order: Seq<int>, n: nat) -> bool {
    &&& order.len() == n
    &&& forall|i: int| 0 <= i < n ==> 0 <= #[trigger] order[i] < n
    &&& forall|i: int, j: int|
        #![trigger order[i], order[j]]
        0 <= i < n && 0 <= j < n && i != j ==> order[i] != order[j]
}

/// `evidence` is sorted by `ranks_before`; concepts of the same rank keep the
/// order of the positions `order` gives them (a stable sort).
pub open spec fn ranked_by_support(evidence: Seq<ConceptEvidence>, order: Seq<int>) -> bool {
    forall|i: int, j: int|
        #![trigger evidence[i], evidence[j]]
        0 <= i < j < evidence.len() ==> ranks_before(evidence[i], evidence[j]) || (same_rank(
            evidence[i],
            evidence[j],
        ) && order[i] < order[j])
}

proof fn lemma_rank_total(a: ConceptEvidence, b: ConceptEvidence)
    ensures
        !ranks_before(b, a) ==> ranks_before(a, b) || same_rank(a, b),
        !(ranks_before(a, b) && ranks_before(b, a)),
        !(ranks_before(a, b) && same_rank(a, b)),
{
    lemma_chars_less_total(a.cluster_id@, b.cluster_id@);
    lemma_chars_less_asymmetric(a.cluster_id@, b.cluster_id@);
    lemma_chars_less_irreflexive(a.cluster_id@);
}

proof fn lemma_rank_chain(a: ConceptEvidence, b: ConceptEvidence, c: ConceptEvidence)
    requires
        ranks_before(a, b) || same_rank(a, b),
        ranks_before(b, c) || same_rank(b, c),
    ensures
        ranks_before(a, c) || same_rank(a, c),
{
    if chars_less(a.cluster_id@, b.cluster_id@) && chars_less(b.cluster_id@, c.cluster_id@) {
        lemma_chars_less_transitive(a.cluster_id@, b.cluster_id@, c.cluster_id@);
    }
}

fn rank_precedes(a: &ConceptEvidence, b: &ConceptEvidence) -> (before: bool)
    ensures
        before == ranks_before(*a, *b),
{
    if a.member_unit_count != b.member_unit_count {
        a.member_unit_count > b.member_unit_count
    } else if a.coherence_rank != b.coherence_rank {
        a.coherence_rank > b.coherence_rank
    } else {
        str_less(a.cluster_id.as_str(), b.cluster_id.as_str())
    }
}

/// Sorts the concepts by `ranks_before`, keeping the given order among equals.
fn sort_by_support(gathered: Vec<ConceptEvidence>) -> (sorted: Vec<ConceptEvidence>)
    ensures
        exists|order: Seq<int>|
            #[trigger] is_arrangement(order, gathered@.len()) && ranked_by_support(sorted@, order)
                && sorted@.len() == gathered@.len() && forall|i: int|
                0 <= i < sorted@.len() ==> sorted@[i] == gathered@[#[trigger] order[i]],
{
    let ghost g = gathered@;
    let mut rest = gathered;
    let mut sorted: Vec<ConceptEvidence> = Vec::new();
    let ghost mut order: Seq<int> = Seq::empty();
    while rest.len() > 0
        invariant
            rest@ == g.take(rest@.len() as int),
            rest@.len() <= g.len(),
            sorted@.len() + rest@.len() == g.len(),
            order.len() == sorted@.len(),
            forall|i: int| 0 <= i < order.len() ==> rest@.len() <= #[trigger] order[i] < g.len(),
            forall|i: int, j: int|
                #![trigger order[i], order[j]]
                0 <= i < order.len() && 0 <= j < order.len() && i != j ==> order[i] != order[j],
            forall|i: int| 0 <= i < sorted@.len() ==> sorted@[i] == g[#[trigger] order[i]],
            ranked_by_support(sorted@, order),
        decreases rest@.len(),
    {
        let ghost k = rest@.len() - 1;
        let item = rest.pop().unwrap();
        proof {
            assert(rest@ =~= g.take(k));
            assert(item == g[k]);
        }
        let mut position: usize = 0;
        let mut searching = true;
        while searching
            invariant
                position <= sorted@.len(),
                forall|i: int| 0 <= i < position ==> ranks_before(#[trigger] sorted@[i], item),
                !searching ==> position == sorted@.len() || !ranks_before(
                    sorted@[position as int],
                    item,
                ),
            decreases sorted@.len() - position + if searching {
                1int
            } else {
                0int
            },
        {
            if position < sorted.len() && rank_precedes(&sorted[position], &item) {
                position = position + 1;
            } else {
                searching = false;
            }
        }
        let ghost before = sorted@;
        let ghost order_before = order;
        proof {
            assert forall|i: int| position <= i < before.len() implies ranks_before(
                item,
                #[trigger] before[i],
            ) || same_rank(item, before[i]) by {
                lemma_rank_total(item, before[position as int]);
                if i > position {
                    assert(ranks_before(before[position as int], before[i]) || same_rank(
                        before[position as int],
                        before[i],
                    ));
                    lemma_rank_chain(item, before[position as int], before[i]);
                }
            }
        }
        sorted.insert(position, item);
        proof {
            order = order.insert(position as int, k);
            let p = position as int;
            assert forall|i: int, j: int|
                #![trigger sorted@[i], sorted@[j]]
                0 <= i < j < sorted@.len() implies ranks_before(sorted@[i], sorted@[j]) || (
                same_rank(sorted@[i], sorted@[j]) && order[i] < order[j]) by {
                if j < p {
                    assert(sorted@[i] == before[i] && sorted@[j] == before[j]);
                    assert(ranks_before(before[i], before[j]) || (same_rank(before[i], before[j])
                        && order_before[i] < order_before[j]));
                } else if j == p {
                    assert(sorted@[i] == before[i]);
                    assert(ranks_before(before[i], item));
                } else if i == p {
                    assert(sorted@[j] == before[j - 1]);
                    assert(ranks_before(item, before[j - 1]) || same_rank(item, before[j - 1]));
                    assert(order[j] == order_before[j - 1]);
                    assert(order_before[j - 1] >= k + 1);
                } else if i < p {
                    assert(sorted@[i] == before[i] && sorted@[j] == before[j - 1]);
                    assert(ranks_before(before[i], before[j - 1]) || (same_rank(
                        before[i],
                        before[j - 1],
                    ) && order_before[i] < order_before[j - 1]));
                } else {
                    assert(sorted@[i] == before[i - 1] && sorted@[j] == before[j - 1]);
                    assert(ranks_before(before[i - 1], before[j - 1]) || (same_rank(
                        before[i - 1],
                        before[j - 1],
                    ) && order_before[i - 1] < order_before[j - 1]));
                }
            }
            assert forall|i: int| 0 <= i < order.len() implies rest@.len() <= #[trigger] order[i]
                < g.len() by {
                if i < p {
                    assert(order[i] == order_before[i]);
                } else if i > p {
                    assert(order[i] == order_before[i - 1]);
                }
            }
            assert forall|i: int, j: int|
                #![trigger order[i], order[j]]
                0 <= i < order.len() && 0 <= j < order.len() && i != j implies order[i]
                    != order[j] by {
                if i != p && j != p {
                    let a = if i < p { i } else { i - 1 };
                    let b = if j < p { j } else { j - 1 };
                    assert(order[i] == order_before[a] && order[j] == order_before[b]);
                } else if i == p {
                    let b = if j < p { j } else { j - 1 };
                    assert(order[j] == order_before[b]);
                } else {
                    let a = if i < p { i } else { i - 1 };
                    assert(order[i] == order_before[a]);
                }
            }
            assert forall|i: int| 0 <= i < sorted@.len() implies sorted@[i] == g[
                #[trigger] order[i]
            ] by {
                if i < p {
                    assert(order[i] == order_before[i]);
                } else if i > p {
                    assert(order[i] == order_before[i - 1]);
                }
            }
        }
    }
    proof {
        assert(is_arrangement(order, g.len()));
    }
    sorted
}

fn find_unit(units: &[PassageUnit], id: &str) -> (found: Option<usize>)
    ensures
        match found {
            Some(k) => k < units@.len() && passage_unit_for(units@, id@) == Some(units@[k as int]),
            None => passage_unit_for(units@, id@) is None,
        },
{
    let mut found: Option<usize> = None;
    let mut index: usize = 0;
    while index < units.len()
        invariant
            index <= units@.len(),
            match found {
                Some(k) => k < index && passage_unit_for(units@.take(index as int), id@) == Some(
                    units@[k as int],
                ),
                None => passage_unit_for(units@.take(index as int), id@) is None,
            },
        decreases units@.len() - index,
    {
        proof {
            assert(units@.take(index + 1).drop_last() =~= units@.take(index as int));
        }
        if same_text(units[index].id.as_str(), id) {
            found = Some(index);
        }
        index = index + 1;
    }
    proof {
        assert(units@.take(index as int) =~= units@);
    }
    found
}

fn find_source(sources: &[SemanticCorpusSource], id: &str) -> (found: Option<usize>)
    ensures
        match found {
            Some(k) => k < sources@.len() && source_for(sources@, id@) == Some(sources@[k as int]),
            None => source_for(sources@, id@) is None,
        },
{
    let mut found: Option<usize> = None;
    let mut index: usize = 0;
    while index < sources.len()
        invariant
            index <= sources@.len(),
            match found {
                Some(k) => k < index && source_for(sources@.take(index as int), id@) == Some(
                    sources@[k as int],
                ),
                None => source_for(sources@.take(index as int), id@) is None,
            },
        decreases sources@.len() - index,
    {
        proof {
            assert(sources@.take(index + 1).drop_last() =~= sources@.take(index as int));
        }
        if same_text(sources[index].id.as_str(), id) {
            found = Some(index);
        }
        index = index + 1;
    }
    proof {
        assert(sources@.take(index as int) =~= sources@);
    }
    found
}

/// The sorted distinct source items and speakers of the members' units.
fn member_sources_and_speakers(units: &[PassageUnit], members: &Vec<String>) -> (result: (
    Vec<String>,
    Vec<String>,
))
    ensures
        strictly_sorted(views_of(result.0@)),
        forall|x: Seq<char>|
            #![trigger views_of(result.0@).contains(x)]
            views_of(result.0@).contains(x) <==> unit_sources(member_units(units@, members@)).contains(
                x,
            ),
        strictly_sorted(views_of(result.1@)),
        forall|x: Seq<char>|
            #![trigger views_of(result.1@).contains(x)]
            views_of(result.1@).contains(x) <==> unit_speakers(member_units(units@, members@)).contains(
                x,
            ),
{
    let mut sources: Vec<String> = Vec::new();
    let mut speakers: Vec<String> = Vec::new();
    let mut index: usize = 0;
    proof {
        assert(views_of(sources@) =~= Seq::<Seq<char>>::empty());
        assert(views_of(speakers@) =~= Seq::<Seq<char>>::empty());
    }
    while index < members.len()
        invariant
            index <= members@.len(),
            strictly_sorted(views_of(sources@)),
            strictly_sorted(views_of(speakers@)),
            forall|x: Seq<char>|
                #![trigger views_of(sources@).contains(x)]
                views_of(sources@).contains(x) <==> unit_sources(
                    member_units(units@, members@.take(index as int)),
                ).contains(x),
            forall|x: Seq<char>|
                #![trigger views_of(speakers@).contains(x)]
                views_of(speakers@).contains(x) <==> unit_speakers(
                    member_units(units@, members@.take(index as int)),
                ).contains(x),
        decreases members@.len() - index,
    {
        let ghost taken = member_units(units@, members@.take(index as int));
        let ghost next = member_units(units@, members@.take(index + 1));
        proof {
            assert(members@.take(index + 1).drop_last() =~= members@.take(index as int));
        }
        let ghost sources_before = views_of(sources@);
        let ghost speakers_before = views_of(speakers@);
        match find_unit(units, members[index].as_str()) {
            Some(k) => {
                let unit = &units[k];
                insert_sorted(&mut sources, unit.source_id.clone());
                match &unit.speaker {
                    Some(speaker) => {
                        insert_sorted(&mut speakers, speaker.clone());
                    },
                    None => {},
                }
                proof {
                    assert(next == taken.push(*unit));
                    assert(unit_sources(next) =~= unit_sources(taken).push(unit.source_id@));
                    assert forall|x: Seq<char>|
                        #![trigger views_of(sources@).contains(x)]
                        views_of(sources@).contains(x) <==> unit_sources(next).contains(x) by {
                        let before = unit_sources(taken);
                        assert(sources_before.contains(x) <==> before.contains(x));
                        if before.contains(x) {
                            let t = choose|t: int| 0 <= t < before.len() && before[t] == x;
                            assert(unit_sources(next)[t] == x);
                        }
                        if unit_sources(next).contains(x) && x != unit.source_id@ {
                            let t = choose|t: int|
                                0 <= t < unit_sources(next).len() && unit_sources(next)[t] == x;
                            assert(before[t] == x);
                        }
                        assert(unit_sources(next)[taken.len() as int] == unit.source_id@);
                    }
                    assert forall|x: Seq<char>|
                        #![trigger views_of(speakers@).contains(x)]
                        views_of(speakers@).contains(x) <==> unit_speakers(next).contains(x) by {
                        let before = unit_speakers(taken);
                        assert(speakers_before.contains(x) <==> before.contains(x));
                        assert(next.drop_last() =~= taken);
                        match unit.speaker {
                            Some(speaker) => {
                                assert(unit_speakers(next) == before.push(speaker@));
                                if before.contains(x) {
                                    let t = choose|t: int| 0 <= t < before.len() && before[t] == x;
                                    assert(unit_speakers(next)[t] == x);
                                }
                                if unit_speakers(next).contains(x) && x != speaker@ {
                                    let t = choose|t: int|
                                        0 <= t < unit_speakers(next).len() && unit_speakers(
                                            next,
                                        )[t] == x;
                                    assert(before[t] == x);
                                }
                                assert(unit_speakers(next)[before.len() as int] == speaker@);
                            },
                            None => {
                                assert(unit_speakers(next) == before);
                            },
                        }
                    }
                }
            },
            None => {
                proof {
                    assert(next == taken);
                }
            },
        }
        index = index + 1;
    }
    proof {
        assert(members@.take(index as int) =~= members@);
    }
    (sources, speakers)
}

/// The evidence of the evidenced clusters, in cluster order.
fn gather_evidence(
    units: &[PassageUnit],
    sources: &[SemanticCorpusSource],
    clusters: &[ClusterMembership],
    scores: &[ConceptScores],
    min_members: usize,
) -> (evidence: Vec<ConceptEvidence>)
    requires
        scores@.len() == clusters@.len(),
    ensures
        evidence@.len() == evidenced_clusters(units@, clusters@, min_members).len(),
        forall|i: int|
            0 <= i < evidence@.len() ==> is_evidence_of(
                units@,
                sources@,
                evidenced_clusters(units@, clusters@, min_members)[i],
                #[trigger] evidence@[i],
            ) && scored_as(evidence@[i], evidenced_scores(
                units@,
                clusters@,
                scores@,
                min_members,
            )[i]),
{
    let mut evidence: Vec<ConceptEvidence> = Vec::new();
    let mut index: usize = 0;
    while index < clusters.len()
        invariant
            index <= clusters@.len(),
            scores@.len() == clusters@.len(),
            evidence@.len() == evidenced_clusters(units@, clusters@.take(index as int), min_members).len(),
            evidence@.len() == evidenced_scores(
                units@,
                clusters@.take(index as int),
                scores@.take(index as int),
                min_members,
            ).len(),
            forall|i: int|
                0 <= i < evidence@.len() ==> is_evidence_of(
                    units@,
                    sources@,
                    evidenced_clusters(units@, clusters@.take(index as int), min_members)[i],
                    #[trigger] evidence@[i],
                ) && scored_as(evidence@[i], evidenced_scores(
                    units@,
                    clusters@.take(index as int),
                    scores@.take(index as int),
                    min_members,
                )[i]),
        decreases clusters@.len() - index,
    {
        proof {
            assert(clusters@.take(index + 1).drop_last() =~= clusters@.take(index as int));
            assert(scores@.take(index + 1).drop_last() =~= scores@.take(
                index as int,
            ));
            assert(scores@.take(index + 1).last() == scores@[index as int]);
        }
        let cluster = &clusters[index];
        if cluster.member_unit_ids.len() >= min_members {
            match find_unit(units, cluster.representative_unit_id.as_str()) {
                Some(k) => {
                    let representative = &units[k];
                    let record = match find_source(sources, representative.source_id.as_str()) {
                        Some(s) => Some(&sources[s]),
                        None => None,
                    };
                    let quoted = passage(representative, record);
                    let (source_item_ids, authors) = member_sources_and_speakers(
                        units,
                        &cluster.member_unit_ids,
                    );
                    let key_terms = leading_terms(&scores[index].ranked_terms);
                    let label = concept_label(cluster.id.as_str(), key_terms.as_slice());
                    let ghost before = evidence@;
                    let source_item_count = source_item_ids.len();
                    let author_count = authors.len();
                    evidence.push(
                        ConceptEvidence {
                            cluster_id: cluster.id.clone(),
                            member_unit_count: cluster.member_unit_ids.len(),
                            label,
                            key_terms,
                            coherence_rank: scores[index].coherence_rank,
                            source_item_count,
                            author_count,
                            source_item_ids,
                            authors,
                            representative: quoted,
                        },
                    );
                    proof {
                        assert forall|i: int|
                            0 <= i < evidence@.len() implies is_evidence_of(
                            units@,
                            sources@,
                            evidenced_clusters(units@, clusters@.take(index + 1), min_members)[i],
                            #[trigger] evidence@[i],
                        ) && scored_as(evidence@[i], evidenced_scores(
                            units@,
                            clusters@.take(index + 1),
                            scores@.take(index + 1),
                            min_members,
                        )[i]) by {
                            if i < before.len() {
                                assert(evidence@[i] == before[i]);
                            }
                        }
                    }
                },
                None => {},
            }
        }
        index = index + 1;
    }
    proof {
        assert(clusters@.take(index as int) =~= clusters@);
        assert(scores@.take(index as int) =~= scores@);
    }
    evidence
}

/// The evidence of every cluster with at least `min_members` members whose
/// representative unit is recorded: the member count, the cluster's
/// coherence rank, the representative passage with its item's source record,
/// and the sorted distinct source items and authors of the recorded member
/// units, with the key terms and label that `scores[c]` gives cluster
/// `clusters[c]`: its coherence rank among the clusters (higher for more
/// coherent), and its candidate terms, best first, of which the concept keeps
/// the first four as key terms and labels itself with the first three (or
/// with its cluster id when it has none). The concepts come most-supported
/// first: by member count, highest first, then by coherence rank, highest
/// first, then by cluster id; concepts equal in all three keep cluster order.
pub fn concept_evidence(
    units: &[PassageUnit],
    sources: &[SemanticCorpusSource],
    clusters: &[ClusterMembership],
    scores: &[ConceptScores],
    min_members: usize,
) -> (evidence: Vec<ConceptEvidence>)
    requires
        scores@.len() == clusters@.len(),
    ensures
        evidence@.len() == evidenced_clusters(units@, clusters@, min_members).len(),
        exists|order: Seq<int>|
            #[trigger] is_arrangement(order, evidence@.len()) && ranked_by_support(evidence@, order)
                && forall|i: int|
                0 <= i < evidence@.len() ==> is_evidence_of(
                    units@,
                    sources@,
                    evidenced_clusters(units@, clusters@, min_members)[#[trigger] order[i]],
                    evidence@[i],
                ) && scored_as(evidence@[i], evidenced_scores(
                    units@,
                    clusters@,
                    scores@,
                    min_members,
                )[order[i]]),
{
    let gathered = gather_evidence(units, sources, clusters, scores, min_members);
    let ghost g = gathered@;
    let evidence = sort_by_support(gathered);
    proof {
        let order = choose|order: Seq<int>|
            #[trigger] is_arrangement(order, g.len()) && ranked_by_support(evidence@, order)
                && evidence@.len() == g.len() && forall|i: int|
                0 <= i < evidence@.len() ==> evidence@[i] == g[#[trigger] order[i]];
        assert forall|i: int| 0 <= i < evidence@.len() implies is_evidence_of(
            units@,
            sources@,
            evidenced_clusters(units@, clusters@, min_members)[#[trigger] order[i]],
            evidence@[i],
        ) && scored_as(evidence@[i], evidenced_scores(
            units@,
            clusters@,
            scores@,
            min_members,
        )[order[i]]) by {
            assert(evidence@[i] == g[order[i]]);
        }
        assert(is_arrangement(order, evidence@.len()));
    }
    evidence
}


/// Number of units in the clusters that have fewer than `min_concept_units` members.
pub open spec fn units_below_support(clusters: Seq<ClusterMembership>, min_concept_units: usize) -> nat
    decreases clusters.len(),
{
    if clusters.len() == 0 {
        0
    } else {
        units_below_support(clusters.drop_last(), min_concept_units) + if clusters.last().member_unit_ids@.len()
            < min_concept_units {
            clusters.last().member_unit_ids@.len()
        } else {
            0
        }
    }
}

/// Number of units over all clusters.
pub open spec fn clustered_units(clusters: Seq<ClusterMembership>) -> nat
    decreases clusters.len(),
{
    if clusters.len() == 0 {
        0
    } else {
        clustered_units(clusters.drop_last()) + clusters.last().member_unit_ids@.len()
    }
}

proof fn lemma_units_below_support_bounded(clusters: Seq<ClusterMembership>, min_concept_units: usize, count: int)
    requires
        0 <= count <= clusters.len(),
    ensures
        units_below_support(clusters.take(count), min_concept_units) <= clustered_units(clusters),
    decreases clusters.len(),
{
    if count == clusters.len() {
        assert(clusters.take(count) =~= clusters);
        lemma_below_support_at_most_all(clusters, min_concept_units);
    } else {
        lemma_units_below_support_bounded(clusters.drop_last(), min_concept_units, count);
        assert(clusters.drop_last().take(count) =~= clusters.take(count));
    }
}

proof fn lemma_below_support_at_most_all(clusters: Seq<ClusterMembership>, min_concept_units: usize)
    ensures
        units_below_support(clusters, min_concept_units) <= clustered_units(clusters),
    decreases clusters.len(),
{
    if clusters.len() > 0 {
        lemma_below_support_at_most_all(clusters.drop_last(), min_concept_units);
    }
}

/// The number of units assigned only to clusters below the concept support:
/// the members of every cluster with fewer than `min_concept_units` members.
pub fn non_concept_unit_count(clusters: &[ClusterMembership], min_concept_units: usize) -> (count: usize)
    requires
        clustered_units(clusters@) <= usize::MAX,
    ensures
        count == units_below_support(clusters@, min_concept_units),
{
    let mut count: usize = 0;
    let mut index: usize = 0;
    while index < clusters.len()
        invariant
            index <= clusters@.len(),
            clustered_units(clusters@) <= usize::MAX,
            count == units_below_support(clusters@.take(index as int), min_concept_units),
        decreases clusters@.len() - index,
    {
        proof {
            assert(clusters@.take(index + 1).drop_last() =~= clusters@.take(index as int));
            lemma_units_below_support_bounded(clusters@, min_concept_units, index + 1);
        }
        let size = clusters[index].member_unit_ids.len();
        if size < min_concept_units {
            count = count + size;
        }
        index = index + 1;
    }
    proof {
        assert(clusters@.take(index as int) =~= clusters@);
    }
    count
}

} // verus!
