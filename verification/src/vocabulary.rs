//! The vocabulary of indexed chunks and the fuzzy corrections it offers for a
//! query term.

use vstd::prelude::*;
use vstd::string::StringExecFns;

use crate::chars::{decimal, decimal_text, same_text};
use crate::distance::bounded_osa;
use crate::fuzzy::{bounded_damerau_levenshtein, MAX_FUZZY_TERM_CHARS};
use crate::order::{
    chars_less, insert_sorted, lemma_chars_less_asymmetric, lemma_chars_less_irreflexive,
    lemma_chars_less_total, lemma_chars_less_transitive, lemma_strictly_sorted_distinct, str_less,
    strictly_sorted, views_of,
};

verus! {

/// One distinct vocabulary term and the number of chunks that contain it.
#[derive(Debug, Clone, PartialEq, Eq)]
pub struct VocabularyTerm {
    pub term: String,
    pub document_frequency: usize,
}

/// The terms of a list of vocabulary entries, as characters.
pub open spec fn term_views(entries: Seq<VocabularyTerm>) -> Seq<Seq<char>> {
    entries.map_values(|entry: VocabularyTerm| entry.term@)
}

/// A term takes part in fuzzy matching when its length in characters is
/// between `min_term_length` and the fuzzy term limit.
pub open spec fn eligible_term(term: Seq<char>, min_term_length: usize) -> bool {
    min_term_length <= term.len() <= MAX_FUZZY_TERM_CHARS
}

/// Number of chunks whose terms include `term`.
pub open spec fn document_frequency(chunks: Seq<Vec<String>>, term: Seq<char>) -> nat
    decreases chunks.len(),
{
    if chunks.len() == 0 {
        0
    } else {
        document_frequency(chunks.drop_last(), term) + if views_of(chunks.last()@).contains(term) {
            1nat
        } else {
            0nat
        }
    }
}

/// `term` is an eligible term of at least one chunk.
pub open spec fn in_vocabulary(chunks: Seq<Vec<String>>, term: Seq<char>, min_term_length: usize) -> bool {
    eligible_term(term, min_term_length) && document_frequency(chunks, term) > 0
}

/// The distinct eligible terms of a list of chunks, in ascending order, each
/// with the number of chunks that contain it.
pub struct Vocabulary {
    entries: Vec<VocabularyTerm>,
}

impl View for Vocabulary {
    type V = Seq<VocabularyTerm>;

    closed spec fn view(&self) -> Seq<VocabularyTerm> {
        self.entries@
    }
}

impl Vocabulary {
    #[verifier::type_invariant]
    spec fn terms_ascend(self) -> bool {
        strictly_sorted(term_views(self.entries@))
    }

    /// The entries, in ascending order of their terms.
    pub fn entries(&self) -> (entries: &[VocabularyTerm])
        ensures
            entries@ == self@,
    {
        self.entries.as_slice()
    }
}

/// Refusal of a vocabulary that would exceed its configured size.
#[derive(Debug, Clone, Copy, PartialEq, Eq)]
pub enum VocabularyError {
    /// More distinct eligible terms than `limit`.
    TooLarge { limit: usize },
}

proof fn lemma_frequency_step(chunks: Seq<Vec<String>>, count: int, term: Seq<char>)
    requires
        0 <= count < chunks.len(),
    ensures
        document_frequency(chunks.take(count + 1), term) == document_frequency(
            chunks.take(count),
            term,
        ) + if views_of(chunks[count]@).contains(term) {
            1nat
        } else {
            0nat
        },
{
    assert(chunks.take(count + 1).drop_last() =~= chunks.take(count));
}

proof fn lemma_frequency_prefix(chunks: Seq<Vec<String>>, count: int, term: Seq<char>)
    requires
        0 <= count <= chunks.len(),
    ensures
        document_frequency(chunks.take(count), term) <= document_frequency(chunks, term),
        document_frequency(chunks, term) <= chunks.len(),
    decreases chunks.len(),
{
    if chunks.len() > 0 {
        if count < chunks.len() {
            assert(chunks.drop_last().take(count) =~= chunks.take(count));
            lemma_frequency_prefix(chunks.drop_last(), count, term);
        } else {
            assert(chunks.take(count) =~= chunks);
            lemma_frequency_prefix(chunks.drop_last(), 0, term);
        }
    }
}

fn string_listed(list: &Vec<String>, candidate: &String) -> (listed: bool)
    ensures
        listed == views_of(list@).contains(candidate@),
{
    let mut index: usize = 0;
    while index < list.len()
        invariant
            index <= list@.len(),
            forall|i: int| 0 <= i < index ==> list@[i]@ != candidate@,
        decreases list@.len() - index,
    {
        if list[index] == *candidate {
            proof {
                assert(views_of(list@)[index as int] == candidate@);
            }
            return true;
        }
        index = index + 1;
    }
    proof {
        if views_of(list@).contains(candidate@) {
            let i = choose|i: int| 0 <= i < views_of(list@).len() && views_of(list@)[i] == candidate@;
            assert(list@[i]@ == candidate@);
        }
    }
    false
}

/// The distinct eligible terms of `chunks`, sorted, or an error once more than
/// `max_vocabulary_terms` of them exist. Each chunk is given by its word terms.
fn distinct_terms(chunks: &[Vec<String>], min_term_length: usize, max_vocabulary_terms: usize) -> (result:
    Result<Vec<String>, VocabularyError>)
    ensures
        match result {
            Ok(terms) => {
                &&& terms@.len() <= max_vocabulary_terms
                &&& strictly_sorted(views_of(terms@))
                &&& forall|x: Seq<char>|
                    #![trigger views_of(terms@).contains(x)]
                    views_of(terms@).contains(x) <==> in_vocabulary(chunks@, x, min_term_length)
            },
            Err(error) => {
                &&& error == VocabularyError::TooLarge { limit: max_vocabulary_terms }
                &&& exists|terms: Seq<Seq<char>>|
                    {
                        &&& terms.len() == max_vocabulary_terms + 1
                        &&& terms.no_duplicates()
                        &&& forall|i: int|
                            0 <= i < terms.len() ==> in_vocabulary(
                                chunks@,
                                #[trigger] terms[i],
                                min_term_length,
                            )
                    }
            },
        },
{
    let mut terms: Vec<String> = Vec::new();
    let mut chunk: usize = 0;
    proof {
        assert(views_of(terms@) =~= Seq::<Seq<char>>::empty());
    }
    while chunk < chunks.len()
        invariant
            chunk <= chunks@.len(),
            terms@.len() <= max_vocabulary_terms,
            strictly_sorted(views_of(terms@)),
            forall|x: Seq<char>|
                #![trigger views_of(terms@).contains(x)]
                views_of(terms@).contains(x) <==> eligible_term(x, min_term_length)
                    && document_frequency(chunks@.take(chunk as int), x) > 0,
        decreases chunks@.len() - chunk,
    {
        let words = &chunks[chunk];
        let mut word: usize = 0;
        while word < words.len()
            invariant
                chunk < chunks@.len(),
                words == chunks@[chunk as int],
                word <= words@.len(),
                terms@.len() <= max_vocabulary_terms,
                strictly_sorted(views_of(terms@)),
                forall|x: Seq<char>|
                    #![trigger views_of(terms@).contains(x)]
                    views_of(terms@).contains(x) <==> eligible_term(x, min_term_length) && (
                    document_frequency(chunks@.take(chunk as int), x) > 0 || views_of(
                        words@,
                    ).take(word as int).contains(x)),
            decreases words@.len() - word,
        {
            let term = &words[word];
            let length = term.as_str().unicode_len();
            let ghost before = views_of(terms@);
            if min_term_length <= length && length <= MAX_FUZZY_TERM_CHARS {
                insert_sorted(&mut terms, term.clone());
            }
            proof {
                assert forall|x: Seq<char>|
                    #![trigger views_of(terms@).contains(x)]
                    views_of(terms@).contains(x) <==> eligible_term(x, min_term_length) && (
                    document_frequency(chunks@.take(chunk as int), x) > 0 || views_of(
                        words@,
                    ).take(word + 1).contains(x)) by {
                    let taken = views_of(words@).take(word as int);
                    assert(views_of(words@).take(word + 1) =~= taken.push(term@));
                    assert(before.contains(x) <==> eligible_term(x, min_term_length) && (
                    document_frequency(chunks@.take(chunk as int), x) > 0 || taken.contains(x)));
                    if taken.contains(x) {
                        let i = choose|i: int| 0 <= i < taken.len() && taken[i] == x;
                        assert(taken.push(term@)[i] == x);
                    }
                    if taken.push(term@).contains(x) && x != term@ {
                        let i = choose|i: int|
                            0 <= i < taken.push(term@).len() && taken.push(term@)[i] == x;
                        assert(taken[i] == x);
                    }
                    assert(taken.push(term@)[word as int] == term@);
                }
            }
            if terms.len() > max_vocabulary_terms {
                proof {
                    let witness = views_of(terms@);
                    lemma_strictly_sorted_distinct(witness);
                    assert forall|i: int|
                        0 <= i < witness.len() implies in_vocabulary(
                        chunks@,
                        #[trigger] witness[i],
                        min_term_length,
                    ) by {
                        let x = witness[i];
                        assert(views_of(terms@).contains(x));
                        lemma_frequency_step(chunks@, chunk as int, x);
                        lemma_frequency_prefix(chunks@, chunk + 1, x);
                        if views_of(words@).take(word + 1).contains(x) {
                            let prefix = views_of(words@).take(word + 1);
                            let j = choose|j: int| 0 <= j < prefix.len() && prefix[j] == x;
                            assert(views_of(words@)[j] == x);
                        }
                    }
                }
                return Err(VocabularyError::TooLarge { limit: max_vocabulary_terms });
            }
            word = word + 1;
        }
        proof {
            assert(views_of(words@).take(word as int) =~= views_of(words@));
            assert forall|x: Seq<char>|
                #![trigger views_of(terms@).contains(x)]
                views_of(terms@).contains(x) <==> eligible_term(x, min_term_length)
                    && document_frequency(chunks@.take(chunk + 1), x) > 0 by {
                lemma_frequency_step(chunks@, chunk as int, x);
            }
        }
        chunk = chunk + 1;
    }
    proof {
        assert(chunks@.take(chunk as int) =~= chunks@);
    }
    Ok(terms)
}

/// Number of chunks whose terms include `term`.
fn count_documents(chunks: &[Vec<String>], term: &String) -> (count: usize)
    ensures
        count == document_frequency(chunks@, term@),
{
    let mut count: usize = 0;
    let mut chunk: usize = 0;
    while chunk < chunks.len()
        invariant
            chunk <= chunks@.len(),
            count == document_frequency(chunks@.take(chunk as int), term@),
        decreases chunks@.len() - chunk,
    {
        proof {
            lemma_frequency_step(chunks@, chunk as int, term@);
            lemma_frequency_prefix(chunks@, chunk + 1, term@);
        }
        if string_listed(&chunks[chunk], term) {
            count = count + 1;
        }
        chunk = chunk + 1;
    }
    proof {
        assert(chunks@.take(chunk as int) =~= chunks@);
    }
    count
}

/// Builds the vocabulary of `chunks`, each given by its word terms: every
/// distinct term whose length in characters is between `min_term_length` and
/// the fuzzy term limit, in ascending order, with the number of chunks that
/// contain it. Refused when more than `max_vocabulary_terms` such terms exist.
pub fn build_vocabulary(chunks: &[Vec<String>], min_term_length: usize, max_vocabulary_terms: usize) -> (result:
    Result<Vocabulary, VocabularyError>)
    ensures
        match result {
            Ok(vocabulary) => {
                &&& vocabulary@.len() <= max_vocabulary_terms
                &&& strictly_sorted(term_views(vocabulary@))
                &&& forall|x: Seq<char>|
                    #![trigger term_views(vocabulary@).contains(x)]
                    term_views(vocabulary@).contains(x) <==> in_vocabulary(
                        chunks@,
                        x,
                        min_term_length,
                    )
                &&& forall|i: int|
                    0 <= i < vocabulary@.len() ==> (#[trigger] vocabulary@[i]).document_frequency
                        == document_frequency(chunks@, vocabulary@[i].term@)
            },
            Err(error) => {
                &&& error == VocabularyError::TooLarge { limit: max_vocabulary_terms }
                &&& exists|terms: Seq<Seq<char>>|
                    {
                        &&& terms.len() == max_vocabulary_terms + 1
                        &&& terms.no_duplicates()
                        &&& forall|i: int|
                            0 <= i < terms.len() ==> in_vocabulary(
                                chunks@,
                                #[trigger] terms[i],
                                min_term_length,
                            )
                    }
            },
        },
{
    let terms = match distinct_terms(chunks, min_term_length, max_vocabulary_terms) {
        Ok(terms) => terms,
        Err(error) => return Err(error),
    };
    let mut entries: Vec<VocabularyTerm> = Vec::new();
    let mut index: usize = 0;
    while index < terms.len()
        invariant
            index <= terms@.len(),
            term_views(entries@) == views_of(terms@).take(index as int),
            forall|i: int|
                0 <= i < entries@.len() ==> (#[trigger] entries@[i]).document_frequency
                    == document_frequency(chunks@, entries@[i].term@),
        decreases terms@.len() - index,
    {
        let frequency = count_documents(chunks, &terms[index]);
        let ghost before = entries@;
        entries.push(VocabularyTerm { term: terms[index].clone(), document_frequency: frequency });
        proof {
            assert(entries@ == before.push(entries@.last()));
            assert(entries@.last().term@ == terms@[index as int]@);
            assert(term_views(entries@) =~= term_views(before).push(terms@[index as int]@));
            assert(term_views(entries@) =~= views_of(terms@).take(index + 1));
            assert forall|i: int|
                0 <= i < entries@.len() implies (#[trigger] entries@[i]).document_frequency
                    == document_frequency(chunks@, entries@[i].term@) by {
                if i < before.len() {
                    assert(entries@[i] == before[i]);
                }
            }
        }
        index = index + 1;
    }
    proof {
        assert(views_of(terms@).take(index as int) =~= views_of(terms@));
    }
    Ok(Vocabulary { entries })
}

/// A vocabulary term offered as a correction of a query term.
#[derive(Debug, Clone, PartialEq, Eq)]
pub struct FuzzyTermMatch {
    pub query_term: String,
    pub matched_term: String,
    pub edit_distance: usize,
}

/// `term` corrects `query`: it differs from it and lies within a positive
/// distance no larger than `max_edit_distance`.
pub open spec fn is_correction(query: Seq<char>, term: Seq<char>, max_edit_distance: usize) -> bool {
    &&& term != query
    &&& bounded_osa(query, term, max_edit_distance) matches Some(d) && d > 0
}

/// The accepted distance from `query` to `term` (zero when not accepted).
pub open spec fn correction_distance(query: Seq<char>, term: Seq<char>, max_edit_distance: usize) -> usize {
    match bounded_osa(query, term, max_edit_distance) {
        Some(d) => d,
        None => 0,
    }
}

/// Order of corrections: smaller distance first, then higher document
/// frequency, then the term in ascending order.
pub open spec fn ranks_before(
    distance: usize,
    frequency: usize,
    term: Seq<char>,
    other_distance: usize,
    other_frequency: usize,
    other_term: Seq<char>,
) -> bool {
    distance < other_distance || (distance == other_distance && (frequency > other_frequency || (
    frequency == other_frequency && chars_less(term, other_term))))
}

/// The order of corrections applied to two vocabulary entries.
pub open spec fn entry_ranks_before(
    query: Seq<char>,
    max_edit_distance: usize,
    first: VocabularyTerm,
    second: VocabularyTerm,
) -> bool {
    ranks_before(
        correction_distance(query, first.term@, max_edit_distance),
        first.document_frequency,
        first.term@,
        correction_distance(query, second.term@, max_edit_distance),
        second.document_frequency,
        second.term@,
    )
}

/// Number of entries that correct `query`.
pub open spec fn correction_count(query: Seq<char>, entries: Seq<VocabularyTerm>, max_edit_distance: usize) -> nat
    decreases entries.len(),
{
    if entries.len() == 0 {
        0
    } else {
        correction_count(query, entries.drop_last(), max_edit_distance) + if is_correction(
            query,
            entries.last().term@,
            max_edit_distance,
        ) {
            1nat
        } else {
            0nat
        }
    }
}

/// The document frequency recorded for `term` among `entries`.
pub open spec fn frequency_of(entries: Seq<VocabularyTerm>, term: Seq<char>) -> usize {
    entries[choose|j: int| 0 <= j < entries.len() && entries[j].term@ == term].document_frequency
}

/// The matched terms of a list of corrections.
pub open spec fn matched_terms(matches: Seq<FuzzyTermMatch>) -> Seq<Seq<char>> {
    matches.map_values(|found: FuzzyTermMatch| found.matched_term@)
}

proof fn lemma_ranks_before_order(
    query: Seq<char>,
    max_edit_distance: usize,
    a: VocabularyTerm,
    b: VocabularyTerm,
    c: VocabularyTerm,
)
    ensures
        !entry_ranks_before(query, max_edit_distance, a, a),
        !(entry_ranks_before(query, max_edit_distance, a, b) && entry_ranks_before(
            query,
            max_edit_distance,
            b,
            a,
        )),
        entry_ranks_before(query, max_edit_distance, a, b) && entry_ranks_before(
            query,
            max_edit_distance,
            b,
            c,
        ) ==> entry_ranks_before(query, max_edit_distance, a, c),
        a.term@ != b.term@ ==> entry_ranks_before(query, max_edit_distance, a, b)
            || entry_ranks_before(query, max_edit_distance, b, a),
{
    lemma_chars_less_irreflexive(a.term@);
    lemma_chars_less_asymmetric(a.term@, b.term@);
    lemma_chars_less_total(a.term@, b.term@);
    if chars_less(a.term@, b.term@) && chars_less(b.term@, c.term@) {
        lemma_chars_less_transitive(a.term@, b.term@, c.term@);
    }
}

proof fn lemma_frequency_of_entry(entries: Seq<VocabularyTerm>, j: int)
    requires
        strictly_sorted(term_views(entries)),
        0 <= j < entries.len(),
    ensures
        frequency_of(entries, entries[j].term@) == entries[j].document_frequency,
{
    assert(term_views(entries)[j] == entries[j].term@);
    let k = choose|k: int| 0 <= k < entries.len() && entries[k].term@ == entries[j].term@;
    lemma_strictly_sorted_distinct(term_views(entries));
    assert(term_views(entries)[k] == term_views(entries)[j]);
}

/// Whether the correction (`distance`, `frequency`, `term`) ranks before the other.
fn ranks_before_exec(
    distance: usize,
    frequency: usize,
    term: &str,
    other_distance: usize,
    other_frequency: usize,
    other_term: &str,
) -> (before: bool)
    ensures
        before == ranks_before(
            distance,
            frequency,
            term@,
            other_distance,
            other_frequency,
            other_term@,
        ),
{
    if distance != other_distance {
        distance < other_distance
    } else if frequency != other_frequency {
        frequency > other_frequency
    } else {
        str_less(term, other_term)
    }
}

/// The corrections of `query_term` offered by `vocabulary`: its terms other
/// than the query within `max_edit_distance`, best first (smaller distance,
/// then higher document frequency, then ascending term), at most
/// `max_expansions` of them.
pub fn fuzzy_expansions(
    query_term: &str,
    vocabulary: &Vocabulary,
    max_edit_distance: usize,
    max_expansions: usize,
) -> (expansions: Vec<FuzzyTermMatch>)
    ensures
        expansions@.len() == if correction_count(query_term@, vocabulary@, max_edit_distance)
            < max_expansions {
            correction_count(query_term@, vocabulary@, max_edit_distance) as int
        } else {
            max_expansions as int
        },
        forall|i: int|
            #![trigger expansions@[i]]
            0 <= i < expansions@.len() ==> {
                &&& expansions@[i].query_term@ == query_term@
                &&& exists|j: int|
                    0 <= j < vocabulary@.len() && vocabulary@[j].term@
                        == expansions@[i].matched_term@ && is_correction(
                        query_term@,
                        vocabulary@[j].term@,
                        max_edit_distance,
                    ) && expansions@[i].edit_distance == correction_distance(
                        query_term@,
                        vocabulary@[j].term@,
                        max_edit_distance,
                    )
            },
        forall|i: int, k: int|
            #![trigger expansions@[i], expansions@[k]]
            0 <= i < k < expansions@.len() ==> ranks_before(
                expansions@[i].edit_distance,
                frequency_of(vocabulary@, expansions@[i].matched_term@),
                expansions@[i].matched_term@,
                expansions@[k].edit_distance,
                frequency_of(vocabulary@, expansions@[k].matched_term@),
                expansions@[k].matched_term@,
            ),
        forall|j: int, i: int|
            #![trigger vocabulary@[j], expansions@[i]]
            0 <= j < vocabulary@.len() && is_correction(
                query_term@,
                vocabulary@[j].term@,
                max_edit_distance,
            ) && !matched_terms(expansions@).contains(vocabulary@[j].term@) && 0 <= i
                < expansions@.len() ==> ranks_before(
                expansions@[i].edit_distance,
                frequency_of(vocabulary@, expansions@[i].matched_term@),
                expansions@[i].matched_term@,
                correction_distance(query_term@, vocabulary@[j].term@, max_edit_distance),
                vocabulary@[j].document_frequency,
                vocabulary@[j].term@,
            ),
{
    proof {
        use_type_invariant(vocabulary);
    }
    let entries = vocabulary.entries();
    let ghost q = query_term@;
    let ghost ve = entries@;
    let mut kept: Vec<FuzzyTermMatch> = Vec::new();
    let mut frequencies: Vec<usize> = Vec::new();
    let ghost mut chosen: Seq<int> = Seq::empty();
    let mut j: usize = 0;
    while j < entries.len()
        invariant
            ve == entries@,
            ve == vocabulary@,
            q == query_term@,
            strictly_sorted(term_views(ve)),
            j <= ve.len(),
            kept@.len() == chosen.len(),
            frequencies@.len() == chosen.len(),
            chosen.len() <= max_expansions,
            chosen.len() == if correction_count(q, ve.take(j as int), max_edit_distance)
                < max_expansions {
                correction_count(q, ve.take(j as int), max_edit_distance) as int
            } else {
                max_expansions as int
            },
            forall|i: int|
                #![trigger chosen[i]]
                0 <= i < chosen.len() ==> {
                    &&& 0 <= chosen[i] < j
                    &&& is_correction(q, ve[chosen[i]].term@, max_edit_distance)
                    &&& kept@[i].query_term@ == q
                    &&& kept@[i].matched_term@ == ve[chosen[i]].term@
                    &&& kept@[i].edit_distance == correction_distance(
                        q,
                        ve[chosen[i]].term@,
                        max_edit_distance,
                    )
                    &&& frequencies@[i] == ve[chosen[i]].document_frequency
                },
            forall|i: int, k: int|
                #![trigger chosen[i], chosen[k]]
                0 <= i < k < chosen.len() ==> entry_ranks_before(
                    q,
                    max_edit_distance,
                    ve[chosen[i]],
                    ve[chosen[k]],
                ),
            forall|m: int|
                #![trigger ve[m]]
                0 <= m < j && is_correction(q, ve[m].term@, max_edit_distance) && !chosen.contains(
                    m,
                ) ==> chosen.len() == max_expansions && forall|i: int|
                    #![trigger chosen[i]]
                    0 <= i < chosen.len() ==> entry_ranks_before(
                        q,
                        max_edit_distance,
                        ve[chosen[i]],
                        ve[m],
                    ),
        decreases ve.len() - j,
    {
        proof {
            assert(ve.take(j + 1).drop_last() =~= ve.take(j as int));
        }
        let entry = &entries[j];
        let same = same_text(entry.term.as_str(), query_term);
        let distance = if same {
            None
        } else {
            bounded_damerau_levenshtein(query_term, entry.term.as_str(), max_edit_distance)
        };
        match distance {
            Some(d) if d > 0 => {
                let mut position: usize = 0;
                while position < kept.len() && ranks_before_exec(
                    kept[position].edit_distance,
                    frequencies[position],
                    kept[position].matched_term.as_str(),
                    d,
                    entry.document_frequency,
                    entry.term.as_str(),
                )
                    invariant
                        position <= kept@.len(),
                        kept@.len() == chosen.len(),
                        frequencies@.len() == chosen.len(),
                        forall|i: int|
                            #![trigger chosen[i]]
                            0 <= i < chosen.len() ==> {
                                &&& 0 <= chosen[i] < j
                                &&& kept@[i].matched_term@ == ve[chosen[i]].term@
                                &&& kept@[i].edit_distance == correction_distance(
                                    q,
                                    ve[chosen[i]].term@,
                                    max_edit_distance,
                                )
                                &&& frequencies@[i] == ve[chosen[i]].document_frequency
                            },
                        forall|i: int|
                            #![trigger chosen[i]]
                            0 <= i < position ==> entry_ranks_before(
                                q,
                                max_edit_distance,
                                ve[chosen[i]],
                                ve[j as int],
                            ),
                        d == correction_distance(q, ve[j as int].term@, max_edit_distance),
                        entry == ve[j as int],
                    decreases kept@.len() - position,
                {
                    position = position + 1;
                }
                proof {
                    assert(is_correction(q, ve[j as int].term@, max_edit_distance));
                    assert forall|i: int|
                        #![trigger chosen[i]]
                        position <= i < chosen.len() implies entry_ranks_before(
                        q,
                        max_edit_distance,
                        ve[j as int],
                        ve[chosen[i]],
                    ) by {
                        let p = position as int;
                        assert(!entry_ranks_before(q, max_edit_distance, ve[chosen[p]], ve[j as int]));
                        assert(term_views(ve)[chosen[p]] == ve[chosen[p]].term@);
                        assert(term_views(ve)[j as int] == ve[j as int].term@);
                        lemma_strictly_sorted_distinct(term_views(ve));
                        lemma_ranks_before_order(q, max_edit_distance, ve[chosen[p]], ve[j as int], ve[chosen[i]]);
                        lemma_ranks_before_order(q, max_edit_distance, ve[j as int], ve[chosen[p]], ve[chosen[i]]);
                    }
                }
                if position < max_expansions {
                    let found = FuzzyTermMatch {
                        query_term: String::from_str(query_term),
                        matched_term: entry.term.clone(),
                        edit_distance: d,
                    };
                    let ghost old_chosen = chosen;
                    let ghost old_kept = kept@;
                    let ghost old_frequencies = frequencies@;
                    let ghost p = position as int;
                    kept.insert(position, found);
                    frequencies.insert(position, entry.document_frequency);
                    proof {
                        chosen = chosen.insert(p, j as int);
                        assert forall|i: int|
                            #![trigger chosen[i]]
                            0 <= i < chosen.len() implies {
                                &&& 0 <= chosen[i] < j + 1
                                &&& is_correction(q, ve[chosen[i]].term@, max_edit_distance)
                                &&& kept@[i].query_term@ == q
                                &&& kept@[i].matched_term@ == ve[chosen[i]].term@
                                &&& kept@[i].edit_distance == correction_distance(
                                    q,
                                    ve[chosen[i]].term@,
                                    max_edit_distance,
                                )
                                &&& frequencies@[i] == ve[chosen[i]].document_frequency
                            } by {
                            if i < p {
                                assert(chosen[i] == old_chosen[i]);
                                assert(kept@[i] == old_kept[i]);
                                assert(frequencies@[i] == old_frequencies[i]);
                            } else if i > p {
                                assert(chosen[i] == old_chosen[i - 1]);
                                assert(kept@[i] == old_kept[i - 1]);
                                assert(frequencies@[i] == old_frequencies[i - 1]);
                            }
                        }
                        assert forall|i: int, k: int|
                            #![trigger chosen[i], chosen[k]]
                            0 <= i < k < chosen.len() implies entry_ranks_before(
                            q,
                            max_edit_distance,
                            ve[chosen[i]],
                            ve[chosen[k]],
                        ) by {
                            if k < p {
                                assert(chosen[i] == old_chosen[i] && chosen[k] == old_chosen[k]);
                            } else if k == p {
                                assert(chosen[i] == old_chosen[i]);
                            } else if i < p {
                                assert(chosen[i] == old_chosen[i] && chosen[k] == old_chosen[k - 1]);
                            } else if i == p {
                                assert(chosen[k] == old_chosen[k - 1]);
                            } else {
                                assert(chosen[i] == old_chosen[i - 1] && chosen[k] == old_chosen[k - 1]);
                            }
                        }
                    }
                    let ghost inserted = chosen;
                    if kept.len() > max_expansions {
                        kept.pop();
                        frequencies.pop();
                        proof {
                            chosen = chosen.drop_last();
                        }
                    }
                    proof {
                        assert(chosen.len() == if correction_count(q, ve.take(j + 1), max_edit_distance)
                            < max_expansions {
                            correction_count(q, ve.take(j + 1), max_edit_distance) as int
                        } else {
                            max_expansions as int
                        });
                        assert forall|i: int|
                            #![trigger chosen[i]]
                            0 <= i < chosen.len() implies chosen[i] == inserted[i] by {}
                        assert forall|m: int|
                            #![trigger ve[m]]
                            0 <= m < j + 1 && is_correction(q, ve[m].term@, max_edit_distance)
                                && !chosen.contains(m) implies chosen.len() == max_expansions
                                && forall|i: int|
                                #![trigger chosen[i]]
                                0 <= i < chosen.len() ==> entry_ranks_before(
                                    q,
                                    max_edit_distance,
                                    ve[chosen[i]],
                                    ve[m],
                                ) by {
                            assert(inserted[p] == j);
                            if m == j {
                                assert(chosen[p] == j);
                            } else if inserted.contains(m) {
                                let t = choose|t: int| 0 <= t < inserted.len() && inserted[t] == m;
                                if t < chosen.len() {
                                    assert(chosen[t] == m);
                                }
                                assert(t == chosen.len());
                            } else {
                                assert forall|t: int|
                                    0 <= t < old_chosen.len() implies old_chosen[t] != m by {
                                    if t < p {
                                        assert(inserted[t] == old_chosen[t]);
                                    } else {
                                        assert(inserted[t + 1] == old_chosen[t]);
                                    }
                                }
                                assert(!old_chosen.contains(m));
                                assert(old_chosen.len() == max_expansions);
                                assert(p < old_chosen.len());
                                assert forall|i: int|
                                    #![trigger chosen[i]]
                                    0 <= i < chosen.len() implies entry_ranks_before(
                                    q,
                                    max_edit_distance,
                                    ve[chosen[i]],
                                    ve[m],
                                ) by {
                                    if i < p {
                                        assert(chosen[i] == old_chosen[i]);
                                    } else if i == p {
                                        assert(entry_ranks_before(
                                            q,
                                            max_edit_distance,
                                            ve[j as int],
                                            ve[old_chosen[p]],
                                        ));
                                        assert(entry_ranks_before(
                                            q,
                                            max_edit_distance,
                                            ve[old_chosen[p]],
                                            ve[m],
                                        ));
                                        lemma_ranks_before_order(
                                            q,
                                            max_edit_distance,
                                            ve[j as int],
                                            ve[old_chosen[p]],
                                            ve[m],
                                        );
                                    } else {
                                        assert(chosen[i] == old_chosen[i - 1]);
                                    }
                                }
                            }
                        }
                    }
                } else {
                    proof {
                        assert(chosen.len() == max_expansions);
                        assert forall|m: int|
                            #![trigger ve[m]]
                            0 <= m < j + 1 && is_correction(q, ve[m].term@, max_edit_distance)
                                && !chosen.contains(m) implies chosen.len() == max_expansions
                                && forall|i: int|
                                #![trigger chosen[i]]
                                0 <= i < chosen.len() ==> entry_ranks_before(
                                    q,
                                    max_edit_distance,
                                    ve[chosen[i]],
                                    ve[m],
                                ) by {}
                    }
                }
            },
            _ => {
                proof {
                    if !same {
                        assert(distance == bounded_osa(q, ve[j as int].term@, max_edit_distance));
                    }
                    assert(!is_correction(q, ve[j as int].term@, max_edit_distance));
                }
            },
        }
        j = j + 1;
    }
    proof {
        assert(ve.take(j as int) =~= ve);
        assert forall|i: int|
            #![trigger chosen[i]]
            0 <= i < chosen.len() implies frequency_of(ve, kept@[i].matched_term@)
                == ve[chosen[i]].document_frequency by {
            lemma_frequency_of_entry(ve, chosen[i]);
        }
        assert forall|i: int|
            #![trigger kept@[i]]
            0 <= i < kept@.len() implies {
                &&& kept@[i].query_term@ == query_term@
                &&& exists|m: int|
                    0 <= m < vocabulary@.len() && vocabulary@[m].term@ == kept@[i].matched_term@
                        && is_correction(query_term@, vocabulary@[m].term@, max_edit_distance)
                        && kept@[i].edit_distance == correction_distance(
                        query_term@,
                        vocabulary@[m].term@,
                        max_edit_distance,
                    )
            } by {
            assert(0 <= chosen[i] < ve.len());
        }
        assert forall|i: int, k: int|
            #![trigger kept@[i], kept@[k]]
            0 <= i < k < kept@.len() implies ranks_before(
                kept@[i].edit_distance,
                frequency_of(vocabulary@, kept@[i].matched_term@),
                kept@[i].matched_term@,
                kept@[k].edit_distance,
                frequency_of(vocabulary@, kept@[k].matched_term@),
                kept@[k].matched_term@,
            ) by {
            assert(entry_ranks_before(q, max_edit_distance, ve[chosen[i]], ve[chosen[k]]));
        }
        assert forall|m: int, i: int|
            #![trigger vocabulary@[m], kept@[i]]
            0 <= m < vocabulary@.len() && is_correction(
                query_term@,
                vocabulary@[m].term@,
                max_edit_distance,
            ) && !matched_terms(kept@).contains(vocabulary@[m].term@) && 0 <= i < kept@.len()
                implies ranks_before(
                kept@[i].edit_distance,
                frequency_of(vocabulary@, kept@[i].matched_term@),
                kept@[i].matched_term@,
                correction_distance(query_term@, vocabulary@[m].term@, max_edit_distance),
                vocabulary@[m].document_frequency,
                vocabulary@[m].term@,
            ) by {
            if chosen.contains(m) {
                let t = choose|t: int| 0 <= t < chosen.len() && chosen[t] == m;
                assert(matched_terms(kept@)[t] == ve[m].term@);
            }
            assert(ve[m] == vocabulary@[m]);
            assert(entry_ranks_before(q, max_edit_distance, ve[chosen[i]], ve[m]));
        }
    }
    kept
}


impl VocabularyError {
    /// A sentence that describes the refusal.
    pub fn message(&self) -> (text: String)
        ensures
            match *self {
                VocabularyError::TooLarge { limit } => text@
                    == "fuzzy vocabulary exceeds configured maxVocabularyTerms ("@ + decimal_text(
                    limit as nat,
                ) + ")"@,
            },
    {
        match *self {
            VocabularyError::TooLarge { limit } => {
                let mut text = String::from_str(
                    "fuzzy vocabulary exceeds configured maxVocabularyTerms (",
                );
                text.append(decimal(limit).as_str());
                text.append(")");
                text
            },
        }
    }
}

} // verus!
