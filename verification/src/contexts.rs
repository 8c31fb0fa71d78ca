//! The target of a word-sense analysis and the contexts in which it occurs
//! across a corpus.

use vstd::prelude::*;
use vstd::string::StringExecFns;

use crate::chars::same_text;
use crate::corpus::{items_check, validate_items, CorpusItemError, SemanticCorpusItem};
use crate::report::{options_problem, validate_semantic_options, SemanticInputError};
use crate::model::SemanticUnitKind;
use crate::query::{TextToken, TokenKind};
use crate::senses::SemanticWordOccurrence;
use crate::span::TextSpan;
use crate::units::{
    first_container, first_container_index, indexed_id, indexed_unit_id, item_speaker, owned_optional,
    str_option, text_option, StructuralUnit, TextRegion, UnitView,
};
use crate::whitespace::{is_blank, is_blank_str, trim_white_space};

verus! {

/// Why a word-sense target was refused.
#[derive(Debug, Clone, Copy, PartialEq, Eq)]
pub enum WordTargetError {
    /// The target is empty or white space.
    EmptyTarget,
    /// The target does not normalize to exactly one token.
    NotOneToken,
}

/// The tokens that are not punctuation, in order.
pub open spec fn kept_tokens(tokens: Seq<TextToken>) -> Seq<TextToken>
    decreases tokens.len(),
{
    if tokens.len() == 0 {
        Seq::empty()
    } else if tokens.last().kind is Punctuation {
        kept_tokens(tokens.drop_last())
    } else {
        kept_tokens(tokens.drop_last()).push(tokens.last())
    }
}

/// The normalized word-sense target, given the target as the caller wrote it
/// and the tokens of that target with surrounding white space removed: a
/// blank target is refused; otherwise the tokens that are not punctuation
/// must be exactly one, whose normalized form is the target.
pub fn normalized_target(target: &str, tokens: &[TextToken]) -> (result: Result<String, WordTargetError>)
    ensures
        is_blank(target@) ==> result == Err::<String, WordTargetError>(WordTargetError::EmptyTarget),
        !is_blank(target@) && kept_tokens(tokens@).len() != 1 ==> result == Err::<String, WordTargetError>(
            WordTargetError::NotOneToken,
        ),
        !is_blank(target@) && kept_tokens(tokens@).len() == 1 ==> (result matches Ok(normalized)
            && normalized@ == kept_tokens(tokens@)[0].normalized@),
{
    if is_blank_str(target) {
        return Err(WordTargetError::EmptyTarget);
    }
    let mut found: Option<usize> = None;
    let mut count: usize = 0;
    let mut index: usize = 0;
    while index < tokens.len()
        invariant
            index <= tokens@.len(),
            count == kept_tokens(tokens@.take(index as int)).len(),
            count <= index,
            match found {
                Some(k) => k < index && count >= 1 && tokens@[k as int] == kept_tokens(tokens@.take(index as int))[0],
                None => count == 0,
            },
        decreases tokens@.len() - index,
    {
        proof {
            assert(tokens@.take(index + 1).drop_last() =~= tokens@.take(index as int));
            lemma_kept_prefix(tokens@.take(index + 1));
        }
        match tokens[index].kind {
            TokenKind::Punctuation => {},
            _ => {
                if found.is_none() {
                    found = Some(index);
                }
                count = count + 1;
            },
        }
        index = index + 1;
    }
    proof {
        assert(tokens@.take(index as int) =~= tokens@);
    }
    if count != 1 {
        return Err(WordTargetError::NotOneToken);
    }
    match found {
        Some(k) => Ok(tokens[k].normalized.clone()),
        None => vstd::pervasive::unreached(),
    }
}

/// Dropping the last token keeps the first kept token, if there was one before.
proof fn lemma_kept_prefix(tokens: Seq<TextToken>)
    requires
        tokens.len() > 0,
    ensures
        kept_tokens(tokens.drop_last()).len() > 0 ==> kept_tokens(tokens)[0] == kept_tokens(
            tokens.drop_last(),
        )[0],
        kept_tokens(tokens.drop_last()).len() == 0 && !(tokens.last().kind is Punctuation) ==> kept_tokens(
            tokens,
        )[0] == tokens.last(),
{
}

/// The text that describes a refused target, as characters.
pub open spec fn word_target_text(error: WordTargetError) -> Seq<char> {
    match error {
        WordTargetError::EmptyTarget => "word-sense target must not be empty"@,
        WordTargetError::NotOneToken => "word-sense target must normalize to exactly one token"@,
    }
}

impl WordTargetError {
    /// A sentence that describes the problem.
    pub fn message(&self) -> (text: &'static str)
        ensures
            text@ == word_target_text(*self),
    {
        match self {
            WordTargetError::EmptyTarget => "word-sense target must not be empty",
            WordTargetError::NotOneToken => "word-sense target must normalize to exactly one token",
        }
    }
}

/// A [`SemanticWordOccurrence`] with its strings taken as characters.
pub ghost struct OccurrenceView {
    pub unit_id: Seq<char>,
    pub source_id: Seq<char>,
    pub author: Option<Seq<char>>,
    pub source: Option<Seq<char>>,
    pub timestamp_millis: Option<i64>,
    pub occurrence_span: TextSpan,
    pub context_span: TextSpan,
    pub context_text: Seq<char>,
}

/// The view of an occurrence.
pub open spec fn occurrence_view(occurrence: SemanticWordOccurrence) -> OccurrenceView {
    OccurrenceView {
        unit_id: occurrence.unit_id@,
        source_id: occurrence.source_id@,
        author: text_option(occurrence.author),
        source: text_option(occurrence.source),
        timestamp_millis: occurrence.timestamp_millis,
        occurrence_span: occurrence.occurrence_span,
        context_span: occurrence.context_span,
        context_text: occurrence.context_text@,
    }
}

/// Whether `token` is an occurrence of the normalized target.
pub open spec fn is_target(token: TextToken, target: Seq<char>) -> bool {
    !(token.kind is Punctuation) && token.normalized@ == target
}

/// The context of a token: the first sentence that holds it, or else the
/// token itself.
pub open spec fn context_of(sentences: Seq<TextRegion>, token: TextToken) -> (TextSpan, Seq<char>) {
    match first_container(sentences, token.span, 0) {
        Some(k) => (sentences[k].span, sentences[k].text@),
        None => (token.span, token.text@),
    }
}

/// The context unit and occurrence of `token` in `item`, numbered `index`.
pub open spec fn context_entry(
    item: SemanticCorpusItem,
    token: TextToken,
    sentences: Seq<TextRegion>,
    index: int,
) -> (UnitView, OccurrenceView) {
    let id = indexed_id(item.id@, ":word-context:"@, index);
    let context = context_of(sentences, token);
    (
        UnitView {
            id,
            source_id: item.id@,
            kind: SemanticUnitKind::Sentence,
            parent_id: None,
            sequence_index: index,
            span: context.0,
            speaker: item_speaker(item),
            text: context.1,
        },
        OccurrenceView {
            unit_id: id,
            source_id: item.id@,
            author: item_speaker(item),
            source: str_option(item.source),
            timestamp_millis: item.timestamp_millis,
            occurrence_span: token.span,
            context_span: context.0,
            context_text: context.1,
        },
    )
}

/// The occurrences of the target among the tokens of one item, numbered
/// from `offset` on.
pub open spec fn item_contexts(
    item: SemanticCorpusItem,
    tokens: Seq<TextToken>,
    sentences: Seq<TextRegion>,
    target: Seq<char>,
    offset: int,
) -> Seq<(UnitView, OccurrenceView)>
    decreases tokens.len(),
{
    if tokens.len() == 0 {
        Seq::empty()
    } else {
        let earlier = item_contexts(item, tokens.drop_last(), sentences, target, offset);
        if is_target(tokens.last(), target) {
            earlier.push(context_entry(item, tokens.last(), sentences, offset + earlier.len()))
        } else {
            earlier
        }
    }
}

/// The occurrences of the target in a corpus, item after item, numbered
/// across the corpus.
pub open spec fn corpus_contexts(
    items: Seq<SemanticCorpusItem>,
    tokens: Seq<Vec<TextToken>>,
    sentences: Seq<Vec<TextRegion>>,
    target: Seq<char>,
) -> Seq<(UnitView, OccurrenceView)>
    decreases items.len(),
{
    if items.len() == 0 {
        Seq::empty()
    } else {
        let last = items.len() - 1;
        let earlier = corpus_contexts(items.drop_last(), tokens, sentences, target);
        earlier + item_contexts(items[last], tokens[last]@, sentences[last]@, target, earlier.len() as int)
    }
}

/// The views of the context units beside those of their occurrences.
pub open spec fn paired_views(units: Seq<StructuralUnit>, occurrences: Seq<SemanticWordOccurrence>) -> Seq<
    (UnitView, OccurrenceView),
> {
    Seq::new(units.len(), |k: int| (units[k]@, occurrence_view(occurrences[k])))
}

/// The context unit and occurrence of one token.
fn context_entry_exec(
    item: &SemanticCorpusItem,
    token: &TextToken,
    sentences: &[TextRegion],
    index: usize,
) -> (entry: (StructuralUnit, SemanticWordOccurrence))
    ensures
        entry.0@ == context_entry(*item, *token, sentences@, index as int).0,
        occurrence_view(entry.1) == context_entry(*item, *token, sentences@, index as int).1,
{
    let (span, text) = match first_container_index(sentences, token.span) {
        Some(k) => (sentences[k].span, sentences[k].text.clone()),
        None => (token.span, token.text.clone()),
    };
    let speaker = match item.author {
        Some(author) => Some(trim_white_space(author)),
        None => None,
    };
    let unit = StructuralUnit {
        id: indexed_unit_id(item.id, ":word-context:", index),
        source_id: String::from_str(item.id),
        kind: SemanticUnitKind::Sentence,
        parent_id: None,
        sequence_index: index,
        span,
        speaker: match &speaker {
            Some(name) => Some(name.clone()),
            None => None,
        },
        text: text.clone(),
    };
    let occurrence = SemanticWordOccurrence {
        unit_id: indexed_unit_id(item.id, ":word-context:", index),
        source_id: String::from_str(item.id),
        author: speaker,
        source: owned_optional(item.source),
        timestamp_millis: item.timestamp_millis,
        occurrence_span: token.span,
        context_span: span,
        context_text: text,
    };
    (unit, occurrence)
}

/// The occurrences of the normalized target in a corpus, given the tokens
/// (`tokens[k]`) and sentences (`sentences[k]`) found in each item
/// (`items[k]`): item after item, each token that is not punctuation and
/// whose normalized form is the target gives a context unit and an
/// occurrence, numbered across the corpus. The context is the first
/// sentence of the item that holds the token, or else the token itself.
pub fn occurrence_contexts(
    items: &[SemanticCorpusItem],
    tokens: &[Vec<TextToken>],
    sentences: &[Vec<TextRegion>],
    target: &str,
) -> (result: (Vec<StructuralUnit>, Vec<SemanticWordOccurrence>))
    requires
        items@.len() == tokens@.len(),
        items@.len() == sentences@.len(),
    ensures
        result.0@.len() == result.1@.len(),
        paired_views(result.0@, result.1@) == corpus_contexts(items@, tokens@, sentences@, target@),
{
    let mut units: Vec<StructuralUnit> = Vec::new();
    let mut occurrences: Vec<SemanticWordOccurrence> = Vec::new();
    let mut index: usize = 0;
    while index < items.len()
        invariant
            index <= items@.len(),
            items@.len() == tokens@.len(),
            items@.len() == sentences@.len(),
            ({
                let expected = corpus_contexts(items@.take(index as int), tokens@, sentences@, target@);
                &&& units@.len() == expected.len()
                &&& occurrences@.len() == expected.len()
                &&& forall|k: int|
                    0 <= k < expected.len() ==> (#[trigger] units@[k])@ == expected[k].0
                        && occurrence_view(occurrences@[k]) == expected[k].1
            }),
        decreases items@.len() - index,
    {
        let item = &items[index];
        let item_tokens = &tokens[index];
        let item_sentences = sentences[index].as_slice();
        let ghost earlier = corpus_contexts(items@.take(index as int), tokens@, sentences@, target@);
        let ghost offset = earlier.len() as int;
        proof {
            assert(earlier + item_contexts(
                items@[index as int],
                item_tokens@.take(0),
                item_sentences@,
                target@,
                offset,
            ) =~= earlier);
        }
        let mut t: usize = 0;
        while t < item_tokens.len()
            invariant
                t <= item_tokens@.len(),
                index < items@.len(),
                offset == earlier.len(),
                *item == items@[index as int],
                item_sentences@ == sentences@[index as int]@,
                ({
                    let expected = earlier + item_contexts(
                        items@[index as int],
                        item_tokens@.take(t as int),
                        item_sentences@,
                        target@,
                        offset,
                    );
                    &&& units@.len() == expected.len()
                    &&& occurrences@.len() == expected.len()
                    &&& forall|k: int|
                        0 <= k < expected.len() ==> (#[trigger] units@[k])@ == expected[k].0
                            && occurrence_view(occurrences@[k]) == expected[k].1
                }),
            decreases item_tokens@.len() - t,
        {
            proof {
                assert(item_tokens@.take(t + 1).drop_last() =~= item_tokens@.take(t as int));
            }
            let token = &item_tokens[t];
            let wanted = match token.kind {
                TokenKind::Punctuation => false,
                _ => same_text(token.normalized.as_str(), target),
            };
            let ghost before = earlier + item_contexts(
                items@[index as int],
                item_tokens@.take(t as int),
                item_sentences@,
                target@,
                offset,
            );
            let ghost after = earlier + item_contexts(
                items@[index as int],
                item_tokens@.take(t + 1),
                item_sentences@,
                target@,
                offset,
            );
            proof {
                assert(wanted == is_target(item_tokens@[t as int], target@));
                assert(item_tokens@.take(t + 1).last() == item_tokens@[t as int]);
            }
            if wanted {
                let number = units.len();
                let (unit, occurrence) = context_entry_exec(item, token, item_sentences, number);
                units.push(unit);
                occurrences.push(occurrence);
                proof {
                    assert(after =~= before.push(
                        context_entry(items@[index as int], item_tokens@[t as int], item_sentences@, number as int),
                    ));
                    assert(units@[number as int] == unit);
                    assert(occurrences@[number as int] == occurrence);
                }
            } else {
                proof {
                    assert(after =~= before);
                }
            }
            t = t + 1;
        }
        proof {
            assert(item_tokens@.take(t as int) =~= item_tokens@);
            assert(items@.take(index + 1).drop_last() =~= items@.take(index as int));
            assert(corpus_contexts(items@.take(index + 1), tokens@, sentences@, target@) =~= earlier
                + item_contexts(items@[index as int], item_tokens@, item_sentences@, target@, offset));
        }
        index = index + 1;
    }
    proof {
        assert(items@.take(index as int) =~= items@);
        let expected = corpus_contexts(items@, tokens@, sentences@, target@);
        assert(expected == corpus_contexts(items@.take(index as int), tokens@, sentences@, target@));
        assert(paired_views(units@, occurrences@) =~= expected);
    }
    (units, occurrences)
}

/// Why a word-sense request was refused: the first failing check, in the
/// order options, corpus items, target.
#[derive(Debug, Clone, Copy, PartialEq, Eq)]
pub enum WordSenseRequestError<'a> {
    Options(SemanticInputError<'a>),
    Items(CorpusItemError<'a>),
    Target(WordTargetError),
}

/// Checks a word-sense request before any context is built: the analysis
/// options first, then the corpus items, then the target, whose tokens with
/// surrounding white space removed are `target_tokens`. Yields the normalized
/// target when every check passes.
pub fn check_word_sense_request<'a>(
    neighbors_per_unit: usize,
    neighbor_threshold_in_range: bool,
    cluster_threshold_in_range: bool,
    items: &[SemanticCorpusItem<'a>],
    target: &str,
    target_tokens: &[TextToken],
) -> (result: Result<String, WordSenseRequestError<'a>>)
    ensures
        options_problem(neighbors_per_unit, neighbor_threshold_in_range, cluster_threshold_in_range)
            matches Some(problem) ==> result == Err::<String, WordSenseRequestError<'a>>(
            WordSenseRequestError::Options(problem),
        ),
        options_problem(neighbors_per_unit, neighbor_threshold_in_range, cluster_threshold_in_range)
            is None ==> (items_check(items@) matches Err(problem) ==> result == Err::<
            String,
            WordSenseRequestError<'a>,
        >(WordSenseRequestError::Items(problem))),
        options_problem(neighbors_per_unit, neighbor_threshold_in_range, cluster_threshold_in_range)
            is None && items_check(items@) is Ok ==> {
            &&& is_blank(target@) ==> result == Err::<String, WordSenseRequestError<'a>>(
                WordSenseRequestError::Target(WordTargetError::EmptyTarget),
            )
            &&& !is_blank(target@) && kept_tokens(target_tokens@).len() != 1 ==> result == Err::<
                String,
                WordSenseRequestError<'a>,
            >(WordSenseRequestError::Target(WordTargetError::NotOneToken))
            &&& !is_blank(target@) && kept_tokens(target_tokens@).len() == 1 ==> (result matches Ok(
                normalized,
            ) && normalized@ == kept_tokens(target_tokens@)[0].normalized@)
        },
{
    match validate_semantic_options(
        neighbors_per_unit,
        neighbor_threshold_in_range,
        cluster_threshold_in_range,
    ) {
        Err(problem) => {
            return Err(WordSenseRequestError::Options(problem));
        },
        Ok(()) => {},
    }
    match validate_items(items) {
        Err(problem) => {
            return Err(WordSenseRequestError::Items(problem));
        },
        Ok(()) => {},
    }
    match normalized_target(target, target_tokens) {
        Err(problem) => Err(WordSenseRequestError::Target(problem)),
        Ok(normalized) => Ok(normalized),
    }
}

} // verus!
