//! The structural units of a source (sentences, paragraphs, the whole
//! document, speaker turns), their ids and how they nest.

use vstd::prelude::*;
use vstd::string::StringExecFns;

use crate::chars::{decimal, decimal_text};
use crate::corpus::SemanticCorpusItem;
use crate::model::SemanticUnitKind;
use crate::span::{canonical_span, contains_span, span_for_text, utf8_bytes, TextSpan};
use crate::whitespace::{trim_white_space, trimmed};

verus! {

/// A sentence or paragraph as the text splitter found it: its span in the
/// source and its text.
#[derive(Debug, Clone, PartialEq, Eq)]
pub struct TextRegion {
    pub span: TextSpan,
    pub text: String,
}

/// The sentences and paragraphs found in one source.
#[derive(Debug, Clone, PartialEq, Eq)]
pub struct SourceRegions {
    pub sentences: Vec<TextRegion>,
    pub paragraphs: Vec<TextRegion>,
}

/// One meaning-bearing unit of a source, before it is embedded.
#[derive(Debug, Clone, PartialEq, Eq)]
pub struct StructuralUnit {
    pub id: String,
    pub source_id: String,
    pub kind: SemanticUnitKind,
    pub parent_id: Option<String>,
    pub sequence_index: usize,
    pub span: TextSpan,
    pub speaker: Option<String>,
    pub text: String,
}

/// A [`StructuralUnit`] with its strings taken as characters.
pub ghost struct UnitView {
    pub id: Seq<char>,
    pub source_id: Seq<char>,
    pub kind: SemanticUnitKind,
    pub parent_id: Option<Seq<char>>,
    pub sequence_index: int,
    pub span: TextSpan,
    pub speaker: Option<Seq<char>>,
    pub text: Seq<char>,
}

/// The characters of an optional string.
pub open spec fn text_option(value: Option<String>) -> Option<Seq<char>> {
    match value {
        Some(text) => Some(text@),
        None => None,
    }
}

/// The characters of an optional borrowed string.
pub open spec fn str_option(value: Option<&str>) -> Option<Seq<char>> {
    match value {
        Some(text) => Some(text@),
        None => None,
    }
}

impl View for StructuralUnit {
    type V = UnitView;

    open spec fn view(&self) -> UnitView {
        UnitView {
            id: self.id@,
            source_id: self.source_id@,
            kind: self.kind,
            parent_id: text_option(self.parent_id),
            sequence_index: self.sequence_index as int,
            span: self.span,
            speaker: text_option(self.speaker),
            text: self.text@,
        }
    }
}

/// The views of a list of units.
pub open spec fn unit_views(units: Seq<StructuralUnit>) -> Seq<UnitView> {
    units.map_values(|unit: StructuralUnit| unit@)
}

/// `source`, then `label`, then `index` in decimal: the id of the unit of a
/// kind at that position within the source.
pub open spec fn indexed_id(source: Seq<char>, label: Seq<char>, index: int) -> Seq<char> {
    source + label + decimal_text(index as nat)
}

/// The id of the unit that covers a whole document.
pub open spec fn document_unit_id(source: Seq<char>) -> Seq<char> {
    source + ":document"@
}

/// The id of the unit that covers a whole speaker turn.
pub open spec fn turn_unit_id(source: Seq<char>) -> Seq<char> {
    source + ":turn"@
}

/// The span that covers all of `text`.
pub open spec fn whole_span(text: Seq<char>) -> TextSpan {
    canonical_span(text, 0, utf8_bytes(text).len() as usize)
}

/// Whether the byte range of `outer` holds that of `inner`.
pub open spec fn span_within(outer: TextSpan, inner: TextSpan) -> bool {
    outer.byte_start <= inner.byte_start && inner.byte_end <= outer.byte_end
}

/// The first paragraph, from position `from` on, whose span holds `inner`.
pub open spec fn first_container(paragraphs: Seq<TextRegion>, inner: TextSpan, from: int) -> Option<int>
    decreases paragraphs.len() - from,
{
    if from < 0 || from >= paragraphs.len() {
        None
    } else if span_within(paragraphs[from].span, inner) {
        Some(from)
    } else {
        first_container(paragraphs, inner, from + 1)
    }
}

/// The sentence unit at position `index` of a document: its parent is the
/// first paragraph that holds it, if any does.
pub open spec fn sentence_unit(
    source: Seq<char>,
    index: int,
    sentence: TextRegion,
    paragraphs: Seq<TextRegion>,
) -> UnitView {
    UnitView {
        id: indexed_id(source, ":sentence:"@, index),
        source_id: source,
        kind: SemanticUnitKind::Sentence,
        parent_id: match first_container(paragraphs, sentence.span, 0) {
            Some(k) => Some(indexed_id(source, ":paragraph:"@, k)),
            None => None,
        },
        sequence_index: index,
        span: sentence.span,
        speaker: None,
        text: sentence.text@,
    }
}

/// The paragraph unit at position `index` of a document.
pub open spec fn paragraph_unit(source: Seq<char>, index: int, paragraph: TextRegion) -> UnitView {
    UnitView {
        id: indexed_id(source, ":paragraph:"@, index),
        source_id: source,
        kind: SemanticUnitKind::Paragraph,
        parent_id: Some(document_unit_id(source)),
        sequence_index: index,
        span: paragraph.span,
        speaker: None,
        text: paragraph.text@,
    }
}

/// The unit that covers a whole document.
pub open spec fn whole_document_unit(source: Seq<char>, text: Seq<char>) -> UnitView {
    UnitView {
        id: document_unit_id(source),
        source_id: source,
        kind: SemanticUnitKind::Document,
        parent_id: None,
        sequence_index: 0,
        span: whole_span(text),
        speaker: None,
        text,
    }
}

/// The units of a document: its sentences, then its paragraphs, then the
/// document itself.
pub open spec fn document_unit_views(
    source: Seq<char>,
    text: Seq<char>,
    sentences: Seq<TextRegion>,
    paragraphs: Seq<TextRegion>,
) -> Seq<UnitView> {
    Seq::new(sentences.len(), |i: int| sentence_unit(source, i, sentences[i], paragraphs)) + Seq::new(
        paragraphs.len(),
        |j: int| paragraph_unit(source, j, paragraphs[j]),
    ).push(whole_document_unit(source, text))
}

/// The position of the first paragraph that holds `inner`, if any does.
pub(crate) fn first_container_index(paragraphs: &[TextRegion], inner: TextSpan) -> (found: Option<usize>)
    ensures
        match found {
            Some(k) => k < paragraphs@.len() && first_container(paragraphs@, inner, 0) == Some(k as int),
            None => first_container(paragraphs@, inner, 0) == None::<int>,
        },
{
    let mut index: usize = 0;
    while index < paragraphs.len()
        invariant
            index <= paragraphs@.len(),
            first_container(paragraphs@, inner, 0) == first_container(paragraphs@, inner, index as int),
        decreases paragraphs@.len() - index,
    {
        if contains_span(paragraphs[index].span, inner) {
            return Some(index);
        }
        index = index + 1;
    }
    None
}

/// `source`, then `label`, then `index` in decimal.
pub(crate) fn indexed_unit_id(source: &str, label: &str, index: usize) -> (id: String)
    ensures
        id@ == indexed_id(source@, label@, index as int),
{
    let mut id = String::from_str(source);
    id.append(label);
    let digits = decimal(index);
    id.append(digits.as_str());
    id
}

/// The id of the unit that covers the whole document `source`.
fn document_id_of(source: &str) -> (id: String)
    ensures
        id@ == document_unit_id(source@),
{
    let mut id = String::from_str(source);
    id.append(":document");
    id
}

/// The units of one document, given the sentences and paragraphs that the
/// text splitter found in it: each sentence in order, its parent the first
/// paragraph whose span holds it; each paragraph in order, its parent the
/// document; and last the document itself, spanning all of `text`.
pub fn document_units(
    document_id: &str,
    text: &str,
    sentences: &[TextRegion],
    paragraphs: &[TextRegion],
) -> (units: Vec<StructuralUnit>)
    ensures
        unit_views(units@) == document_unit_views(document_id@, text@, sentences@, paragraphs@),
{
    let ghost expected = document_unit_views(document_id@, text@, sentences@, paragraphs@);
    let mut units: Vec<StructuralUnit> = Vec::new();
    let mut index: usize = 0;
    while index < sentences.len()
        invariant
            index <= sentences@.len(),
            expected == document_unit_views(document_id@, text@, sentences@, paragraphs@),
            units@.len() == index,
            forall|i: int| 0 <= i < index ==> (#[trigger] units@[i])@ == expected[i],
        decreases sentences@.len() - index,
    {
        let sentence = &sentences[index];
        let parent_id = match first_container_index(paragraphs, sentence.span) {
            Some(k) => Some(indexed_unit_id(document_id, ":paragraph:", k)),
            None => None,
        };
        let unit = StructuralUnit {
            id: indexed_unit_id(document_id, ":sentence:", index),
            source_id: String::from_str(document_id),
            kind: SemanticUnitKind::Sentence,
            parent_id,
            sequence_index: index,
            span: sentence.span,
            speaker: None,
            text: sentence.text.clone(),
        };
        proof {
            assert(unit@ == sentence_unit(document_id@, index as int, sentences@[index as int], paragraphs@));
        }
        units.push(unit);
        index = index + 1;
    }
    let mut position: usize = 0;
    while position < paragraphs.len()
        invariant
            position <= paragraphs@.len(),
            sentences@.len() <= usize::MAX,
            expected == document_unit_views(document_id@, text@, sentences@, paragraphs@),
            units@.len() == sentences@.len() + position,
            forall|i: int| 0 <= i < units@.len() ==> (#[trigger] units@[i])@ == expected[i],
        decreases paragraphs@.len() - position,
    {
        let paragraph = &paragraphs[position];
        let unit = StructuralUnit {
            id: indexed_unit_id(document_id, ":paragraph:", position),
            source_id: String::from_str(document_id),
            kind: SemanticUnitKind::Paragraph,
            parent_id: Some(document_id_of(document_id)),
            sequence_index: position,
            span: paragraph.span,
            speaker: None,
            text: paragraph.text.clone(),
        };
        proof {
            assert(unit@ == paragraph_unit(document_id@, position as int, paragraphs@[position as int]));
            assert(expected[sentences@.len() + position] == paragraph_unit(
                document_id@,
                position as int,
                paragraphs@[position as int],
            ));
        }
        units.push(unit);
        position = position + 1;
    }
    let whole = StructuralUnit {
        id: document_id_of(document_id),
        source_id: String::from_str(document_id),
        kind: SemanticUnitKind::Document,
        parent_id: None,
        sequence_index: 0,
        span: span_for_text(text),
        speaker: None,
        text: String::from_str(text),
    };
    units.push(whole);
    proof {
        assert(unit_views(units@) =~= expected);
    }
    units
}

/// The number of sentences found in all the given sources.
pub open spec fn sentence_total(regions: Seq<SourceRegions>) -> int
    decreases regions.len(),
{
    if regions.len() == 0 {
        0
    } else {
        sentence_total(regions.drop_last()) + regions.last().sentences@.len()
    }
}

/// The speaker of a corpus item's units: its author without surrounding
/// white space.
pub open spec fn item_speaker(item: SemanticCorpusItem) -> Option<Seq<char>> {
    match item.author {
        Some(author) => Some(trimmed(author@)),
        None => None,
    }
}

/// `unit` attributed to `speaker`, a sentence renumbered `offset` places on.
pub open spec fn attributed(unit: UnitView, speaker: Option<Seq<char>>, offset: int) -> UnitView {
    UnitView {
        speaker,
        sequence_index: match unit.kind {
            SemanticUnitKind::Sentence => offset + unit.sequence_index,
            _ => unit.sequence_index,
        },
        ..unit
    }
}

/// The units of a corpus: the units of each item in turn, attributed to its
/// trimmed author, with sentences numbered across the whole corpus.
pub open spec fn corpus_unit_views(items: Seq<SemanticCorpusItem>, regions: Seq<SourceRegions>) -> Seq<
    UnitView,
>
    decreases items.len(),
{
    if items.len() == 0 {
        Seq::empty()
    } else {
        let last = items.len() - 1;
        let item = items[last];
        let found = regions[last];
        corpus_unit_views(items.drop_last(), regions) + document_unit_views(
            item.id@,
            item.text@,
            found.sentences@,
            found.paragraphs@,
        ).map_values(|unit: UnitView| attributed(unit, item_speaker(item), sentence_total(regions.take(last))))
    }
}

/// The sentences of a prefix of the sources are no more than those of all.
proof fn lemma_sentence_total_prefix(regions: Seq<SourceRegions>, count: int)
    requires
        0 <= count <= regions.len(),
    ensures
        0 <= sentence_total(regions.take(count)) <= sentence_total(regions),
    decreases regions.len(),
{
    if count == regions.len() {
        assert(regions.take(count) =~= regions);
        lemma_sentence_total_nonnegative(regions);
    } else {
        lemma_sentence_total_prefix(regions.drop_last(), count);
        assert(regions.drop_last().take(count) =~= regions.take(count));
    }
}

/// A sentence total is never negative.
proof fn lemma_sentence_total_nonnegative(regions: Seq<SourceRegions>)
    ensures
        sentence_total(regions) >= 0,
    decreases regions.len(),
{
    if regions.len() > 0 {
        lemma_sentence_total_nonnegative(regions.drop_last());
    }
}

/// A copy of an optional string.
pub(crate) fn copy_optional(value: &Option<String>) -> (copy: Option<String>)
    ensures
        text_option(copy) == text_option(*value),
{
    match value {
        Some(text) => Some(text.clone()),
        None => None,
    }
}

/// The units of a corpus, given the sentences and paragraphs found in each
/// item (`regions[k]` for `items[k]`): the units of each item in turn, as
/// [`document_units`] gives them, each attributed to the item's author
/// without surrounding white space, and the sentences numbered from zero
/// across the whole corpus.
pub fn corpus_units(items: &[SemanticCorpusItem], regions: &[SourceRegions]) -> (units: Vec<StructuralUnit>)
    requires
        items@.len() == regions@.len(),
        sentence_total(regions@) <= usize::MAX,
    ensures
        unit_views(units@) == corpus_unit_views(items@, regions@),
{
    let mut units: Vec<StructuralUnit> = Vec::new();
    let mut offset: usize = 0;
    let mut index: usize = 0;
    while index < items.len()
        invariant
            index <= items@.len(),
            items@.len() == regions@.len(),
            sentence_total(regions@) <= usize::MAX,
            offset == sentence_total(regions@.take(index as int)),
            unit_views(units@) == corpus_unit_views(items@.take(index as int), regions@),
        decreases items@.len() - index,
    {
        let item = items[index];
        let found = &regions[index];
        let speaker = match item.author {
            Some(author) => Some(trim_white_space(author)),
            None => None,
        };
        let item_units = document_units(item.id, item.text, found.sentences.as_slice(), found.paragraphs.as_slice());
        let ghost before = unit_views(units@);
        let ghost fresh = document_unit_views(item.id@, item.text@, found.sentences@, found.paragraphs@);
        proof {
            assert(regions@.take(index + 1).drop_last() =~= regions@.take(index as int));
            lemma_sentence_total_prefix(regions@, index + 1);
            assert(item_units@.len() == fresh.len()) by {
                assert(unit_views(item_units@).len() == item_units@.len());
            }
        }
        let mut position: usize = 0;
        while position < item_units.len()
            invariant
                position <= item_units@.len(),
                item_units@.len() == fresh.len(),
                unit_views(item_units@) == fresh,
                fresh == document_unit_views(item.id@, item.text@, found.sentences@, found.paragraphs@),
                offset + found.sentences@.len() <= usize::MAX,
                text_option(speaker) == item_speaker(item),
                unit_views(units@) == before + Seq::new(
                    position as nat,
                    |j: int| attributed(fresh[j], item_speaker(item), offset as int),
                ),
            decreases item_units@.len() - position,
        {
            let unit = &item_units[position];
            proof {
                assert(unit@ == fresh[position as int]);
            }
            let sequence_index = match unit.kind {
                SemanticUnitKind::Sentence => {
                    proof {
                        assert(unit.sequence_index < found.sentences@.len());
                    }
                    offset + unit.sequence_index
                },
                _ => unit.sequence_index,
            };
            let next = StructuralUnit {
                id: unit.id.clone(),
                source_id: unit.source_id.clone(),
                kind: unit.kind,
                parent_id: copy_optional(&unit.parent_id),
                sequence_index,
                span: unit.span,
                speaker: copy_optional(&speaker),
                text: unit.text.clone(),
            };
            proof {
                assert(next@ == attributed(fresh[position as int], item_speaker(item), offset as int));
            }
            let ghost prev = units@;
            units.push(next);
            proof {
                assert(unit_views(units@) =~= unit_views(prev).push(next@));
                assert(unit_views(units@) =~= before + Seq::new(
                    (position + 1) as nat,
                    |j: int| attributed(fresh[j], item_speaker(item), offset as int),
                ));
            }
            position = position + 1;
        }
        proof {
            assert(items@.take(index + 1).drop_last() =~= items@.take(index as int));
            assert(Seq::new(
                position as nat,
                |j: int| attributed(fresh[j], item_speaker(item), offset as int),
            ) =~= fresh.map_values(
                |unit: UnitView| attributed(unit, item_speaker(item), sentence_total(regions@.take(index as int))),
            ));
        }
        offset = offset + found.sentences.len();
        index = index + 1;
    }
    proof {
        assert(items@.take(items@.len() as int) =~= items@);
    }
    units
}

/// One speaker turn of a conversation. Its start and end times, where the
/// caller has them, travel beside it.
#[derive(Debug, Clone, Copy)]
pub struct ConversationTurn<'a> {
    pub id: &'a str,
    pub speaker: Option<&'a str>,
    pub text: &'a str,
}

impl<'a> ConversationTurn<'a> {
    /// Creates a speaker turn.
    pub fn new(id: &'a str, speaker: Option<&'a str>, text: &'a str) -> (turn: Self)
        ensures
            turn == (ConversationTurn { id, speaker, text }),
    {
        ConversationTurn { id, speaker, text }
    }
}

/// The unit that covers the whole turn at position `index`.
pub open spec fn turn_unit(turn: ConversationTurn, index: int) -> UnitView {
    UnitView {
        id: turn_unit_id(turn.id@),
        source_id: turn.id@,
        kind: SemanticUnitKind::SpeakerTurn,
        parent_id: None,
        sequence_index: index,
        span: whole_span(turn.text@),
        speaker: str_option(turn.speaker),
        text: turn.text@,
    }
}

/// The sentence unit at position `index` of a turn.
pub open spec fn turn_sentence_unit(turn: ConversationTurn, index: int, sentence: TextRegion) -> UnitView {
    UnitView {
        id: indexed_id(turn.id@, ":sentence:"@, index),
        source_id: turn.id@,
        kind: SemanticUnitKind::Sentence,
        parent_id: Some(turn_unit_id(turn.id@)),
        sequence_index: index,
        span: sentence.span,
        speaker: str_option(turn.speaker),
        text: sentence.text@,
    }
}

/// The units of a conversation: for each turn in order, the turn itself and
/// then its sentences.
pub open spec fn conversation_unit_views(turns: Seq<ConversationTurn>, sentences: Seq<Vec<TextRegion>>) -> Seq<
    UnitView,
>
    decreases turns.len(),
{
    if turns.len() == 0 {
        Seq::empty()
    } else {
        let last = turns.len() - 1;
        let turn = turns[last];
        let found = sentences[last]@;
        conversation_unit_views(turns.drop_last(), sentences) + seq![turn_unit(turn, last)] + Seq::new(
            found.len(),
            |i: int| turn_sentence_unit(turn, i, found[i]),
        )
    }
}

/// A copy of an optional borrowed string.
pub(crate) fn owned_optional(value: Option<&str>) -> (copy: Option<String>)
    ensures
        text_option(copy) == str_option(value),
{
    match value {
        Some(text) => Some(String::from_str(text)),
        None => None,
    }
}

/// The units of a conversation, given the sentences found in each turn
/// (`sentences[k]` for `turns[k]`): for each turn in order, a unit for the
/// whole turn, numbered by the turn's position, then its sentences, numbered
/// within the turn, each a child of the turn and spoken by its speaker.
pub fn conversation_units(turns: &[ConversationTurn], sentences: &[Vec<TextRegion>]) -> (units: Vec<
    StructuralUnit,
>)
    requires
        turns@.len() == sentences@.len(),
    ensures
        unit_views(units@) == conversation_unit_views(turns@, sentences@),
{
    let mut units: Vec<StructuralUnit> = Vec::new();
    let mut index: usize = 0;
    while index < turns.len()
        invariant
            index <= turns@.len(),
            turns@.len() == sentences@.len(),
            unit_views(units@) == conversation_unit_views(turns@.take(index as int), sentences@),
        decreases turns@.len() - index,
    {
        let turn = turns[index];
        let found = &sentences[index];
        let ghost before = unit_views(units@);
        let whole = StructuralUnit {
            id: {
                let mut id = String::from_str(turn.id);
                id.append(":turn");
                id
            },
            source_id: String::from_str(turn.id),
            kind: SemanticUnitKind::SpeakerTurn,
            parent_id: None,
            sequence_index: index,
            span: span_for_text(turn.text),
            speaker: owned_optional(turn.speaker),
            text: String::from_str(turn.text),
        };
        proof {
            assert(whole@ == turn_unit(turn, index as int));
        }
        let ghost prev = units@;
        units.push(whole);
        proof {
            assert(unit_views(units@) =~= unit_views(prev).push(whole@));
            assert(unit_views(units@) =~= before + seq![turn_unit(turn, index as int)] + Seq::new(
                0,
                |i: int| turn_sentence_unit(turn, i, found@[i]),
            ));
        }
        let mut position: usize = 0;
        while position < found.len()
            invariant
                position <= found@.len(),
                unit_views(units@) == before + seq![turn_unit(turn, index as int)] + Seq::new(
                    position as nat,
                    |i: int| turn_sentence_unit(turn, i, found@[i]),
                ),
            decreases found@.len() - position,
        {
            let sentence = &found[position];
            let mut parent = String::from_str(turn.id);
            parent.append(":turn");
            let unit = StructuralUnit {
                id: indexed_unit_id(turn.id, ":sentence:", position),
                source_id: String::from_str(turn.id),
                kind: SemanticUnitKind::Sentence,
                parent_id: Some(parent),
                sequence_index: position,
                span: sentence.span,
                speaker: owned_optional(turn.speaker),
                text: sentence.text.clone(),
            };
            proof {
                assert(unit@ == turn_sentence_unit(turn, position as int, found@[position as int]));
            }
            let ghost prev = units@;
            units.push(unit);
            proof {
                assert(unit_views(units@) =~= unit_views(prev).push(unit@));
                assert(unit_views(units@) =~= before + seq![turn_unit(turn, index as int)] + Seq::new(
                    (position + 1) as nat,
                    |i: int| turn_sentence_unit(turn, i, found@[i]),
                ));
            }
            position = position + 1;
        }
        proof {
            assert(turns@.take(index + 1).drop_last() =~= turns@.take(index as int));
        }
        index = index + 1;
    }
    proof {
        assert(turns@.take(turns@.len() as int) =~= turns@);
    }
    units
}

} // verus!
