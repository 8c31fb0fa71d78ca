//! Properties of the structural units: how they nest.

use vstd::prelude::*;

use crate::model::SemanticUnitKind;
use crate::units::{
    conversation_unit_views, document_unit_views, first_container, ConversationTurn, TextRegion,
};

verus! {

proof fn lemma_first_container_in_range(paragraphs: Seq<TextRegion>, inner: crate::span::TextSpan, from: int)
    requires
        0 <= from,
    ensures
        first_container(paragraphs, inner, from) matches Some(k) ==> from <= k < paragraphs.len(),
    decreases paragraphs.len() - from,
{
    if from < paragraphs.len() {
        lemma_first_container_in_range(paragraphs, inner, from + 1);
    }
}

/// Every unit of a document that has a parent finds it among the document's
/// units: a sentence's parent is a paragraph unit, a paragraph's parent the
/// document unit.
pub proof fn law_document_parents_are_units(
    source: Seq<char>,
    text: Seq<char>,
    sentences: Seq<TextRegion>,
    paragraphs: Seq<TextRegion>,
)
    ensures
        ({
            let units = document_unit_views(source, text, sentences, paragraphs);
            forall|i: int|
                0 <= i < units.len() && (#[trigger] units[i]).parent_id is Some ==> exists|j: int|
                    0 <= j < units.len() && units[j].id == units[i].parent_id->0 && units[j].kind
                        != SemanticUnitKind::Sentence && units[j].source_id == units[i].source_id
        }),
{
    let units = document_unit_views(source, text, sentences, paragraphs);
    let s = sentences.len() as int;
    let p = paragraphs.len() as int;
    assert(units.len() == s + p + 1);
    assert forall|i: int|
        0 <= i < units.len() && (#[trigger] units[i]).parent_id is Some implies exists|j: int|
        0 <= j < units.len() && units[j].id == units[i].parent_id->0 && units[j].kind
            != SemanticUnitKind::Sentence && units[j].source_id == units[i].source_id by {
        if i < s {
            lemma_first_container_in_range(paragraphs, sentences[i].span, 0);
            let k = first_container(paragraphs, sentences[i].span, 0)->0;
            assert(units[s + k].id == units[i].parent_id->0);
        } else {
            assert(units[s + p].id == units[i].parent_id->0);
        }
    }
}

/// In a conversation, every sentence unit is a child of a turn unit that
/// comes before it and has the same source.
pub proof fn law_sentences_follow_their_turn(turns: Seq<ConversationTurn>, sentences: Seq<Vec<TextRegion>>)
    requires
        turns.len() <= sentences.len(),
    ensures
        ({
            let units = conversation_unit_views(turns, sentences);
            forall|i: int|
                0 <= i < units.len() && (#[trigger] units[i]).kind == SemanticUnitKind::Sentence
                    ==> exists|j: int|
                    0 <= j < i && units[j].kind == SemanticUnitKind::SpeakerTurn && units[i].parent_id
                        == Some(units[j].id) && units[j].source_id == units[i].source_id
        }),
    decreases turns.len(),
{
    if turns.len() > 0 {
        let last = turns.len() - 1;
        law_sentences_follow_their_turn(turns.drop_last(), sentences);
        let earlier = conversation_unit_views(turns.drop_last(), sentences);
        let units = conversation_unit_views(turns, sentences);
        let e = earlier.len() as int;
        assert forall|i: int|
            0 <= i < units.len() && (#[trigger] units[i]).kind == SemanticUnitKind::Sentence implies exists|j: int|
            0 <= j < i && units[j].kind == SemanticUnitKind::SpeakerTurn && units[i].parent_id == Some(
                units[j].id,
            ) && units[j].source_id == units[i].source_id by {
            if i < e {
                assert(units[i] == earlier[i]);
                let j = choose|j: int|
                    0 <= j < i && earlier[j].kind == SemanticUnitKind::SpeakerTurn && earlier[i].parent_id
                        == Some(earlier[j].id) && earlier[j].source_id == earlier[i].source_id;
                assert(units[j] == earlier[j]);
            } else {
                assert(units[e].kind == SemanticUnitKind::SpeakerTurn);
                assert(units[i].parent_id == Some(units[e].id));
            }
        }
    }
}

} // verus!
