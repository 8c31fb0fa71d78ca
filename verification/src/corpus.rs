//! Attributed corpus items and the checks made before corpus-level analysis.

use vstd::prelude::*;
use vstd::string::StringExecFns;

use crate::chars::same_text;
use crate::span::TextSpan;
use crate::whitespace::{is_blank, is_blank_str, trim_white_space, trimmed};

verus! {

/// One attributed text item supplied to corpus-level semantic analysis.
#[derive(Debug, Clone, Copy)]
pub struct SemanticCorpusItem<'a> {
    pub id: &'a str,
    pub author: Option<&'a str>,
    pub text: &'a str,
    pub source: Option<&'a str>,
    pub timestamp_millis: Option<i64>,
}

impl<'a> SemanticCorpusItem<'a> {
    /// Creates a corpus item without source or timestamp metadata.
    pub fn new(id: &'a str, author: Option<&'a str>, text: &'a str) -> (item: Self)
        ensures
            item == (SemanticCorpusItem { id, author, text, source: None, timestamp_millis: None }),
    {
        SemanticCorpusItem { id, author, text, source: None, timestamp_millis: None }
    }

    /// Attaches a caller-owned source label or locator.
    pub fn with_source(self, source: &'a str) -> (item: Self)
        ensures
            item == (SemanticCorpusItem { source: Some(source), ..self }),
    {
        SemanticCorpusItem { source: Some(source), ..self }
    }

    /// Attaches a caller-owned timestamp in Unix milliseconds.
    pub fn with_timestamp_millis(self, timestamp_millis: i64) -> (item: Self)
        ensures
            item == (SemanticCorpusItem { timestamp_millis: Some(timestamp_millis), ..self }),
    {
        SemanticCorpusItem { timestamp_millis: Some(timestamp_millis), ..self }
    }
}

/// Source metadata retained independently from semantic-unit spans.
#[derive(Debug, Clone, PartialEq, Eq)]
pub struct SemanticCorpusSource {
    pub id: String,
    pub author: Option<String>,
    pub source: Option<String>,
    pub timestamp_millis: Option<i64>,
}

/// One representative passage for a corpus-level deterministic concept.
#[derive(Debug, Clone, PartialEq, Eq)]
pub struct SemanticCorpusPassage {
    pub unit_id: String,
    pub source_id: String,
    pub author: Option<String>,
    pub source: Option<String>,
    pub timestamp_millis: Option<i64>,
    pub span: TextSpan,
    pub text: String,
}

/// Why a corpus was refused before analysis.
#[derive(Debug, Clone, Copy, PartialEq, Eq)]
pub enum CorpusItemError<'a> {
    /// The corpus holds no item.
    EmptyCorpus,
    /// The number of top terms requested is zero.
    ZeroTopTerms,
    /// The minimum concept support is zero.
    ZeroMinConceptUnits,
    /// An item id is empty or white space.
    EmptyItemId,
    /// An item id occurs twice.
    DuplicateItemId(&'a str),
    /// The text of the item with this id is empty or white space.
    EmptyItemText(&'a str),
    /// The item with this id names an author that is empty or white space.
    EmptyAuthor(&'a str),
    /// The item with this id names a source that is empty or white space.
    EmptySource(&'a str),
}

/// True when `value` is present and blank.
pub open spec fn is_blank_option(value: Option<&str>) -> bool {
    match value {
        Some(text) => is_blank(text@),
        None => false,
    }
}

/// The ids of `items`, as characters.
pub open spec fn item_ids(items: Seq<SemanticCorpusItem>) -> Seq<Seq<char>> {
    items.map_values(|item: SemanticCorpusItem| item.id@)
}

/// The first problem among the items from position `index` on, given the ids seen before.
pub open spec fn check_items<'a>(items: Seq<SemanticCorpusItem<'a>>, index: int) -> Result<
    (),
    CorpusItemError<'a>,
>
    decreases items.len() - index,
{
    if index < 0 || index >= items.len() {
        Ok(())
    } else {
        let item = items[index];
        if is_blank(item.id@) {
            Err(CorpusItemError::EmptyItemId)
        } else if item_ids(items).subrange(0, index).contains(item.id@) {
            Err(CorpusItemError::DuplicateItemId(item.id))
        } else if is_blank(item.text@) {
            Err(CorpusItemError::EmptyItemText(item.id))
        } else if is_blank_option(item.author) {
            Err(CorpusItemError::EmptyAuthor(item.id))
        } else if is_blank_option(item.source) {
            Err(CorpusItemError::EmptySource(item.id))
        } else {
            check_items(items, index + 1)
        }
    }
}

/// Outcome of the word-sense corpus check.
pub open spec fn items_check<'a>(items: Seq<SemanticCorpusItem<'a>>) -> Result<
    (),
    CorpusItemError<'a>,
> {
    if items.len() == 0 {
        Err(CorpusItemError::EmptyCorpus)
    } else {
        check_items(items, 0)
    }
}

/// Outcome of the semantic corpus check.
pub open spec fn corpus_check<'a>(
    items: Seq<SemanticCorpusItem<'a>>,
    top_terms: usize,
    min_concept_units: usize,
) -> Result<(), CorpusItemError<'a>> {
    if items.len() == 0 {
        Err(CorpusItemError::EmptyCorpus)
    } else if top_terms == 0 {
        Err(CorpusItemError::ZeroTopTerms)
    } else if min_concept_units == 0 {
        Err(CorpusItemError::ZeroMinConceptUnits)
    } else {
        check_items(items, 0)
    }
}

fn is_blank_option_exec(value: Option<&str>) -> (blank: bool)
    ensures
        blank == is_blank_option(value),
{
    match value {
        Some(text) => is_blank_str(text),
        None => false,
    }
}


/// Checks every item from the first on, in order.
fn check_all_items<'a>(items: &[SemanticCorpusItem<'a>]) -> (result: Result<(), CorpusItemError<'a>>)
    ensures
        result == check_items(items@, 0),
{
    let mut index: usize = 0;
    while index < items.len()
        invariant
            index <= items@.len(),
            check_items(items@, 0) == check_items(items@, index as int),
        decreases items@.len() - index,
    {
        let item = items[index];
        if is_blank_str(item.id) {
            return Err(CorpusItemError::EmptyItemId);
        }
        let mut earlier: usize = 0;
        while earlier < index
            invariant
                index < items@.len(),
                earlier <= index,
                item == items@[index as int],
                forall|j: int| 0 <= j < earlier ==> items@[j].id@ != item.id@,
                check_items(items@, 0) == check_items(items@, index as int),
                !is_blank(item.id@),
            decreases index - earlier,
        {
            if same_text(items[earlier].id, item.id) {
                proof {
                    assert(item_ids(items@).subrange(0, index as int)[earlier as int] == item.id@);
                }
                return Err(CorpusItemError::DuplicateItemId(item.id));
            }
            earlier = earlier + 1;
        }
        proof {
            if item_ids(items@).subrange(0, index as int).contains(item.id@) {
                let j = choose|j: int|
                    0 <= j < index && item_ids(items@).subrange(0, index as int)[j] == item.id@;
                assert(items@[j].id@ == item.id@);
            }
        }
        if is_blank_str(item.text) {
            return Err(CorpusItemError::EmptyItemText(item.id));
        }
        if is_blank_option_exec(item.author) {
            return Err(CorpusItemError::EmptyAuthor(item.id));
        }
        if is_blank_option_exec(item.source) {
            return Err(CorpusItemError::EmptySource(item.id));
        }
        index = index + 1;
    }
    Ok(())
}

/// Checks a semantic corpus and its presentation limits before analysis.
pub fn validate_corpus<'a>(
    items: &[SemanticCorpusItem<'a>],
    top_terms: usize,
    min_concept_units: usize,
) -> (result: Result<(), CorpusItemError<'a>>)
    ensures
        result == corpus_check(items@, top_terms, min_concept_units),
{
    if items.len() == 0 {
        return Err(CorpusItemError::EmptyCorpus);
    }
    if top_terms == 0 {
        return Err(CorpusItemError::ZeroTopTerms);
    }
    if min_concept_units == 0 {
        return Err(CorpusItemError::ZeroMinConceptUnits);
    }
    check_all_items(items)
}

/// Checks the items of a word-sense corpus before analysis.
pub fn validate_items<'a>(items: &[SemanticCorpusItem<'a>]) -> (result: Result<
    (),
    CorpusItemError<'a>,
>)
    ensures
        result == items_check(items@),
{
    if items.len() == 0 {
        return Err(CorpusItemError::EmptyCorpus);
    }
    check_all_items(items)
}

/// The author of an item with surrounding white space removed.
pub fn normalized_author(author: Option<&str>) -> (normalized: Option<String>)
    ensures
        match author {
            Some(text) => normalized is Some && normalized->0@ == trimmed(text@),
            None => normalized is None,
        },
{
    match author {
        Some(text) => Some(trim_white_space(text)),
        None => None,
    }
}

/// The source record of an item: its id, normalized author, source and timestamp.
pub fn corpus_source(item: &SemanticCorpusItem) -> (source: SemanticCorpusSource)
    ensures
        source.id@ == item.id@,
        match item.author {
            Some(text) => source.author is Some && source.author->0@ == trimmed(text@),
            None => source.author is None,
        },
        match item.source {
            Some(text) => source.source is Some && source.source->0@ == text@,
            None => source.source is None,
        },
        source.timestamp_millis == item.timestamp_millis,
{
    SemanticCorpusSource {
        id: String::from_str(item.id),
        author: normalized_author(item.author),
        source: match item.source {
            Some(text) => Some(String::from_str(text)),
            None => None,
        },
        timestamp_millis: item.timestamp_millis,
    }
}

/// The text that describes a corpus problem, as characters.
pub open spec fn corpus_error_text(error: CorpusItemError) -> Seq<char> {
    match error {
        CorpusItemError::EmptyCorpus => "semantic corpus must contain at least one item"@,
        CorpusItemError::ZeroTopTerms => "semantic corpus top_terms must be greater than zero"@,
        CorpusItemError::ZeroMinConceptUnits =>
            "semantic corpus min_concept_units must be greater than zero"@,
        CorpusItemError::EmptyItemId => "semantic corpus item id must not be empty"@,
        CorpusItemError::DuplicateItemId(id) => "duplicate semantic corpus item id `"@ + id@
            + "`"@,
        CorpusItemError::EmptyItemText(id) => "semantic corpus item `"@ + id@
            + "` text must not be empty"@,
        CorpusItemError::EmptyAuthor(id) => "semantic corpus item `"@ + id@
            + "` author must not be empty when present"@,
        CorpusItemError::EmptySource(id) => "semantic corpus item `"@ + id@
            + "` source must not be empty when present"@,
    }
}

/// `prefix`, then `id`, then `suffix`.
fn framed(prefix: &str, id: &str, suffix: &str) -> (text: String)
    ensures
        text@ == prefix@ + id@ + suffix@,
{
    let mut text = String::from_str(prefix);
    text.append(id);
    text.append(suffix);
    text
}

impl<'a> CorpusItemError<'a> {
    /// A sentence that describes the problem.
    pub fn message(&self) -> (text: String)
        ensures
            text@ == corpus_error_text(*self),
    {
        match *self {
            CorpusItemError::EmptyCorpus => String::from_str(
                "semantic corpus must contain at least one item",
            ),
            CorpusItemError::ZeroTopTerms => String::from_str(
                "semantic corpus top_terms must be greater than zero",
            ),
            CorpusItemError::ZeroMinConceptUnits => String::from_str(
                "semantic corpus min_concept_units must be greater than zero",
            ),
            CorpusItemError::EmptyItemId => String::from_str(
                "semantic corpus item id must not be empty",
            ),
            CorpusItemError::DuplicateItemId(id) => framed(
                "duplicate semantic corpus item id `",
                id,
                "`",
            ),
            CorpusItemError::EmptyItemText(id) => framed(
                "semantic corpus item `",
                id,
                "` text must not be empty",
            ),
            CorpusItemError::EmptyAuthor(id) => framed(
                "semantic corpus item `",
                id,
                "` author must not be empty when present",
            ),
            CorpusItemError::EmptySource(id) => framed(
                "semantic corpus item `",
                id,
                "` source must not be empty when present",
            ),
        }
    }
}

/// The text that describes a word-sense corpus problem, as characters.
pub open spec fn word_sense_error_text(error: CorpusItemError) -> Seq<char> {
    match error {
        CorpusItemError::EmptyCorpus => "word-sense corpus must contain at least one item"@,
        CorpusItemError::EmptyItemId => "word-sense corpus item id must not be empty"@,
        CorpusItemError::DuplicateItemId(id) => "duplicate word-sense corpus item id `"@ + id@
            + "`"@,
        CorpusItemError::EmptyItemText(id) => "word-sense corpus item `"@ + id@
            + "` text must not be empty"@,
        CorpusItemError::EmptyAuthor(id) => "word-sense corpus item `"@ + id@
            + "` author must not be empty when present"@,
        CorpusItemError::EmptySource(id) => "word-sense corpus item `"@ + id@
            + "` source must not be empty when present"@,
        _ => corpus_error_text(error),
    }
}

impl<'a> CorpusItemError<'a> {
    /// A sentence that describes the problem in a word-sense corpus.
    pub fn word_sense_message(&self) -> (text: String)
        ensures
            text@ == word_sense_error_text(*self),
    {
        match *self {
            CorpusItemError::EmptyCorpus => String::from_str(
                "word-sense corpus must contain at least one item",
            ),
            CorpusItemError::EmptyItemId => String::from_str(
                "word-sense corpus item id must not be empty",
            ),
            CorpusItemError::DuplicateItemId(id) => framed(
                "duplicate word-sense corpus item id `",
                id,
                "`",
            ),
            CorpusItemError::EmptyItemText(id) => framed(
                "word-sense corpus item `",
                id,
                "` text must not be empty",
            ),
            CorpusItemError::EmptyAuthor(id) => framed(
                "word-sense corpus item `",
                id,
                "` author must not be empty when present",
            ),
            CorpusItemError::EmptySource(id) => framed(
                "word-sense corpus item `",
                id,
                "` source must not be empty when present",
            ),
            _ => self.message(),
        }
    }
}

/// What a passage records of the semantic unit it quotes.
#[derive(Debug, Clone, PartialEq, Eq)]
pub struct PassageUnit {
    pub id: String,
    pub source_id: String,
    pub speaker: Option<String>,
    pub span: TextSpan,
    pub text: String,
}

fn copy_text_option(value: &Option<String>) -> (copy: Option<String>)
    ensures
        copy == *value,
{
    match value {
        Some(text) => Some(text.clone()),
        None => None,
    }
}

/// The passage that quotes `unit`, with the source label and timestamp of
/// its corpus item when that item's source record is given.
pub fn passage(unit: &PassageUnit, source: Option<&SemanticCorpusSource>) -> (quoted: SemanticCorpusPassage)
    ensures
        quoted == (SemanticCorpusPassage {
            unit_id: unit.id,
            source_id: unit.source_id,
            author: unit.speaker,
            source: match source {
                Some(record) => record.source,
                None => None,
            },
            timestamp_millis: match source {
                Some(record) => record.timestamp_millis,
                None => None,
            },
            span: unit.span,
            text: unit.text,
        }),
{
    let (label, timestamp_millis) = match source {
        Some(record) => (copy_text_option(&record.source), record.timestamp_millis),
        None => (None, None),
    };
    SemanticCorpusPassage {
        unit_id: unit.id.clone(),
        source_id: unit.source_id.clone(),
        author: copy_text_option(&unit.speaker),
        source: label,
        timestamp_millis,
        span: unit.span,
        text: unit.text.clone(),
    }
}

} // verus!
