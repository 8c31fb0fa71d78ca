//! Deterministic byte, character, word, line and sentence statistics.

use unicode_segmentation::UnicodeSegmentation;

use vstd::prelude::*;
use vstd::string::StrSliceExecFns;

use crate::chars::collect_chars;
use crate::span::utf8_bytes;

verus! {

/// Request for [`analyze_text_statistics`].
#[derive(Debug, Clone, PartialEq, Eq)]
pub struct TextStatisticsRequest {
    pub text: String,
}

/// Counts reported by [`analyze_text_statistics`].
#[derive(Debug, Clone, PartialEq, Eq)]
pub struct TextStatisticsResult {
    pub byte_count: usize,
    pub character_count: usize,
    pub word_count: usize,
    pub line_count: usize,
    pub sentence_count: usize,
}

/// Name for the number of UAX #29 words of `text` that hold an alphanumeric character.
pub uninterp spec fn unicode_word_count(text: Seq<char>) -> usize;

/// Name for the number of UAX #29 sentences of `text` that hold an alphanumeric character.
pub uninterp spec fn unicode_sentence_count(text: Seq<char>) -> usize;

/// Number of occurrences of `c` in `text`.
pub open spec fn occurrences(text: Seq<char>, c: char) -> nat
    decreases text.len(),
{
    if text.len() == 0 {
        0
    } else {
        occurrences(text.drop_last(), c) + if text.last() == c {
            1nat
        } else {
            0nat
        }
    }
}

/// Number of lines of `text`: pieces separated by `'\n'`, where a final line
/// terminator does not open an extra empty line.
pub open spec fn line_count(text: Seq<char>) -> nat {
    occurrences(text, '\n') + if text.len() > 0 && text.last() != '\n' {
        1nat
    } else {
        0nat
    }
}

/// The statistics of `text`.
pub open spec fn text_statistics(text: Seq<char>) -> TextStatisticsResult {
    TextStatisticsResult {
        byte_count: utf8_bytes(text).len() as usize,
        character_count: text.len() as usize,
        word_count: unicode_word_count(text),
        line_count: line_count(text) as usize,
        sentence_count: unicode_sentence_count(text),
    }
}

/// Counts the words of `text` with
/// `unicode_segmentation::UnicodeSegmentation::unicode_words(text).count()`.
/// The UAX #29 word rules are not restated; the contract names the result as a
/// function of the characters and states only that an empty text has no words.
#[verifier::external_body]
fn count_unicode_words(text: &str) -> (count: usize)
    ensures
        count == unicode_word_count(text@),
        text@.len() == 0 ==> count == 0,
{
    text.unicode_words().count()
}

/// Counts the sentences of `text` with
/// `unicode_segmentation::UnicodeSegmentation::unicode_sentences(text).count()`.
/// The UAX #29 sentence rules are not restated; the contract names the result
/// as a function of the characters and states only that an empty text has no
/// sentences.
#[verifier::external_body]
fn count_unicode_sentences(text: &str) -> (count: usize)
    ensures
        count == unicode_sentence_count(text@),
        text@.len() == 0 ==> count == 0,
{
    text.unicode_sentences().count()
}

proof fn lemma_occurrences_bounded(text: Seq<char>, c: char)
    ensures
        occurrences(text, c) <= text.len(),
    decreases text.len(),
{
    if text.len() > 0 {
        lemma_occurrences_bounded(text.drop_last(), c);
    }
}

/// Counts the lines of `text` as `str::lines` delimits them.
pub fn count_lines(text: &str) -> (count: usize)
    ensures
        count == line_count(text@),
{
    let chars = collect_chars(text);
    let mut newlines: usize = 0;
    let mut index: usize = 0;
    while index < chars.len()
        invariant
            chars@ == text@,
            index <= chars.len(),
            newlines == occurrences(chars@.take(index as int), '\n'),
            newlines <= index,
        decreases chars.len() - index,
    {
        proof {
            assert(chars@.take(index as int + 1).drop_last() =~= chars@.take(index as int));
        }
        if chars[index] == '\n' {
            newlines = newlines + 1;
        }
        index = index + 1;
    }
    proof {
        assert(chars@.take(index as int) =~= chars@);
        if chars@.len() > 0 {
            lemma_occurrences_bounded(chars@.drop_last(), '\n');
        }
    }
    if chars.len() > 0 && chars[chars.len() - 1] != '\n' {
        newlines + 1
    } else {
        newlines
    }
}

/// Computes byte, character, word, line and sentence counts for the request text.
pub fn analyze_text_statistics(request: TextStatisticsRequest) -> (result: TextStatisticsResult)
    ensures
        result == text_statistics(request.text@),
        request.text@.len() == 0 ==> result == (TextStatisticsResult {
            byte_count: 0,
            character_count: 0,
            word_count: 0,
            line_count: 0,
            sentence_count: 0,
        }),
{
    let text = request.text.as_str();
    let byte_count = text.as_bytes().len();
    let character_count = text.unicode_len();
    let word_count = count_unicode_words(text);
    let line_count = count_lines(text);
    let sentence_count = count_unicode_sentences(text);
    proof {
        if text@.len() == 0 {
            assert(utf8_bytes(text@).len() == 0);
        }
    }
    TextStatisticsResult { byte_count, character_count, word_count, line_count, sentence_count }
}

/// How serious a diagnostic is.
#[derive(Debug, Clone, Copy, PartialEq, Eq)]
pub enum DiagnosticSeverity {
    Info,
    Warning,
    Error,
}

/// A diagnostic reported beside an operation's result.
#[derive(Debug, Clone, Copy, PartialEq, Eq)]
pub struct OperationDiagnostic {
    pub severity: DiagnosticSeverity,
    pub code: &'static str,
    pub message: &'static str,
}

/// The diagnostics of the text-statistics operation: a warning `text.empty`
/// when the text is empty, and none otherwise.
pub fn statistics_diagnostics(text: &str) -> (diagnostics: Vec<OperationDiagnostic>)
    ensures
        text@.len() > 0 ==> diagnostics@.len() == 0,
        text@.len() == 0 ==> diagnostics@.len() == 1 && diagnostics@[0].severity == DiagnosticSeverity::Warning
            && diagnostics@[0].code@ == "text.empty"@ && diagnostics@[0].message@ == "Input text is empty."@,
{
    let mut diagnostics: Vec<OperationDiagnostic> = Vec::new();
    if text.unicode_len() == 0 {
        diagnostics.push(
            OperationDiagnostic {
                severity: DiagnosticSeverity::Warning,
                code: "text.empty",
                message: "Input text is empty.",
            },
        );
    }
    diagnostics
}

} // verus!
