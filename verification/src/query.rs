//! The query side of fuzzy search: which tokens of a query are searched, which
//! of them may be corrected, and how many a query may hold.

use vstd::prelude::*;
use vstd::string::{StrSliceExecFns, StringExecFns};

use crate::chars::{decimal, decimal_text};
use crate::fuzzy::MAX_FUZZY_TERM_CHARS;
use crate::span::TextSpan;
use crate::vocabulary::FuzzyTermMatch;

verus! {

/// Largest number of searchable terms a fuzzy query may hold.
pub const MAX_FUZZY_QUERY_TERMS: usize = 16;

/// The kind of a token, as far as fuzzy search reads it.
#[derive(Debug, Clone, Copy, PartialEq, Eq)]
pub enum TokenKind {
    Word,
    Number,
    Email,
    Url,
    Mention,
    Hashtag,
    Punctuation,
    /// Every other kind the tokenizer reports (symbols, white space, ...).
    Other,
}

/// One token of a text: its kind, its text and span in the source, and its
/// normalized form.
#[derive(Debug, Clone, PartialEq, Eq)]
pub struct TextToken {
    pub kind: TokenKind,
    pub text: String,
    pub span: TextSpan,
    pub normalized: String,
}

/// One searchable query token and whether fuzzy matching may correct it.
#[derive(Debug, Clone, PartialEq, Eq)]
pub struct QueryToken {
    pub normalized: String,
    pub fuzzy_eligible: bool,
}

/// Whether a token of this kind takes part in the search.
pub open spec fn searchable(kind: TokenKind) -> bool {
    !(kind is Punctuation) && !(kind is Other)
}

/// The searchable tokens, in order, each with whether it is a word (only
/// words may be corrected).
pub open spec fn query_tokens_of(tokens: Seq<TextToken>) -> Seq<(Seq<char>, bool)>
    decreases tokens.len(),
{
    if tokens.len() == 0 {
        Seq::empty()
    } else {
        let earlier = query_tokens_of(tokens.drop_last());
        let token = tokens.last();
        if searchable(token.kind) {
            earlier.push((token.normalized@, token.kind is Word))
        } else {
            earlier
        }
    }
}

/// The normalized form and eligibility of each query token.
pub open spec fn query_token_views(tokens: Seq<QueryToken>) -> Seq<(Seq<char>, bool)> {
    tokens.map_values(|token: QueryToken| (token.normalized@, token.fuzzy_eligible))
}

/// The query tokens of a tokenized query text: the words, numbers, emails,
/// URLs, mentions and hashtags, in order, each eligible for correction when
/// it is a word.
pub fn normalized_query_tokens(tokens: &[TextToken]) -> (query: Vec<QueryToken>)
    ensures
        query_token_views(query@) == query_tokens_of(tokens@),
{
    let mut query: Vec<QueryToken> = Vec::new();
    let mut index: usize = 0;
    while index < tokens.len()
        invariant
            index <= tokens@.len(),
            query_token_views(query@) == query_tokens_of(tokens@.take(index as int)),
        decreases tokens@.len() - index,
    {
        proof {
            assert(tokens@.take(index + 1).drop_last() =~= tokens@.take(index as int));
        }
        let token = &tokens[index];
        let (keep, word) = match token.kind {
            TokenKind::Word => (true, true),
            TokenKind::Punctuation => (false, false),
            TokenKind::Other => (false, false),
            _ => (true, false),
        };
        if keep {
            let ghost before = query@;
            query.push(QueryToken { normalized: token.normalized.clone(), fuzzy_eligible: word });
            proof {
                assert(query_token_views(query@) =~= query_token_views(before).push(
                    (token.normalized@, word),
                ));
            }
        }
        index = index + 1;
    }
    proof {
        assert(tokens@.take(index as int) =~= tokens@);
    }
    query
}

/// Why a fuzzy query was refused after tokenizing.
#[derive(Debug, Clone, Copy, PartialEq, Eq)]
pub enum FuzzyQueryError {
    /// The query holds no searchable term.
    NoSearchableTerm,
    /// The query holds more than [`MAX_FUZZY_QUERY_TERMS`] searchable terms.
    TooManyTerms,
}

/// Checks the number of searchable terms of a fuzzy query: at least one, and
/// at most [`MAX_FUZZY_QUERY_TERMS`].
pub fn check_query_tokens(tokens: &[QueryToken]) -> (result: Result<(), FuzzyQueryError>)
    ensures
        tokens@.len() == 0 ==> result == Err::<(), FuzzyQueryError>(FuzzyQueryError::NoSearchableTerm),
        tokens@.len() > MAX_FUZZY_QUERY_TERMS ==> result == Err::<(), FuzzyQueryError>(
            FuzzyQueryError::TooManyTerms,
        ),
        0 < tokens@.len() <= MAX_FUZZY_QUERY_TERMS ==> result is Ok,
{
    if tokens.len() == 0 {
        Err(FuzzyQueryError::NoSearchableTerm)
    } else if tokens.len() > MAX_FUZZY_QUERY_TERMS {
        Err(FuzzyQueryError::TooManyTerms)
    } else {
        Ok(())
    }
}

/// The sentence that describes a refused query, as characters.
pub open spec fn fuzzy_query_text(error: FuzzyQueryError) -> Seq<char> {
    match error {
        FuzzyQueryError::NoSearchableTerm => "fuzzy search requires at least one searchable query term"@,
        FuzzyQueryError::TooManyTerms => "fuzzy search supports at most 16 query terms"@,
    }
}

impl FuzzyQueryError {
    /// A sentence that describes the problem.
    pub fn message(&self) -> (text: &'static str)
        ensures
            text@ == fuzzy_query_text(*self),
    {
        match self {
            FuzzyQueryError::NoSearchableTerm => "fuzzy search requires at least one searchable query term",
            FuzzyQueryError::TooManyTerms => "fuzzy search supports at most 16 query terms",
        }
    }
}

/// Whether fuzzy matching may correct `token`: it is a word whose length in
/// characters lies between `min_term_length` and [`MAX_FUZZY_TERM_CHARS`].
pub fn correctable_token(token: &QueryToken, min_term_length: usize) -> (correctable: bool)
    ensures
        correctable == (token.fuzzy_eligible && min_term_length <= token.normalized@.len()
            <= MAX_FUZZY_TERM_CHARS),
{
    if !token.fuzzy_eligible {
        return false;
    }
    let length = token.normalized.as_str().unicode_len();
    min_term_length <= length && length <= MAX_FUZZY_TERM_CHARS
}

/// One query variant: its terms, and the corrections that led to them.
#[derive(Debug, Clone, PartialEq, Eq)]
pub struct QueryVariant {
    pub terms: Vec<String>,
    pub fuzzy_matches: Vec<FuzzyTermMatch>,
}

/// A [`QueryVariant`] with its terms taken as characters.
pub ghost struct VariantView {
    pub terms: Seq<Seq<char>>,
    pub fuzzy_matches: Seq<FuzzyTermMatch>,
}

impl View for QueryVariant {
    type V = VariantView;

    open spec fn view(&self) -> VariantView {
        VariantView {
            terms: self.terms@.map_values(|term: String| term@),
            fuzzy_matches: self.fuzzy_matches@,
        }
    }
}

/// The terms joined with single spaces.
pub open spec fn spaced(terms: Seq<Seq<char>>) -> Seq<char>
    decreases terms.len(),
{
    if terms.len() == 0 {
        Seq::empty()
    } else if terms.len() == 1 {
        terms[0]
    } else {
        spaced(terms.drop_last()) + " "@ + terms.last()
    }
}

impl QueryVariant {
    /// The variant as query text: its terms joined with single spaces.
    pub fn text(&self) -> (text: String)
        ensures
            text@ == spaced(self@.terms),
    {
        let mut text = String::from_str("");
        proof {
            reveal_strlit("");
            assert(self@.terms.take(0) =~= Seq::<Seq<char>>::empty());
        }
        let mut index: usize = 0;
        while index < self.terms.len()
            invariant
                index <= self.terms@.len(),
                text@ == spaced(self@.terms.take(index as int)),
            decreases self.terms@.len() - index,
        {
            proof {
                assert(self@.terms.take(index + 1).drop_last() =~= self@.terms.take(index as int));
            }
            if index > 0 {
                text.append(" ");
            }
            text.append(self.terms[index].as_str());
            proof {
                if index == 0 {
                    assert(text@ =~= self@.terms[0]);
                }
            }
            index = index + 1;
        }
        proof {
            assert(self@.terms.take(index as int) =~= self@.terms);
        }
        text
    }
}

/// The views of a list of variants.
pub open spec fn variant_views(variants: Seq<QueryVariant>) -> Seq<VariantView> {
    variants.map_values(|variant: QueryVariant| variant@)
}

/// `variant` with the term at `index` replaced by the correction `matched`,
/// which joins its corrections.
pub open spec fn corrected(variant: VariantView, index: int, matched: FuzzyTermMatch) -> VariantView {
    VariantView {
        terms: variant.terms.update(index, matched.matched_term@),
        fuzzy_matches: variant.fuzzy_matches.push(matched),
    }
}

/// For each variant in turn, one corrected variant per correction, in the
/// order of the corrections.
pub open spec fn corrections_of(variants: Seq<VariantView>, index: int, expansions: Seq<FuzzyTermMatch>) -> Seq<
    VariantView,
>
    decreases variants.len(),
{
    if variants.len() == 0 {
        Seq::empty()
    } else {
        corrections_of(variants.drop_last(), index, expansions) + expansions.map_values(
            |matched: FuzzyTermMatch| corrected(variants.last(), index, matched),
        )
    }
}

fn copy_match(matched: &FuzzyTermMatch) -> (copy: FuzzyTermMatch)
    ensures
        copy == *matched,
{
    FuzzyTermMatch {
        query_term: matched.query_term.clone(),
        matched_term: matched.matched_term.clone(),
        edit_distance: matched.edit_distance,
    }
}

fn copy_variant_with(variant: &QueryVariant, index: usize, matched: &FuzzyTermMatch) -> (next: QueryVariant)
    requires
        index < variant.terms@.len(),
    ensures
        next@ == corrected(variant@, index as int, *matched),
{
    let mut terms: Vec<String> = Vec::new();
    let mut position: usize = 0;
    while position < variant.terms.len()
        invariant
            position <= variant.terms@.len(),
            index < variant.terms@.len(),
            terms@.len() == position,
            forall|k: int|
                0 <= k < position ==> (#[trigger] terms@[k])@ == corrected(
                    variant@,
                    index as int,
                    *matched,
                ).terms[k],
        decreases variant.terms@.len() - position,
    {
        if position == index {
            terms.push(matched.matched_term.clone());
        } else {
            terms.push(variant.terms[position].clone());
        }
        position = position + 1;
    }
    let mut fuzzy_matches: Vec<FuzzyTermMatch> = Vec::new();
    let mut k: usize = 0;
    while k < variant.fuzzy_matches.len()
        invariant
            k <= variant.fuzzy_matches@.len(),
            fuzzy_matches@ == variant.fuzzy_matches@.take(k as int),
        decreases variant.fuzzy_matches@.len() - k,
    {
        fuzzy_matches.push(copy_match(&variant.fuzzy_matches[k]));
        proof {
            assert(variant.fuzzy_matches@.take(k + 1) =~= variant.fuzzy_matches@.take(k as int).push(
                variant.fuzzy_matches@[k as int],
            ));
        }
        k = k + 1;
    }
    fuzzy_matches.push(copy_match(matched));
    let next = QueryVariant { terms, fuzzy_matches };
    proof {
        assert(variant.fuzzy_matches@.take(k as int) =~= variant.fuzzy_matches@);
        assert(next@.terms =~= corrected(variant@, index as int, *matched).terms);
        assert(next@.fuzzy_matches =~= corrected(variant@, index as int, *matched).fuzzy_matches);
    }
    next
}

/// The variants after correcting the query term at `index`: the variants as
/// they were, then, for each of them in turn, one copy per correction in
/// `expansions`, in that order, whose term at `index` is the correction's
/// term and whose corrections end with it.
pub fn extend_variants(variants: Vec<QueryVariant>, index: usize, expansions: &[FuzzyTermMatch]) -> (extended:
    Vec<QueryVariant>)
    requires
        forall|k: int| 0 <= k < variants@.len() ==> index < (#[trigger] variants@[k]).terms@.len(),
    ensures
        variant_views(extended@) == variant_views(variants@) + corrections_of(
            variant_views(variants@),
            index as int,
            expansions@,
        ),
{
    let mut fresh: Vec<QueryVariant> = Vec::new();
    let mut position: usize = 0;
    while position < variants.len()
        invariant
            position <= variants@.len(),
            forall|k: int| 0 <= k < variants@.len() ==> index < (#[trigger] variants@[k]).terms@.len(),
            variant_views(fresh@) == corrections_of(
                variant_views(variants@.take(position as int)),
                index as int,
                expansions@,
            ),
        decreases variants@.len() - position,
    {
        let variant = &variants[position];
        let ghost before = variant_views(fresh@);
        let mut j: usize = 0;
        while j < expansions.len()
            invariant
                j <= expansions@.len(),
                index < variant.terms@.len(),
                variant_views(fresh@) == before + expansions@.take(j as int).map_values(
                    |matched: FuzzyTermMatch| corrected(variant@, index as int, matched),
                ),
            decreases expansions@.len() - j,
        {
            let next = copy_variant_with(variant, index, &expansions[j]);
            let ghost prev = fresh@;
            fresh.push(next);
            proof {
                assert(variant_views(fresh@) =~= variant_views(prev).push(next@));
                assert(expansions@.take(j + 1).map_values(
                    |matched: FuzzyTermMatch| corrected(variant@, index as int, matched),
                ) =~= expansions@.take(j as int).map_values(
                    |matched: FuzzyTermMatch| corrected(variant@, index as int, matched),
                ).push(corrected(variant@, index as int, expansions@[j as int])));
            }
            j = j + 1;
        }
        proof {
            assert(expansions@.take(j as int) =~= expansions@);
            assert(variant_views(variants@.take(position + 1)).drop_last() =~= variant_views(
                variants@.take(position as int),
            ));
            assert(variant_views(variants@.take(position + 1)).last() == variant@);
        }
        position = position + 1;
    }
    proof {
        assert(variants@.take(position as int) =~= variants@);
    }
    let ghost originals = variant_views(variants@);
    let ghost added = variant_views(fresh@);
    let mut all = variants;
    all.append(&mut fresh);
    proof {
        assert(variant_views(all@) =~= originals + added);
    }
    all
}

/// How one correction reads in a search explanation: `query→matched(d=distance)`.
pub open spec fn correction_text(matched: FuzzyTermMatch) -> Seq<char> {
    matched.query_term@ + "→"@ + matched.matched_term@ + "(d="@ + decimal_text(matched.edit_distance as nat) + ")"@
}

/// The corrections as a search explanation lists them, joined with commas.
pub open spec fn corrections_text(matches: Seq<FuzzyTermMatch>) -> Seq<char>
    decreases matches.len(),
{
    if matches.len() == 0 {
        Seq::empty()
    } else if matches.len() == 1 {
        correction_text(matches[0])
    } else {
        corrections_text(matches.drop_last()) + ","@ + correction_text(matches.last())
    }
}

/// The corrections of a result as its explanation lists them: each as
/// `query→matched(d=distance)`, joined with commas.
pub fn correction_summary(matches: &[FuzzyTermMatch]) -> (text: String)
    ensures
        text@ == corrections_text(matches@),
{
    let mut text = String::from_str("");
    proof {
        reveal_strlit("");
        assert(text@ =~= corrections_text(matches@.take(0)));
    }
    let mut index: usize = 0;
    while index < matches.len()
        invariant
            index <= matches@.len(),
            text@ == corrections_text(matches@.take(index as int)),
        decreases matches@.len() - index,
    {
        proof {
            assert(matches@.take(index + 1).drop_last() =~= matches@.take(index as int));
        }
        let ghost before = text@;
        if index > 0 {
            text.append(",");
        }
        let matched = &matches[index];
        text.append(matched.query_term.as_str());
        text.append("→");
        text.append(matched.matched_term.as_str());
        text.append("(d=");
        let digits = decimal(matched.edit_distance);
        text.append(digits.as_str());
        text.append(")");
        proof {
            if index == 0 {
                assert(text@ =~= correction_text(matches@[0]));
            } else {
                assert(text@ =~= before + ","@ + correction_text(matches@[index as int]));
            }
        }
        index = index + 1;
    }
    proof {
        assert(matches@.take(index as int) =~= matches@);
    }
    text
}

} // verus!
