//! Properties of white-space trimming.

use vstd::prelude::*;

use crate::whitespace::{
    is_blank, is_white_space, lemma_trim_bounds, lemma_trim_end, lemma_trim_start, trimmed,
};

verus! {

/// Trimming white space removes all of it at both ends and nothing else:
/// the result is empty exactly for blank text, neither starts nor ends with
/// white space, and trimming it again changes nothing.
pub proof fn law_trimming_is_idempotent(text: Seq<char>)
    ensures
        trimmed(text).len() == 0 <==> is_blank(text),
        trimmed(text).len() > 0 ==> !is_white_space(trimmed(text)[0]) && !is_white_space(
            trimmed(text).last(),
        ),
        trimmed(trimmed(text)) == trimmed(text),
{
    lemma_trim_bounds(text);
    if !is_blank(text) {
        let k = choose|k: int| 0 <= k < text.len() && !is_white_space(text[k]);
        let start = crate::whitespace::trim_start_index(text);
        let end = crate::whitespace::trim_end_index(text);
        assert(start <= k) by {
            if start > k {
                assert(is_white_space(text[k]));
            }
        }
        assert(k < end) by {
            if end <= k {
                assert(is_white_space(text[k]));
            }
        }
        let inner = trimmed(text);
        assert(inner[0] == text[start]);
        assert(inner.last() == text[end - 1]);
        assert(!is_blank(inner)) by {
            assert(!is_white_space(inner[0]));
        }
        lemma_trim_start(inner, 0);
        lemma_trim_end(inner, inner.len() as int);
        assert(inner.subrange(0, inner.len() as int) =~= inner);
    } else {
        assert(is_blank(Seq::<char>::empty()));
    }
}

} // verus!
