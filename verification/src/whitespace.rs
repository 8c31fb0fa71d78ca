//! Unicode `White_Space` characters, blank text and trimming.

use vstd::prelude::*;
use vstd::string::{StrSliceExecFns, StringExecFns};

use crate::chars::collect_chars;

verus! {

/// The Unicode `White_Space` property (PropList.txt), which `char::is_whitespace` tests.
pub open spec fn is_white_space(c: char) -> bool {
    let v = c as u32;
    ||| 0x09 <= v <= 0x0D
    ||| v == 0x20
    ||| v == 0x85
    ||| v == 0xA0
    ||| v == 0x1680
    ||| 0x2000 <= v <= 0x200A
    ||| v == 0x2028
    ||| v == 0x2029
    ||| v == 0x202F
    ||| v == 0x205F
    ||| v == 0x3000
}

/// True when `text` holds only white space (or nothing at all).
pub open spec fn is_blank(text: Seq<char>) -> bool {
    forall|i: int| 0 <= i < text.len() ==> #[trigger] is_white_space(text[i])
}

/// Index of the first character of `text` that is not white space, or its length.
pub open spec fn trim_start_index(text: Seq<char>) -> int
    decreases text.len(),
{
    if text.len() == 0 {
        0
    } else if is_white_space(text[0]) {
        1 + trim_start_index(text.drop_first())
    } else {
        0
    }
}

/// One past the last character of `text` that is not white space, or zero.
pub open spec fn trim_end_index(text: Seq<char>) -> int
    decreases text.len(),
{
    if text.len() == 0 {
        0
    } else if is_white_space(text.last()) {
        trim_end_index(text.drop_last())
    } else {
        text.len() as int
    }
}

/// `text` without leading and trailing white space.
pub open spec fn trimmed(text: Seq<char>) -> Seq<char> {
    if is_blank(text) {
        Seq::empty()
    } else {
        text.subrange(trim_start_index(text), trim_end_index(text))
    }
}

/// Whether `c` has the Unicode `White_Space` property.
pub fn is_white_space_char(c: char) -> (result: bool)
    ensures
        result == is_white_space(c),
{
    let v = c as u32;
    (0x09 <= v && v <= 0x0D) || v == 0x20 || v == 0x85 || v == 0xA0 || v == 0x1680 || (0x2000
        <= v && v <= 0x200A) || v == 0x2028 || v == 0x2029 || v == 0x202F || v == 0x205F || v
        == 0x3000
}

/// True when `text` is empty or holds only white space.
pub fn is_blank_str(text: &str) -> (blank: bool)
    ensures
        blank == is_blank(text@),
{
    let chars = collect_chars(text);
    let mut index: usize = 0;
    while index < chars.len()
        invariant
            chars@ == text@,
            index <= chars@.len(),
            forall|i: int| 0 <= i < index ==> #[trigger] is_white_space(chars@[i]),
        decreases chars@.len() - index,
    {
        if !is_white_space_char(chars[index]) {
            return false;
        }
        index = index + 1;
    }
    true
}

pub(crate) proof fn lemma_trim_start(text: Seq<char>, index: int)
    requires
        0 <= index <= text.len(),
        forall|i: int| 0 <= i < index ==> #[trigger] is_white_space(text[i]),
        index == text.len() || !is_white_space(text[index]),
    ensures
        trim_start_index(text) == index,
    decreases text.len(),
{
    if text.len() > 0 && index > 0 {
        assert forall|i: int| 0 <= i < index - 1 implies #[trigger] is_white_space(
            text.drop_first()[i],
        ) by {
            assert(text.drop_first()[i] == text[i + 1]);
        }
        lemma_trim_start(text.drop_first(), index - 1);
    }
}

pub(crate) proof fn lemma_trim_end(text: Seq<char>, end: int)
    requires
        0 <= end <= text.len(),
        forall|i: int| end <= i < text.len() ==> #[trigger] is_white_space(text[i]),
        end == 0 || !is_white_space(text[end - 1]),
    ensures
        trim_end_index(text) == end,
    decreases text.len(),
{
    if text.len() > 0 && end < text.len() {
        lemma_trim_end(text.drop_last(), end);
    }
}

/// `text` without leading and trailing white space, as `str::trim` returns it.
pub fn trim_white_space(text: &str) -> (result: String)
    ensures
        result@ == trimmed(text@),
{
    let chars = collect_chars(text);
    let mut start: usize = 0;
    while start < chars.len() && is_white_space_char(chars[start])
        invariant
            chars@ == text@,
            start <= chars@.len(),
            forall|i: int| 0 <= i < start ==> #[trigger] is_white_space(chars@[i]),
        decreases chars@.len() - start,
    {
        start = start + 1;
    }
    if start == chars.len() {
        return String::new();
    }
    let mut end: usize = chars.len();
    while end > start && is_white_space_char(chars[end - 1])
        invariant
            chars@ == text@,
            start < chars@.len(),
            !is_white_space(chars@[start as int]),
            start < end <= chars@.len(),
            forall|i: int| end <= i < chars@.len() ==> #[trigger] is_white_space(chars@[i]),
        decreases end,
    {
        end = end - 1;
    }
    proof {
        lemma_trim_start(text@, start as int);
        lemma_trim_end(text@, end as int);
    }
    String::from_str(text.substring_char(start, end))
}

/// The trim indices bound the leading and trailing white space.
pub(crate) proof fn lemma_trim_bounds(text: Seq<char>)
    ensures
        0 <= trim_start_index(text) <= text.len(),
        forall|i: int| 0 <= i < trim_start_index(text) ==> #[trigger] is_white_space(text[i]),
        trim_start_index(text) < text.len() ==> !is_white_space(text[trim_start_index(text)]),
        0 <= trim_end_index(text) <= text.len(),
        forall|i: int| trim_end_index(text) <= i < text.len() ==> #[trigger] is_white_space(text[i]),
        trim_end_index(text) > 0 ==> !is_white_space(text[trim_end_index(text) - 1]),
    decreases text.len(),
{
    if text.len() > 0 {
        lemma_trim_bounds(text.drop_first());
        lemma_trim_bounds(text.drop_last());
        if is_white_space(text[0]) {
            assert forall|i: int| 0 <= i < trim_start_index(text) implies #[trigger] is_white_space(
                text[i],
            ) by {
                if i > 0 {
                    assert(text[i] == text.drop_first()[i - 1]);
                }
            }
            if trim_start_index(text) < text.len() {
                assert(text[trim_start_index(text)] == text.drop_first()[trim_start_index(text) - 1]);
            }
        }
        if is_white_space(text.last()) {
            assert forall|i: int| trim_end_index(text) <= i < text.len() implies #[trigger] is_white_space(
                text[i],
            ) by {
                if i < text.len() - 1 {
                    assert(text[i] == text.drop_last()[i]);
                }
            }
            if trim_end_index(text) > 0 {
                assert(text[trim_end_index(text) - 1] == text.drop_last()[trim_end_index(text) - 1]);
            }
        }
    }
}

} // verus!
