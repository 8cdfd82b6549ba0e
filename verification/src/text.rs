//! Texts as sequences of characters, and the normal form by which proposals
//! are told apart.

use vstd::prelude::*;
use vstd::string::StrSliceExecFns;

verus! {

/// Whether `c` counts as whitespace: the result of `char::is_whitespace`,
/// which goes by the `White_Space` property of Unicode.
pub uninterp spec fn white_space(c: char) -> bool;

/// The result of `str::to_lowercase` on `text`: its lowercase equivalent by
/// the rules of Unicode, which depend on nothing but the text.
pub uninterp spec fn lowercased(text: Seq<char>) -> Seq<char>;

/// `char::is_whitespace` tells whether `c` has the `White_Space` property.
pub assume_specification[ char::is_whitespace ](c: char) -> (white: bool)
    ensures
        white == white_space(c),
;

/// `str::to_lowercase` returns the lowercase equivalent of `text` as a new
/// string; nothing is claimed of it but that equal texts give equal results.
pub assume_specification[ str::to_lowercase ](text: &str) -> (lower: String)
    ensures
        lower@ == lowercased(text@),
;

/// `String::push` appends the character `c` to `text`.
pub assume_specification[ String::push ](text: &mut String, c: char)
    ensures
        final(text)@ == old(text)@.push(c),
;

/// `text` without the whitespace at its beginning.
pub open spec fn without_leading_whitespace(text: Seq<char>) -> Seq<char>
    decreases text.len(),
{
    if text.len() > 0 && white_space(text.first()) {
        without_leading_whitespace(text.drop_first())
    } else {
        text
    }
}

/// `text` without the whitespace at its end.
pub open spec fn without_trailing_whitespace(text: Seq<char>) -> Seq<char>
    decreases text.len(),
{
    if text.len() > 0 && white_space(text.last()) {
        without_trailing_whitespace(text.drop_last())
    } else {
        text
    }
}

/// `text` without the whitespace at either end.
pub open spec fn trimmed(text: Seq<char>) -> Seq<char> {
    without_trailing_whitespace(without_leading_whitespace(text))
}

/// The form by which two proposals count as the same: trimmed, in lowercase.
pub open spec fn proposal_key(text: Seq<char>) -> Seq<char> {
    lowercased(trimmed(text))
}

/// The character sequences of a list of strings.
pub open spec fn text_views(texts: Seq<String>) -> Seq<Seq<char>> {
    Seq::new(texts.len(), |i: int| texts[i]@)
}

/// Where the first `start` characters are whitespace and the next one is
/// not, the text without leading whitespace begins at `start`.
pub proof fn lemma_leading_whitespace(text: Seq<char>, start: int)
    requires
        0 <= start <= text.len(),
        forall|i: int| 0 <= i < start ==> white_space(#[trigger] text[i]),
        start < text.len() ==> !white_space(text[start]),
    ensures
        without_leading_whitespace(text) == text.subrange(start, text.len() as int),
    decreases start,
{
    if start == 0 {
        assert(text.subrange(0, text.len() as int) =~= text);
    } else {
        let rest = text.drop_first();
        assert forall|i: int| 0 <= i < start - 1 implies white_space(#[trigger] rest[i]) by {
            assert(rest[i] == text[i + 1]);
        }
        lemma_leading_whitespace(rest, start - 1);
        assert(rest.subrange(start - 1, rest.len() as int) =~= text.subrange(
            start,
            text.len() as int,
        ));
    }
}

/// Where the characters from `end` on are whitespace and the one before is
/// not, the text without trailing whitespace ends at `end`.
pub proof fn lemma_trailing_whitespace(text: Seq<char>, end: int)
    requires
        0 <= end <= text.len(),
        forall|i: int| end <= i < text.len() ==> white_space(#[trigger] text[i]),
        0 < end ==> !white_space(text[end - 1]),
    ensures
        without_trailing_whitespace(text) == text.subrange(0, end),
    decreases text.len() - end,
{
    if end == text.len() {
        assert(text.subrange(0, end) =~= text);
    } else {
        let rest = text.drop_last();
        assert forall|i: int| end <= i < rest.len() implies white_space(#[trigger] rest[i]) by {
            assert(rest[i] == text[i]);
        }
        lemma_trailing_whitespace(rest, end);
        assert(rest.subrange(0, end) =~= text.subrange(0, end));
    }
}

/// Whitespace added at the end of a text does not change what trimming
/// leaves of it.
pub proof fn lemma_trimmed_ignores_trailing_whitespace(text: Seq<char>, padding: Seq<char>)
    requires
        forall|i: int| 0 <= i < padding.len() ==> white_space(#[trigger] padding[i]),
    ensures
        trimmed(text + padding) == trimmed(text),
    decreases text.len(),
{
    if text.len() > 0 && white_space(text.first()) {
        assert((text + padding).first() == text.first());
        assert((text + padding).drop_first() =~= text.drop_first() + padding);
        lemma_trimmed_ignores_trailing_whitespace(text.drop_first(), padding);
    } else if text.len() > 0 {
        assert((text + padding).first() == text.first());
        lemma_trailing_padding(text, padding);
    } else {
        assert(text + padding =~= padding);
        lemma_leading_whitespace(padding, padding.len() as int);
        assert(padding.subrange(padding.len() as int, padding.len() as int) =~= Seq::<char>::empty());
    }
}

/// Whitespace at the end of a text goes with its trailing whitespace.
pub proof fn lemma_trailing_padding(text: Seq<char>, padding: Seq<char>)
    requires
        forall|i: int| 0 <= i < padding.len() ==> white_space(#[trigger] padding[i]),
    ensures
        without_trailing_whitespace(text + padding) == without_trailing_whitespace(text),
    decreases padding.len(),
{
    if padding.len() == 0 {
        assert(text + padding =~= text);
    } else {
        let whole = text + padding;
        assert(whole.last() == padding.last());
        assert(whole.drop_last() =~= text + padding.drop_last());
        lemma_trailing_padding(text, padding.drop_last());
    }
}

/// Returns `text` without the whitespace at either end.
pub fn trim(text: &str) -> (inner: String)
    ensures
        inner@ == trimmed(text@),
{
    // The number of characters fits a `usize`, and with it every index below.
    let length = text.unicode_len();
    let mut start: usize = 0;
    let mut end: usize = 0;
    let mut index: usize = 0;
    for c in it: text.chars()
        invariant
            it.seq() == text@,
            length == text@.len(),
            index == it.index(),
            start <= end <= index,
            forall|i: int| 0 <= i < start ==> white_space(#[trigger] text@[i]),
            forall|i: int| end <= i < index ==> white_space(#[trigger] text@[i]),
            start < end ==> !white_space(text@[start as int]) && !white_space(
                text@[end - 1],
            ),
            start == end ==> start == index,
    {
        if c.is_whitespace() {
            if start == end {
                start = index + 1;
                end = index + 1;
            }
        } else {
            if start == end {
                start = index;
            }
            end = index + 1;
        }
        index += 1;
    }
    proof {
        let all = text@;
        lemma_leading_whitespace(all, start as int);
        let tail = all.subrange(start as int, all.len() as int);
        assert forall|i: int| end - start <= i < tail.len() implies white_space(
            #[trigger] tail[i],
        ) by {
            assert(tail[i] == all[i + start]);
        }
        if start < end {
            assert(tail[end - start - 1] == all[end - 1]);
        }
        lemma_trailing_whitespace(tail, end - start);
        assert(tail.subrange(0, end - start) =~= all.subrange(start as int, end as int));
    }
    text.substring_char(start, end).to_owned()
}

} // verus!
