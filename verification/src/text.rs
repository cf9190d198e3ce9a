//! Texts as lists of characters.

use vstd::prelude::*;
use vstd::string::StrSliceExecFns;

verus! {

/// The characters of a text.
pub fn chars_of(text: &str) -> (chars: Vec<char>)
    ensures
        chars@ == text@,
{
    let count = text.unicode_len();
    let mut chars: Vec<char> = Vec::new();
    let mut at: usize = 0;
    while at < count
        invariant
            at <= count,
            count == text@.len(),
            chars@ == text@.take(at as int),
        decreases count - at,
    {
        chars.push(text.get_char(at));
        at += 1;
        assert(chars@ =~= text@.take(at as int));
    }
    assert(text@.take(count as int) =~= text@);
    chars
}

/// Whether two texts hold the same characters.
pub fn same_chars(left: &Vec<char>, right: &Vec<char>) -> (same: bool)
    ensures
        same == (left@ == right@),
{
    if left.len() != right.len() {
        return false;
    }
    let mut at: usize = 0;
    while at < left.len()
        invariant
            at <= left.len(),
            left.len() == right.len(),
            forall|i: int| 0 <= i < at ==> left[i] == right[i],
        decreases left.len() - at,
    {
        if left[at] != right[at] {
            return false;
        }
        at += 1;
    }
    assert(left@ =~= right@);
    true
}

/// Whether a character is white space, as Unicode defines it.
pub open spec fn is_space(c: char) -> bool {
    let code = c as u32;
    ||| 0x9 <= code <= 0xd
    ||| code == 0x20
    ||| code == 0x85
    ||| code == 0xa0
    ||| code == 0x1680
    ||| 0x2000 <= code <= 0x200a
    ||| code == 0x2028
    ||| code == 0x2029
    ||| code == 0x202f
    ||| code == 0x205f
    ||| code == 0x3000
}

/// A text without the white space that it starts with.
pub open spec fn skip_spaces(text: Seq<char>) -> Seq<char>
    decreases text.len(),
{
    if text.len() > 0 && is_space(text[0]) {
        skip_spaces(text.skip(1))
    } else {
        text
    }
}

/// The length of the word that a text starts with: of its characters up to
/// the first white space.
pub open spec fn word_len(text: Seq<char>) -> nat
    decreases text.len(),
{
    if text.len() > 0 && !is_space(text[0]) {
        1 + word_len(text.skip(1))
    } else {
        0
    }
}

/// The first word of a text: what stands between the white space that the
/// text starts with and the next.
pub open spec fn first_word(text: Seq<char>) -> Seq<char> {
    skip_spaces(text).take(word_len(skip_spaces(text)) as int)
}

/// What follows the first word of a text.
pub open spec fn after_first_word(text: Seq<char>) -> Seq<char> {
    skip_spaces(text).skip(word_len(skip_spaces(text)) as int)
}

/// Whether a character is white space.
pub fn is_space_char(c: char) -> (space: bool)
    ensures
        space == is_space(c),
{
    let code = c as u32;
    (0x9 <= code && code <= 0xd) || code == 0x20 || code == 0x85 || code == 0xa0 || code == 0x1680
        || (0x2000 <= code && code <= 0x200a) || code == 0x2028 || code == 0x2029 || code
        == 0x202f || code == 0x205f || code == 0x3000
}

/// The place of the first character from `from` on that is not white space.
pub fn skip_spaces_from(text: &Vec<char>, from: usize) -> (to: usize)
    requires
        from <= text.len(),
    ensures
        from <= to <= text.len(),
        text@.skip(to as int) == skip_spaces(text@.skip(from as int)),
{
    let mut to = from;
    while to < text.len() && is_space_char(text[to])
        invariant
            from <= to <= text.len(),
            skip_spaces(text@.skip(to as int)) == skip_spaces(text@.skip(from as int)),
        decreases text.len() - to,
    {
        assert(text@.skip(to as int).skip(1) =~= text@.skip(to + 1));
        to += 1;
    }
    to
}

/// The place behind the word that starts at `from`.
pub fn word_end(text: &Vec<char>, from: usize) -> (to: usize)
    requires
        from <= text.len(),
    ensures
        from <= to <= text.len(),
        to - from == word_len(text@.skip(from as int)),
{
    let mut to = from;
    while to < text.len() && !is_space_char(text[to])
        invariant
            from <= to <= text.len(),
            word_len(text@.skip(from as int)) == (to - from) + word_len(text@.skip(to as int)),
        decreases text.len() - to,
    {
        assert(text@.skip(to as int).skip(1) =~= text@.skip(to + 1));
        to += 1;
    }
    to
}

/// Whether the characters of `text` from `from` up to `to` are those of
/// `other`.
pub fn range_is(text: &Vec<char>, from: usize, to: usize, other: &Vec<char>) -> (same: bool)
    requires
        from <= to <= text.len(),
    ensures
        same == (text@.subrange(from as int, to as int) == other@),
{
    if to - from != other.len() {
        return false;
    }
    let mut at: usize = 0;
    while at < other.len()
        invariant
            at <= other.len(),
            from <= to <= text.len(),
            to - from == other.len(),
            forall|i: int| 0 <= i < at ==> text[from + i] == other[i],
        decreases other.len() - at,
    {
        if text[from + at] != other[at] {
            assert(text@.subrange(from as int, to as int)[at as int] != other@[at as int]);
            return false;
        }
        at += 1;
    }
    assert(text@.subrange(from as int, to as int) =~= other@);
    true
}

} // verus!
