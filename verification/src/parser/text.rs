//! Character-level helpers shared by the parser: conversion between strings
//! and character vectors, searching, trimming and UTF-8 offsets.

use vstd::prelude::*;
use vstd::utf8::{encode_scalar, encode_utf8};

verus! {

/// Whether `c` has the Unicode property `White_Space`, as `char::is_whitespace` reports it.
pub uninterp spec fn white_space(c: char) -> bool;

/// Whether `c` is alphabetic or numeric in Unicode's terms, as `char::is_alphanumeric` reports it.
pub uninterp spec fn alphanumeric(c: char) -> bool;

/// The lowercase form of `text`, as `str::to_lowercase` produces it.
pub uninterp spec fn lowercase(text: Seq<char>) -> Seq<char>;

/// `char::is_whitespace` depends on the character alone; its answer is named `white_space`.
pub assume_specification[ char::is_whitespace ](c: char) -> (b: bool)
    ensures
        b == white_space(c),
;

/// `char::is_alphanumeric` depends on the character alone; its answer is named `alphanumeric`.
pub assume_specification[ char::is_alphanumeric ](c: char) -> (b: bool)
    ensures
        b == alphanumeric(c),
;

/// `str::to_lowercase` returns a new string that depends on the text alone; it is
/// named `lowercase`.
pub assume_specification[ str::to_lowercase ](s: &str) -> (lower: String)
    ensures
        lower@ == lowercase(s@),
;

/// `String::push` appends one character at the end of the string.
pub assume_specification[ String::push ](s: &mut String, c: char)
    ensures
        final(s)@ == old(s)@.push(c),
;

/// The characters of `s`, in order.
pub fn chars_of(s: &str) -> (chars: Vec<char>)
    ensures
        chars@ == s@,
{
    let mut chars: Vec<char> = Vec::new();
    for c in it: s.chars()
        invariant
            chars@ == it.seq().take(it.index() as int),
            it.seq() == s@,
    {
        chars.push(c);
    }
    chars
}

/// The string made of the characters `chars[from..to]`.
pub fn string_of(chars: &Vec<char>, from: usize, to: usize) -> (s: String)
    requires
        from <= to <= chars@.len(),
    ensures
        s@ == chars@.subrange(from as int, to as int),
{
    let mut s = String::new();
    let mut i: usize = from;
    while i < to
        invariant
            from <= i <= to <= chars@.len(),
            s@ == chars@.subrange(from as int, i as int),
        decreases to - i,
    {
        s.push(chars[i]);
        i += 1;
        assert(chars@.subrange(from as int, i as int) == chars@.subrange(from as int, i - 1).push(
            chars@[i - 1],
        ));
    }
    s
}

/// The string made of all of `chars`.
pub fn string_from(chars: &Vec<char>) -> (s: String)
    ensures
        s@ == chars@,
{
    let s = string_of(chars, 0, chars.len());
    assert(chars@.subrange(0, chars@.len() as int) == chars@);
    s
}

/// The number of leading characters of `s`, counted from `from`, that are whitespace.
pub open spec fn skip_whitespace(s: Seq<char>, from: int) -> int
    decreases s.len() - from,
{
    if 0 <= from < s.len() && white_space(s[from]) {
        skip_whitespace(s, from + 1)
    } else {
        from
    }
}

/// `s` without its leading whitespace.
pub open spec fn trim_start(s: Seq<char>) -> Seq<char> {
    s.subrange(skip_whitespace(s, 0), s.len() as int)
}

/// `s` without its trailing whitespace.
pub open spec fn trim_end(s: Seq<char>) -> Seq<char>
    decreases s.len(),
{
    if s.len() > 0 && white_space(s.last()) {
        trim_end(s.drop_last())
    } else {
        s
    }
}

/// `s` without leading and trailing whitespace.
pub open spec fn trim(s: Seq<char>) -> Seq<char> {
    trim_end(trim_start(s))
}

/// Skipping whitespace ends at or behind the place where it begins, and inside the text.
pub proof fn lemma_skip_whitespace_bounds(s: Seq<char>, from: int)
    requires
        0 <= from <= s.len(),
    ensures
        from <= skip_whitespace(s, from) <= s.len(),
    decreases s.len() - from,
{
    if from < s.len() && white_space(s[from]) {
        lemma_skip_whitespace_bounds(s, from + 1);
    }
}

/// The index of the first character at or after `from` that is not whitespace.
pub fn skip_whitespace_from(chars: &Vec<char>, from: usize) -> (at: usize)
    requires
        from <= chars@.len(),
    ensures
        at == skip_whitespace(chars@, from as int),
        from <= at <= chars@.len(),
{
    let mut i: usize = from;
    while i < chars.len() && chars[i].is_whitespace()
        invariant
            from <= i <= chars@.len(),
            skip_whitespace(chars@, i as int) == skip_whitespace(chars@, from as int),
        decreases chars@.len() - i,
    {
        i += 1;
    }
    i
}

/// A text without its trailing whitespace is a beginning of the text.
pub proof fn lemma_trim_end_prefix(s: Seq<char>)
    ensures
        trim_end(s).len() <= s.len(),
        trim_end(s) == s.subrange(0, trim_end(s).len() as int),
    decreases s.len(),
{
    if s.len() > 0 && white_space(s.last()) {
        lemma_trim_end_prefix(s.drop_last());
        assert(s.drop_last().subrange(0, trim_end(s).len() as int) == s.subrange(
            0,
            trim_end(s).len() as int,
        ));
    } else {
        assert(s.subrange(0, s.len() as int) == s);
    }
}

/// The end of `chars[from..to]` once its trailing whitespace is dropped.
pub fn trim_end_index(chars: &Vec<char>, from: usize, to: usize) -> (end: usize)
    requires
        from <= to <= chars@.len(),
    ensures
        from <= end <= to,
        chars@.subrange(from as int, end as int) == trim_end(
            chars@.subrange(from as int, to as int),
        ),
{
    let mut end: usize = to;
    while end > from && chars[end - 1].is_whitespace()
        invariant
            from <= end <= to <= chars@.len(),
            trim_end(chars@.subrange(from as int, end as int)) == trim_end(
                chars@.subrange(from as int, to as int),
            ),
        decreases end,
    {
        assert(chars@.subrange(from as int, end as int).drop_last() == chars@.subrange(
            from as int,
            end - 1,
        ));
        end -= 1;
    }
    end
}

/// The characters of `chars[from..to]` without leading and trailing whitespace.
pub fn trimmed(chars: &Vec<char>, from: usize, to: usize) -> (out: Vec<char>)
    requires
        from <= to <= chars@.len(),
    ensures
        out@ == trim(chars@.subrange(from as int, to as int)),
{
    let ghost part = chars@.subrange(from as int, to as int);
    let mut start: usize = from;
    while start < to && chars[start].is_whitespace()
        invariant
            from <= start <= to <= chars@.len(),
            part == chars@.subrange(from as int, to as int),
            skip_whitespace(part, start - from) == skip_whitespace(part, 0),
        decreases to - start,
    {
        start += 1;
    }
    assert(trim_start(part) == chars@.subrange(start as int, to as int));
    let end = trim_end_index(chars, start, to);
    let out = slice_of(chars, start, end);
    out
}

/// A copy of `chars[from..to]`.
pub fn slice_of(chars: &Vec<char>, from: usize, to: usize) -> (out: Vec<char>)
    requires
        from <= to <= chars@.len(),
    ensures
        out@ == chars@.subrange(from as int, to as int),
{
    let mut out: Vec<char> = Vec::new();
    let mut i: usize = from;
    while i < to
        invariant
            from <= i <= to <= chars@.len(),
            out@ == chars@.subrange(from as int, i as int),
        decreases to - i,
    {
        out.push(chars[i]);
        i += 1;
        assert(chars@.subrange(from as int, i as int) == chars@.subrange(from as int, i - 1).push(
            chars@[i - 1],
        ));
    }
    out
}

/// Whether `needle` occurs in `hay` at index `at`.
pub open spec fn matches_at(hay: Seq<char>, at: int, needle: Seq<char>) -> bool {
    0 <= at && at + needle.len() <= hay.len() && hay.subrange(at, at + needle.len()) == needle
}

/// The index of the first occurrence of `needle` in `hay` at or after `from`.
pub open spec fn find_from(hay: Seq<char>, needle: Seq<char>, from: int) -> Option<int>
    decreases hay.len() - from + 1,
{
    if from < 0 || from + needle.len() > hay.len() {
        None
    } else if matches_at(hay, from, needle) {
        Some(from)
    } else {
        find_from(hay, needle, from + 1)
    }
}

/// What `find_from` returns is an occurrence, and no occurrence lies before it.
pub proof fn lemma_find_from_first(hay: Seq<char>, needle: Seq<char>, from: int)
    requires
        0 <= from,
    ensures
        match find_from(hay, needle, from) {
            Some(at) => from <= at && matches_at(hay, at, needle) && forall|j: int|
                from <= j < at ==> !matches_at(hay, j, needle),
            None => forall|j: int| from <= j ==> !matches_at(hay, j, needle),
        },
    decreases hay.len() - from + 1,
{
    if from + needle.len() > hay.len() {
    } else if matches_at(hay, from, needle) {
    } else {
        lemma_find_from_first(hay, needle, from + 1);
    }
}

/// Whether `needle` occurs in `chars` at index `at`.
pub fn starts_with_at(chars: &Vec<char>, at: usize, needle: &Vec<char>) -> (b: bool)
    ensures
        b == matches_at(chars@, at as int, needle@),
{
    if needle.len() > chars.len() || at > chars.len() - needle.len() {
        return false;
    }
    let mut k: usize = 0;
    while k < needle.len()
        invariant
            k <= needle@.len(),
            at + needle@.len() <= chars@.len() <= usize::MAX,
            chars@.subrange(at as int, at + k) == needle@.subrange(0, k as int),
        decreases needle@.len() - k,
    {
        if chars[at + k] != needle[k] {
            assert(chars@.subrange(at as int, at + needle@.len())[k as int] != needle@[k as int]);
            return false;
        }
        k += 1;
        assert(chars@.subrange(at as int, at + k) == chars@.subrange(at as int, at + k - 1).push(
            chars@[at + k - 1],
        ));
        assert(needle@.subrange(0, k as int) == needle@.subrange(0, k - 1).push(needle@[k - 1]));
    }
    assert(needle@.subrange(0, k as int) == needle@);
    true
}

/// The index of the first occurrence of `needle` in `chars` at or after `from`.
pub fn find_at(chars: &Vec<char>, needle: &Vec<char>, from: usize) -> (found: Option<usize>)
    ensures
        match found {
            Some(at) => find_from(chars@, needle@, from as int) == Some(at as int) && from <= at
                && at + needle@.len() <= chars@.len(),
            None => find_from(chars@, needle@, from as int).is_none(),
        },
{
    let mut i: usize = from;
    while i <= chars.len() && needle.len() <= chars.len() - i
        invariant
            from <= i,
            find_from(chars@, needle@, i as int) == find_from(chars@, needle@, from as int),
        decreases chars@.len() + 1 - i,
    {
        if starts_with_at(chars, i, needle) {
            return Some(i);
        }
        assert(needle@.len() > 0) by {
            if needle@.len() == 0 {
                assert(chars@.subrange(i as int, i as int) == needle@);
            }
        }
        i += 1;
    }
    None
}

/// The index of the first `c` in `chars` at or after `from`.
pub fn find_char_at(chars: &Vec<char>, c: char, from: usize) -> (found: Option<usize>)
    ensures
        match found {
            Some(at) => find_from(chars@, seq![c], from as int) == Some(at as int) && from <= at
                < chars@.len() && chars@[at as int] == c,
            None => find_from(chars@, seq![c], from as int).is_none(),
        },
{
    let mut i: usize = from;
    while i < chars.len()
        invariant
            from <= i,
            find_from(chars@, seq![c], i as int) == find_from(chars@, seq![c], from as int),
        decreases chars@.len() - i,
    {
        if chars[i] == c {
            assert(chars@.subrange(i as int, i + 1) == seq![c]);
            return Some(i);
        }
        assert(chars@.subrange(i as int, i + 1)[0] != seq![c][0]);
        i += 1;
    }
    None
}

/// `s` without its trailing whitespace.
pub fn trim_end_string(s: &str) -> (out: String)
    ensures
        out@ == trim_end(s@),
{
    let chars = chars_of(s);
    let end = trim_end_index(&chars, 0, chars.len());
    assert(chars@.subrange(0, chars@.len() as int) == chars@);
    string_of(&chars, 0, end)
}

/// `s` without leading and trailing whitespace.
pub fn trim_string(s: &str) -> (out: String)
    ensures
        out@ == trim(s@),
{
    let chars = chars_of(s);
    let inner = trimmed(&chars, 0, chars.len());
    assert(chars@.subrange(0, chars@.len() as int) == chars@);
    string_from(&inner)
}

/// Whether the last character of `s` is `c`.
pub fn ends_with_char(s: &str, c: char) -> (b: bool)
    ensures
        b == (s@.len() > 0 && s@.last() == c),
{
    let chars = chars_of(s);
    chars.len() > 0 && chars[chars.len() - 1] == c
}

/// The number of bytes that `s` takes in UTF-8.
pub open spec fn utf8_len(s: Seq<char>) -> nat {
    encode_utf8(s).len()
}

/// The UTF-8 encoding of two texts, one after the other, is the encoding of
/// the first followed by that of the second.
pub proof fn lemma_utf8_concat(a: Seq<char>, b: Seq<char>)
    ensures
        encode_utf8(a + b) == encode_utf8(a) + encode_utf8(b),
    decreases a.len(),
{
    if a.len() == 0 {
        assert(a + b == b);
    } else {
        assert((a + b).drop_first() == a.drop_first() + b);
        lemma_utf8_concat(a.drop_first(), b);
    }
}

/// The number of bytes that `c` takes in UTF-8.
pub fn char_width(c: char) -> (width: usize)
    ensures
        width == encode_scalar(c as u32).len(),
        1 <= width <= 4,
{
    let v = c as u32;
    if v < 0x80 {
        1
    } else if v < 0x800 {
        2
    } else if v < 0x10000 {
        3
    } else {
        4
    }
}

/// For each index into the characters of `text`, the byte offset at which
/// that character begins in UTF-8; the last entry is the length in bytes.
pub fn byte_offsets(text: &str) -> (offsets: Vec<usize>)
    ensures
        offsets@.len() == text@.len() + 1,
        forall|i: int|
            0 <= i <= text@.len() ==> #[trigger] offsets@[i] == utf8_len(text@.subrange(0, i)),
{
    let total = text.as_bytes().len();
    let chars = chars_of(text);
    let mut offsets: Vec<usize> = Vec::new();
    let mut offset: usize = 0;
    offsets.push(0);
    assert(text@.subrange(0, 0) == Seq::<char>::empty());
    let mut i: usize = 0;
    while i < chars.len()
        invariant
            i <= chars@.len(),
            chars@ == text@,
            total == utf8_len(text@),
            offsets@.len() == i + 1,
            offset == utf8_len(text@.subrange(0, i as int)),
            forall|j: int| 0 <= j <= i ==> #[trigger] offsets@[j] == utf8_len(text@.subrange(0, j)),
        decreases chars@.len() - i,
    {
        let width = char_width(chars[i]);
        proof {
            let before = text@.subrange(0, i as int);
            let one = seq![text@[i as int]];
            let after = text@.subrange(i + 1, text@.len() as int);
            assert(before + one == text@.subrange(0, i + 1));
            assert(text@.subrange(0, i + 1) + after == text@);
            lemma_utf8_concat(before, one);
            lemma_utf8_concat(text@.subrange(0, i + 1), after);
            assert(one.drop_first() == Seq::<char>::empty());
            assert(encode_utf8(one) == encode_scalar(text@[i as int] as u32) + encode_utf8(
                one.drop_first(),
            ));
        }
        offset = offset + width;
        offsets.push(offset);
        i += 1;
    }
    offsets
}

} // verus!
