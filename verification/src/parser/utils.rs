//! Utility functions for markdown parsing.

use super::text::{
    chars_of, matches_at, skip_whitespace, skip_whitespace_from, starts_with_at, string_from,
    trim_start, white_space,
};
use vstd::prelude::*;

verus! {

/// The index behind the run of `#` that begins at `from`.
pub open spec fn hash_run(s: Seq<char>, from: int) -> int
    decreases s.len() - from,
{
    if 0 <= from < s.len() && s[from] == '#' {
        hash_run(s, from + 1)
    } else {
        from
    }
}

/// The level that the marker of a line states: the line, without its leading
/// whitespace, begins with a run of `#` that is followed by whitespace, and
/// the level is the length of the run.
pub open spec fn marker_level(line: Seq<char>) -> Option<usize> {
    let t = trim_start(line);
    let n = hash_run(t, 0);
    if 0 < n < t.len() && white_space(t[n]) {
        Some(n as usize)
    } else {
        None
    }
}

/// The level of the heading that a line holds: what its marker states, if
/// that is at most 6.
pub open spec fn heading_level(line: Seq<char>) -> Option<usize> {
    match marker_level(line) {
        Some(level) => if level <= 6 {
            Some(level)
        } else {
            None
        },
        None => None,
    }
}

/// `s` without the occurrences of `needle`, found from left to right, none
/// of which begins inside another.
pub open spec fn without_all(s: Seq<char>, needle: Seq<char>) -> Seq<char>
    decreases s.len(),
{
    if needle.len() == 0 || s.len() == 0 {
        s
    } else if matches_at(s, 0, needle) {
        without_all(s.subrange(needle.len() as int, s.len() as int), needle)
    } else {
        seq![s[0]] + without_all(s.drop_first(), needle)
    }
}

/// `text` without its inline markers: first `**`, then `*`, then the
/// backtick, then `~~`.
pub open spec fn stripped(text: Seq<char>) -> Seq<char> {
    without_all(
        without_all(without_all(without_all(text, seq!['*', '*']), seq!['*']), seq!['`']),
        seq!['~', '~'],
    )
}

/// The level that the marker of the line `chars` states.
pub fn marker_level_of(chars: &Vec<char>) -> (level: Option<usize>)
    ensures
        level == marker_level(chars@),
{
    let start = skip_whitespace_from(chars, 0);
    let ghost t = trim_start(chars@);
    let mut i: usize = start;
    while i < chars.len() && chars[i] == '#'
        invariant
            start <= i <= chars@.len(),
            start == skip_whitespace(chars@, 0),
            t == chars@.subrange(start as int, chars@.len() as int),
            hash_run(t, i - start) == hash_run(t, 0),
        decreases chars@.len() - i,
    {
        i += 1;
    }
    if i > start && i < chars.len() && chars[i].is_whitespace() {
        Some(i - start)
    } else {
        None
    }
}

/// The level of the heading in a line of markdown: `Some(level)` if the line
/// begins, after any whitespace, with one to six `#` followed by whitespace.
pub fn get_heading_level(line: &str) -> (level: Option<usize>)
    ensures
        level == heading_level(line@),
{
    let chars = chars_of(line);
    match marker_level_of(&chars) {
        Some(level) => if level <= 6 {
            Some(level)
        } else {
            None
        },
        None => None,
    }
}

/// `chars` without the occurrences of `needle`.
fn remove_all(chars: &Vec<char>, needle: &Vec<char>) -> (out: Vec<char>)
    requires
        needle@.len() > 0,
    ensures
        out@ == without_all(chars@, needle@),
{
    let mut out: Vec<char> = Vec::new();
    let mut i: usize = 0;
    let ghost s = chars@;
    assert(s.subrange(0, s.len() as int) == s);
    while i < chars.len()
        invariant
            i <= chars@.len(),
            s == chars@,
            needle@.len() > 0,
            out@ + without_all(s.subrange(i as int, s.len() as int), needle@) == without_all(
                s,
                needle@,
            ),
        decreases chars@.len() - i,
    {
        let ghost rest = s.subrange(i as int, s.len() as int);
        if starts_with_at(chars, i, needle) {
            assert(matches_at(rest, 0, needle@)) by {
                assert(rest.subrange(0, needle@.len() as int) == s.subrange(
                    i as int,
                    i + needle@.len(),
                ));
            }
            assert(rest.subrange(needle@.len() as int, rest.len() as int) == s.subrange(
                i + needle@.len(),
                s.len() as int,
            ));
            i += needle.len();
        } else {
            assert(!matches_at(rest, 0, needle@)) by {
                if needle@.len() <= rest.len() {
                    assert(rest.subrange(0, needle@.len() as int) == s.subrange(
                        i as int,
                        i + needle@.len(),
                    ));
                }
            }
            assert(rest.drop_first() == s.subrange(i + 1, s.len() as int));
            let ghost before = out@;
            out.push(chars[i]);
            assert(out@ + without_all(s.subrange(i + 1, s.len() as int), needle@) == before
                + without_all(rest, needle@));
            i += 1;
        }
    }
    assert(out@ + Seq::<char>::empty() == out@);
    out
}

/// Strips the inline markers for bold, italic, code and strikethrough from a
/// text, so that it can be held against text that the tokenizer has read.
pub fn strip_markdown_inline(text: &str) -> (out: String)
    ensures
        out@ == stripped(text@),
{
    let chars = chars_of(text);
    let two_stars = vec!['*', '*'];
    let star = vec!['*'];
    let tick = vec!['`'];
    let two_tildes = vec!['~', '~'];
    assert(two_stars@ =~= seq!['*', '*']);
    assert(star@ =~= seq!['*']);
    assert(tick@ =~= seq!['`']);
    assert(two_tildes@ =~= seq!['~', '~']);
    let a = remove_all(&chars, &two_stars);
    let b = remove_all(&a, &star);
    let c = remove_all(&b, &tick);
    let d = remove_all(&c, &two_tildes);
    string_from(&d)
}

} // verus!
