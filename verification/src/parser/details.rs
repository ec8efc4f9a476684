//! Collapsible regions: the text between `<details>` tags is set aside
//! before a fragment is tokenized, and a placeholder paragraph stands in for it.

use super::text::{
    chars_of, find_at, find_char_at, find_from, lemma_find_from_first,
    lemma_skip_whitespace_bounds, lemma_trim_end_prefix, matches_at, slice_of, starts_with_at,
    string_from, trim, trim_start, trimmed,
};
use vstd::prelude::*;

verus! {

/// The characters `<details`.
pub open spec fn details_open() -> Seq<char> {
    seq!['<', 'd', 'e', 't', 'a', 'i', 'l', 's']
}

/// The characters `</details>`.
pub open spec fn details_close() -> Seq<char> {
    seq!['<', '/', 'd', 'e', 't', 'a', 'i', 'l', 's', '>']
}

/// The characters `<summary`.
pub open spec fn summary_open() -> Seq<char> {
    seq!['<', 's', 'u', 'm', 'm', 'a', 'r', 'y']
}

/// The characters `</summary>`.
pub open spec fn summary_close() -> Seq<char> {
    seq!['<', '/', 's', 'u', 'm', 'm', 'a', 'r', 'y', '>']
}

/// The characters `[DETAILS_BLOCK_`.
pub open spec fn placeholder_open() -> Seq<char> {
    seq!['[', 'D', 'E', 'T', 'A', 'I', 'L', 'S', '_', 'B', 'L', 'O', 'C', 'K', '_']
}

/// The decimal digit for `d`.
pub open spec fn digit_char(d: nat) -> char {
    if d == 0 {
        '0'
    } else if d == 1 {
        '1'
    } else if d == 2 {
        '2'
    } else if d == 3 {
        '3'
    } else if d == 4 {
        '4'
    } else if d == 5 {
        '5'
    } else if d == 6 {
        '6'
    } else if d == 7 {
        '7'
    } else if d == 8 {
        '8'
    } else {
        '9'
    }
}

/// The value of a decimal digit, if `c` is one.
pub open spec fn digit_value(c: char) -> Option<nat> {
    if c == '0' {
        Some(0)
    } else if c == '1' {
        Some(1)
    } else if c == '2' {
        Some(2)
    } else if c == '3' {
        Some(3)
    } else if c == '4' {
        Some(4)
    } else if c == '5' {
        Some(5)
    } else if c == '6' {
        Some(6)
    } else if c == '7' {
        Some(7)
    } else if c == '8' {
        Some(8)
    } else if c == '9' {
        Some(9)
    } else {
        None
    }
}

/// `n` written in decimal.
pub open spec fn decimal(n: nat) -> Seq<char>
    decreases n,
{
    if n < 10 {
        seq![digit_char(n)]
    } else {
        decimal(n / 10).push(digit_char(n % 10))
    }
}

/// The number that a run of decimal digits stands for, if `s` is such a run.
pub open spec fn digits_value(s: Seq<char>) -> Option<nat>
    decreases s.len(),
{
    if s.len() == 0 {
        None
    } else if s.len() == 1 {
        digit_value(s[0])
    } else {
        match (digits_value(s.drop_last()), digit_value(s.last())) {
            (Some(n), Some(d)) => Some(n * 10 + d),
            _ => None,
        }
    }
}

/// The index that `s` states: `s` is that index as `decimal` writes it, and
/// the index fits in `usize`. A sign or a zero before the number states nothing.
pub open spec fn stated_index(s: Seq<char>) -> Option<nat> {
    match digits_value(s) {
        Some(n) => if decimal(n) == s && n <= usize::MAX {
            Some(n)
        } else {
            None
        },
        None => None,
    }
}

/// The paragraph that stands in for the collapsible region number `index`.
pub open spec fn placeholder(index: nat) -> Seq<char> {
    seq!['\n'] + placeholder_open() + decimal(index) + seq![']', '\n']
}

/// The index of the collapsible region that a paragraph stands in for, if its
/// text, trimmed, is exactly the text of a placeholder: `[DETAILS_BLOCK_`,
/// the index in decimal, and `]`.
pub open spec fn placeholder_index(content: Seq<char>) -> Option<nat> {
    let t = trim(content);
    if matches_at(t, 0, placeholder_open()) && t.last() == ']' {
        let rest = t.subrange(placeholder_open().len() as int, t.len() as int);
        if rest.len() > 0 {
            stated_index(rest.drop_last())
        } else {
            None
        }
    } else {
        None
    }
}

/// A collapsible region of a fragment.
pub struct DetailsRegion {
    /// The text of its summary, trimmed; empty where it has none.
    pub summary: Seq<char>,
    /// The text after its summary, trimmed.
    pub content: Seq<char>,
    /// The index just behind its closing tag.
    pub end: int,
}

/// The summary of a collapsible region whose text between the tags is `inner`.
pub open spec fn summary_of(inner: Seq<char>) -> Seq<char> {
    match find_from(inner, summary_open(), 0) {
        None => Seq::empty(),
        Some(start) => match find_from(inner, seq!['>'], start) {
            None => Seq::empty(),
            Some(tag_end) => match find_from(inner, summary_close(), tag_end + 1) {
                None => Seq::empty(),
                Some(end) => trim(inner.subrange(tag_end + 1, end)),
            },
        },
    }
}

/// The body of a collapsible region whose text between the tags is `inner`.
pub open spec fn body_of(inner: Seq<char>) -> Seq<char> {
    match find_from(inner, summary_close(), 0) {
        Some(end) => trim(inner.subrange(end + summary_close().len(), inner.len() as int)),
        None => trim(inner),
    }
}

/// The collapsible region that begins at `pos`, if one does: an opening tag
/// at `pos`, the end of that tag, and the first closing tag behind it.
pub open spec fn details_at(text: Seq<char>, pos: int) -> Option<DetailsRegion> {
    if !matches_at(text, pos, details_open()) {
        None
    } else {
        match find_from(text, seq!['>'], pos) {
            None => None,
            Some(tag_end) => match find_from(text, details_close(), tag_end + 1) {
                None => None,
                Some(close) => Some(
                    DetailsRegion {
                        summary: summary_of(text.subrange(tag_end + 1, close)),
                        content: body_of(text.subrange(tag_end + 1, close)),
                        end: close + details_close().len(),
                    },
                ),
            },
        }
    }
}

/// The collapsible regions of `text` from `pos` on, in order; a region that
/// lies inside another is not found.
pub open spec fn details_regions(text: Seq<char>, pos: int) -> Seq<DetailsRegion>
    decreases text.len() - pos,
    via details_regions_decreases
{
    if pos < 0 || pos >= text.len() {
        Seq::empty()
    } else {
        match details_at(text, pos) {
            Some(region) => seq![region] + details_regions(text, region.end),
            None => details_regions(text, pos + 1),
        }
    }
}

/// The search goes on behind the region that was found.
#[via_fn]
proof fn details_regions_decreases(text: Seq<char>, pos: int) {
    if 0 <= pos < text.len() {
        lemma_details_at_advances(text, pos);
    }
}

/// The body of every collapsible region of a text is shorter than the text.
pub proof fn lemma_details_regions_shorter(text: Seq<char>, pos: int)
    requires
        0 <= pos,
    ensures
        forall|i: int|
            0 <= i < details_regions(text, pos).len() ==> (#[trigger] details_regions(
                text,
                pos,
            )[i]).content.len() < text.len(),
    decreases text.len() - pos,
{
    if pos < text.len() {
        lemma_details_at_advances(text, pos);
        let all = details_regions(text, pos);
        match details_at(text, pos) {
            Some(region) => {
                let rest = details_regions(text, region.end);
                lemma_details_regions_shorter(text, region.end);
                assert(all == seq![region] + rest);
                assert forall|i: int| 0 <= i < all.len() implies (#[trigger] all[i]).content.len()
                    < text.len() by {
                    if i > 0 {
                        assert(all[i] == rest[i - 1]);
                    }
                }
            },
            None => {
                lemma_details_regions_shorter(text, pos + 1);
                assert(all == details_regions(text, pos + 1));
            },
        }
    } else {
        assert(details_regions(text, pos).len() == 0);
    }
}

/// `text` from `pos` on with every collapsible region replaced by its
/// placeholder; the first region found gets the number `index`.
pub open spec fn without_details(text: Seq<char>, pos: int, index: nat) -> Seq<char>
    decreases text.len() - pos,
    via without_details_decreases
{
    if pos < 0 || pos >= text.len() {
        Seq::empty()
    } else {
        match details_at(text, pos) {
            Some(region) => placeholder(index) + without_details(text, region.end, index + 1),
            None => seq![text[pos]] + without_details(text, pos + 1, index),
        }
    }
}

/// The search goes on behind the region that was replaced.
#[via_fn]
proof fn without_details_decreases(text: Seq<char>, pos: int, index: nat) {
    if 0 <= pos < text.len() {
        lemma_details_at_advances(text, pos);
    }
}

/// A collapsible region ends behind the place where it begins, inside the
/// text, and its body is shorter than the text.
pub proof fn lemma_details_at_advances(text: Seq<char>, pos: int)
    requires
        0 <= pos,
    ensures
        match details_at(text, pos) {
            Some(region) => pos < region.end <= text.len() && region.content.len() < text.len()
                && region.summary.len() < text.len(),
            None => true,
        },
{
    if matches_at(text, pos, details_open()) {
        lemma_find_from_first(text, seq!['>'], pos);
        match find_from(text, seq!['>'], pos) {
            None => {},
            Some(tag_end) => {
                lemma_find_from_first(text, details_close(), tag_end + 1);
                match find_from(text, details_close(), tag_end + 1) {
                    None => {},
                    Some(close) => {
                        let inner = text.subrange(tag_end + 1, close);
                        lemma_body_of_len(inner);
                        lemma_summary_of_len(inner);
                    },
                }
            },
        }
    }
}

/// What `trim` returns is no longer than its argument.
pub proof fn lemma_trim_len(s: Seq<char>)
    ensures
        trim(s).len() <= s.len(),
{
    lemma_skip_whitespace_bounds(s, 0);
    lemma_trim_end_prefix(trim_start(s));
}

/// The body of a collapsible region is no longer than the text between its tags.
pub proof fn lemma_body_of_len(inner: Seq<char>)
    ensures
        body_of(inner).len() <= inner.len(),
{
    lemma_find_from_first(inner, summary_close(), 0);
    match find_from(inner, summary_close(), 0) {
        Some(end) => {
            lemma_trim_len(inner.subrange(end + summary_close().len(), inner.len() as int));
        },
        None => {
            lemma_trim_len(inner);
        },
    }
}

/// The summary of a collapsible region is no longer than the text between its tags.
pub proof fn lemma_summary_of_len(inner: Seq<char>)
    ensures
        summary_of(inner).len() <= inner.len(),
{
    lemma_find_from_first(inner, summary_open(), 0);
    match find_from(inner, summary_open(), 0) {
        None => {},
        Some(start) => {
            lemma_find_from_first(inner, seq!['>'], start);
            match find_from(inner, seq!['>'], start) {
                None => {},
                Some(tag_end) => {
                    lemma_find_from_first(inner, summary_close(), tag_end + 1);
                    match find_from(inner, summary_close(), tag_end + 1) {
                        None => {},
                        Some(end) => {
                            lemma_trim_len(inner.subrange(tag_end + 1, end));
                        },
                    }
                },
            }
        },
    }
}

/// The characters `<details`.
pub fn details_open_chars() -> (chars: Vec<char>)
    ensures
        chars@ == details_open(),
{
    let chars = vec!['<', 'd', 'e', 't', 'a', 'i', 'l', 's'];
    assert(chars@ =~= details_open());
    chars
}

/// The characters `</details>`.
pub fn details_close_chars() -> (chars: Vec<char>)
    ensures
        chars@ == details_close(),
{
    let chars = vec!['<', '/', 'd', 'e', 't', 'a', 'i', 'l', 's', '>'];
    assert(chars@ =~= details_close());
    chars
}

/// The characters `<summary`.
pub fn summary_open_chars() -> (chars: Vec<char>)
    ensures
        chars@ == summary_open(),
{
    let chars = vec!['<', 's', 'u', 'm', 'm', 'a', 'r', 'y'];
    assert(chars@ =~= summary_open());
    chars
}

/// The characters `</summary>`.
pub fn summary_close_chars() -> (chars: Vec<char>)
    ensures
        chars@ == summary_close(),
{
    let chars = vec!['<', '/', 's', 'u', 'm', 'm', 'a', 'r', 'y', '>'];
    assert(chars@ =~= summary_close());
    chars
}

/// The characters `[DETAILS_BLOCK_`.
pub fn placeholder_open_chars() -> (chars: Vec<char>)
    ensures
        chars@ == placeholder_open(),
{
    let chars = vec!['[', 'D', 'E', 'T', 'A', 'I', 'L', 'S', '_', 'B', 'L', 'O', 'C', 'K', '_'];
    assert(chars@ =~= placeholder_open());
    chars
}

/// The decimal digit for `d`.
pub fn digit_of(d: usize) -> (c: char)
    requires
        d < 10,
    ensures
        c == digit_char(d as nat),
{
    if d == 0 {
        '0'
    } else if d == 1 {
        '1'
    } else if d == 2 {
        '2'
    } else if d == 3 {
        '3'
    } else if d == 4 {
        '4'
    } else if d == 5 {
        '5'
    } else if d == 6 {
        '6'
    } else if d == 7 {
        '7'
    } else if d == 8 {
        '8'
    } else {
        '9'
    }
}

/// The value of a decimal digit, if `c` is one.
pub fn value_of_digit(c: char) -> (d: Option<usize>)
    ensures
        match d {
            Some(d) => d < 10 && digit_value(c) == Some(d as nat),
            None => digit_value(c).is_none(),
        },
{
    if c == '0' {
        Some(0)
    } else if c == '1' {
        Some(1)
    } else if c == '2' {
        Some(2)
    } else if c == '3' {
        Some(3)
    } else if c == '4' {
        Some(4)
    } else if c == '5' {
        Some(5)
    } else if c == '6' {
        Some(6)
    } else if c == '7' {
        Some(7)
    } else if c == '8' {
        Some(8)
    } else if c == '9' {
        Some(9)
    } else {
        None
    }
}

/// Appends `n`, written in decimal, to `buffer`.
pub fn push_decimal(buffer: &mut String, n: usize)
    ensures
        final(buffer)@ == old(buffer)@ + decimal(n as nat),
    decreases n,
{
    if n < 10 {
        buffer.push(digit_of(n));
        assert(buffer@ =~= old(buffer)@ + decimal(n as nat));
    } else {
        push_decimal(buffer, n / 10);
        buffer.push(digit_of(n % 10));
        assert(buffer@ =~= old(buffer)@ + decimal(n as nat));
    }
}

/// Appends the placeholder for the collapsible region number `index` to `buffer`.
pub fn push_placeholder(buffer: &mut String, index: usize)
    ensures
        final(buffer)@ == old(buffer)@ + placeholder(index as nat),
{
    buffer.push('\n');
    let open = placeholder_open_chars();
    let mut k: usize = 0;
    while k < open.len()
        invariant
            k <= open@.len(),
            open@ == placeholder_open(),
            buffer@ == old(buffer)@ + seq!['\n'] + placeholder_open().subrange(0, k as int),
        decreases open@.len() - k,
    {
        buffer.push(open[k]);
        k += 1;
        assert(buffer@ =~= old(buffer)@ + seq!['\n'] + placeholder_open().subrange(0, k as int));
    }
    assert(placeholder_open().subrange(0, k as int) =~= placeholder_open());
    push_decimal(buffer, index);
    buffer.push(']');
    buffer.push('\n');
    assert(buffer@ =~= old(buffer)@ + placeholder(index as nat));
}

/// A run of digits that stands for a number has only digits in it, and each
/// of its beginnings stands for a number that is no greater.
pub proof fn lemma_digits_prefix(s: Seq<char>, k: int)
    requires
        1 <= k <= s.len(),
        digits_value(s) is Some,
    ensures
        digits_value(s.subrange(0, k)) is Some,
        digits_value(s.subrange(0, k))->0 <= digits_value(s)->0,
    decreases s.len(),
{
    if k == s.len() {
        assert(s.subrange(0, k) == s);
    } else {
        assert(s.drop_last().subrange(0, k) == s.subrange(0, k));
        lemma_digits_prefix(s.drop_last(), k);
    }
}

/// A number in decimal begins with a zero only if it is one digit long, and
/// stands for that number.
pub proof fn lemma_decimal_read_back(n: nat)
    ensures
        decimal(n).len() >= 1,
        decimal(n).len() == 1 || decimal(n)[0] != '0',
        digits_value(decimal(n)) == Some(n),
        n <= usize::MAX ==> stated_index(decimal(n)) == Some(n),
    decreases n,
{
    if n >= 10 {
        lemma_decimal_read_back(n / 10);
        let head = decimal(n / 10);
        let whole = head.push(digit_char(n % 10));
        assert(whole.drop_last() == head);
        assert(whole[0] == head[0]);
        assert(digit_value(digit_char(n % 10)) == Some(n % 10));
    }
}

/// A run of digits that does not begin with a zero, or is one digit long, is
/// its number as `decimal` writes it.
pub proof fn lemma_digits_written(s: Seq<char>)
    requires
        digits_value(s) is Some,
        s.len() == 1 || s[0] != '0',
    ensures
        decimal(digits_value(s)->0) == s,
        s[0] != '0' ==> digits_value(s)->0 >= 1,
    decreases s.len(),
{
    if s.len() == 1 {
        assert(decimal(digits_value(s)->0) == s);
    } else {
        let head = s.drop_last();
        assert(head[0] == s[0]);
        lemma_digits_written(head);
        let n = digits_value(head)->0;
        let d = digit_value(s.last())->0;
        assert(digit_char(d) == s.last());
        assert((n * 10 + d) / 10 == n && (n * 10 + d) % 10 == d);
        assert(head.push(s.last()) == s);
    }
}

/// The index that `chars[from..to]` states, if it fits in `usize`.
pub fn parse_index(chars: &Vec<char>, from: usize, to: usize) -> (index: Option<usize>)
    requires
        from <= to <= chars@.len(),
    ensures
        match index {
            Some(n) => stated_index(chars@.subrange(from as int, to as int)) == Some(n as nat),
            None => stated_index(chars@.subrange(from as int, to as int)).is_none(),
        },
{
    let ghost digits = chars@.subrange(from as int, to as int);
    if from == to {
        return None;
    }
    if to - from > 1 && chars[from] == '0' {
        proof {
            if digits_value(digits) is Some {
                lemma_decimal_read_back(digits_value(digits)->0);
            }
        }
        return None;
    }
    let mut value: usize = 0;
    let mut i: usize = from;
    while i < to
        invariant
            from <= i <= to <= chars@.len(),
            from < to,
            digits == chars@.subrange(from as int, to as int),
            i > from ==> digits_value(digits.subrange(0, i - from)) == Some(value as nat),
            i == from ==> value == 0,
        decreases to - i,
    {
        let ghost before = digits.subrange(0, i - from);
        let ghost after = digits.subrange(0, i + 1 - from);
        assert(after.drop_last() == before);
        assert(after.last() == chars@[i as int]);
        match value_of_digit(chars[i]) {
            None => {
                proof {
                    assert(digits_value(after).is_none());
                    if digits_value(digits) is Some {
                        lemma_digits_prefix(digits, i + 1 - from);
                    }
                }
                return None;
            },
            Some(d) => {
                assert(digits_value(after) == Some((value * 10 + d) as nat));
                if value > (usize::MAX - d) / 10 {
                    proof {
                        if digits_value(digits) is Some {
                            lemma_digits_prefix(digits, i + 1 - from);
                        }
                    }
                    return None;
                }
                value = value * 10 + d;
            },
        }
        i += 1;
    }
    assert(digits.subrange(0, to - from) == digits);
    proof {
        assert(digits[0] == chars@[from as int]);
        lemma_digits_written(digits);
    }
    Some(value)
}

/// The index of the collapsible region that a paragraph with the text
/// `content` stands in for, if it is a placeholder.
pub fn placeholder_index_of(content: &str) -> (index: Option<usize>)
    ensures
        match index {
            Some(n) => placeholder_index(content@) == Some(n as nat),
            None => placeholder_index(content@).is_none(),
        },
{
    let chars = chars_of(content);
    let t = trimmed(&chars, 0, chars.len());
    assert(chars@.subrange(0, chars@.len() as int) == chars@);
    let open = placeholder_open_chars();
    if starts_with_at(&t, 0, &open) && t[t.len() - 1] == ']' {
        if t.len() > open.len() {
            assert(t@.subrange(open@.len() as int, t@.len() as int).drop_last() == t@.subrange(
                open@.len() as int,
                t@.len() - 1,
            ));
            parse_index(&t, open.len(), t.len() - 1)
        } else {
            None
        }
    } else {
        None
    }
}

/// The summary of a collapsible region whose text between the tags is `inner`.
pub fn summary_in(inner: &Vec<char>) -> (summary: String)
    ensures
        summary@ == summary_of(inner@),
{
    let length = inner.len();
    match find_at(inner, &summary_open_chars(), 0) {
        None => String::new(),
        Some(start) => match find_char_at(inner, '>', start) {
            None => String::new(),
            Some(tag_end) => {
                assert(tag_end < length);
                match find_at(inner, &summary_close_chars(), tag_end + 1) {
                    None => String::new(),
                    Some(end) => string_from(&trimmed(inner, tag_end + 1, end)),
                }
            },
        },
    }
}

/// The body of a collapsible region whose text between the tags is `inner`.
pub fn body_in(inner: &Vec<char>) -> (body: String)
    ensures
        body@ == body_of(inner@),
{
    let close = summary_close_chars();
    let length = inner.len();
    match find_at(inner, &close, 0) {
        Some(end) => {
            assert(end + close@.len() <= length);
            string_from(&trimmed(inner, end + close.len(), length))
        },
        None => {
            assert(inner@.subrange(0, inner@.len() as int) == inner@);
            string_from(&trimmed(inner, 0, inner.len()))
        },
    }
}

/// The collapsible region that begins at `pos`, if one does: its summary, its
/// body, and the index just behind its closing tag.
pub fn region_at(chars: &Vec<char>, pos: usize) -> (found: Option<(String, String, usize)>)
    requires
        pos < chars@.len(),
    ensures
        match found {
            Some((summary, content, end)) => details_at(chars@, pos as int) == Some(
                DetailsRegion { summary: summary@, content: content@, end: end as int },
            ) && pos < end <= chars@.len() && content@.len() < chars@.len(),
            None => details_at(chars@, pos as int).is_none(),
        },
{
    let open = details_open_chars();
    let close = details_close_chars();
    let length = chars.len();
    if !starts_with_at(chars, pos, &open) {
        return None;
    }
    match find_char_at(chars, '>', pos) {
        None => None,
        Some(tag_end) => match find_at(chars, &close, tag_end + 1) {
            None => None,
            Some(close_at) => {
                assert(close_at + close@.len() <= length);
                let inner = slice_of(chars, tag_end + 1, close_at);
                let summary = summary_in(&inner);
                let content = body_in(&inner);
                proof {
                    lemma_details_at_advances(chars@, pos as int);
                }
                Some((summary, content, close_at + close.len()))
            },
        },
    }
}

} // verus!
