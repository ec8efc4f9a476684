//! Slugs: the identifiers, safe in a URL, that stand for heading texts.

use super::text::{alphanumeric, chars_of, lowercase, string_from, white_space};
use vstd::prelude::*;

verus! {

/// What one character of a lowercased text leaves in a slug: itself where it
/// is alphanumeric, a dash where it is whitespace or a dash, and else
/// nothing. The character with code 0 leaves nothing.
pub open spec fn slug_char(c: char) -> Option<char> {
    if alphanumeric(c) {
        if c == '\0' {
            None
        } else {
            Some(c)
        }
    } else if white_space(c) || c == '-' {
        Some('-')
    } else {
        None
    }
}

/// What the characters of `s` leave, in order.
pub open spec fn slug_chars(s: Seq<char>) -> Seq<char>
    decreases s.len(),
{
    if s.len() == 0 {
        Seq::empty()
    } else {
        match slug_char(s.last()) {
            Some(c) => slug_chars(s.drop_last()).push(c),
            None => slug_chars(s.drop_last()),
        }
    }
}

/// The words of `s`: its longest runs of characters other than the dash, in order.
pub open spec fn words(s: Seq<char>) -> Seq<Seq<char>>
    decreases s.len(),
{
    if s.len() == 0 {
        Seq::empty()
    } else if s.last() == '-' {
        words(s.drop_last())
    } else if s.len() >= 2 && s[s.len() - 2] != '-' {
        let before = words(s.drop_last());
        before.drop_last().push(before.last().push(s.last()))
    } else {
        words(s.drop_last()).push(seq![s.last()])
    }
}

/// The words `w`, with one dash between each two.
pub open spec fn joined(w: Seq<Seq<char>>) -> Seq<char>
    decreases w.len(),
{
    if w.len() == 0 {
        Seq::empty()
    } else if w.len() == 1 {
        w[0]
    } else {
        joined(w.drop_last()) + seq!['-'] + w.last()
    }
}

/// The slug of `text`: the text is lowercased, each character leaves what
/// `slug_char` says, and the words of the result are joined by single dashes.
pub open spec fn slug(text: Seq<char>) -> Seq<char> {
    joined(words(slug_chars(lowercase(text))))
}

/// A text that does not end in a dash has words, and its last word ends as the text does.
pub proof fn lemma_words_last(s: Seq<char>)
    requires
        s.len() > 0,
        s.last() != '-',
    ensures
        words(s).len() > 0,
        words(s).last().len() > 0,
        words(s).last().last() == s.last(),
    decreases s.len(),
{
    if s.len() >= 2 && s[s.len() - 2] != '-' {
        lemma_words_last(s.drop_last());
    }
}

/// No word of a text is empty, and no word holds a dash.
pub proof fn lemma_words_clean(s: Seq<char>)
    ensures
        clean(words(s)),
    decreases s.len(),
{
    if s.len() == 0 {
    } else if s.last() == '-' {
        lemma_words_clean(s.drop_last());
    } else if s.len() >= 2 && s[s.len() - 2] != '-' {
        lemma_words_clean(s.drop_last());
        lemma_words_last(s.drop_last());
        let before = words(s.drop_last());
        let after = before.drop_last().push(before.last().push(s.last()));
        assert forall|i: int| 0 <= i < after.len() implies word_ok(#[trigger] after[i]) by {
            if i < after.len() - 1 {
                assert(after[i] == before[i]);
            } else {
                assert(word_ok(before[i]));
            }
        }
    } else {
        lemma_words_clean(s.drop_last());
        let before = words(s.drop_last());
        let after = before.push(seq![s.last()]);
        assert forall|i: int| 0 <= i < after.len() implies word_ok(#[trigger] after[i]) by {
            if i < after.len() - 1 {
                assert(after[i] == before[i]);
            }
        }
    }
}

/// A word is not empty and holds no dash.
pub open spec fn word_ok(word: Seq<char>) -> bool {
    word.len() > 0 && forall|k: int| 0 <= k < word.len() ==> word[k] != '-'
}

/// Every word is not empty and holds no dash.
pub open spec fn clean(w: Seq<Seq<char>>) -> bool {
    forall|i: int| 0 <= i < w.len() ==> word_ok(#[trigger] w[i])
}

/// A text with a dash and a word behind it has the words of the text, and then the word.
pub proof fn lemma_words_append(a: Seq<char>, word: Seq<char>)
    requires
        word_ok(word),
    ensures
        words(a + seq!['-'] + word) == words(a).push(word),
    decreases word.len(),
{
    let whole = a + seq!['-'] + word;
    let shorter = word.drop_last();
    assert(whole.drop_last() == a + seq!['-'] + shorter);
    assert(whole.last() == word.last());
    assert(word[word.len() - 1] != '-');
    if shorter.len() == 0 {
        assert(a + seq!['-'] + shorter == a.push('-'));
        assert(a.push('-').drop_last() == a);
        assert(a.push('-').last() == '-');
        assert(words(a.push('-')) == words(a));
        assert(whole[whole.len() - 2] == '-');
        assert(seq![word.last()] == word);
        assert(words(whole) == words(whole.drop_last()).push(seq![whole.last()]));
    } else {
        assert(word_ok(shorter)) by {
            assert forall|k: int| 0 <= k < shorter.len() implies shorter[k] != '-' by {
                assert(shorter[k] == word[k]);
            }
        }
        lemma_words_append(a, shorter);
        assert(whole[whole.len() - 2] == shorter.last());
        assert(shorter.last() == word[word.len() - 2]);
        assert(word[word.len() - 2] != '-');
        let before = words(a).push(shorter);
        assert(words(whole.drop_last()) == before);
        assert(before.drop_last() == words(a));
        assert(before.last() == shorter);
        assert(shorter.push(word.last()) == word);
        assert(words(whole) == before.drop_last().push(before.last().push(whole.last())));
    }
}

/// A word on its own is the only word of itself.
pub proof fn lemma_words_single(word: Seq<char>)
    requires
        word_ok(word),
    ensures
        words(word) == seq![word],
    decreases word.len(),
{
    let shorter = word.drop_last();
    if shorter.len() == 0 {
        assert(seq![word.last()] == word);
        assert(words(shorter) == Seq::<Seq<char>>::empty());
        assert(Seq::<Seq<char>>::empty().push(word) == seq![word]);
    } else {
        assert(word_ok(shorter)) by {
            assert forall|k: int| 0 <= k < shorter.len() implies shorter[k] != '-' by {
                assert(shorter[k] == word[k]);
            }
        }
        lemma_words_single(shorter);
        assert(word[word.len() - 2] == shorter.last());
        assert(shorter.push(word.last()) == word);
        assert(seq![shorter].drop_last().push(word) == seq![word]);
    }
}

/// The words of joined words are those words, where no word is empty or holds a dash.
pub proof fn lemma_words_joined(w: Seq<Seq<char>>)
    requires
        clean(w),
    ensures
        words(joined(w)) == w,
    decreases w.len(),
{
    if w.len() == 0 {
    } else if w.len() == 1 {
        lemma_words_single(w[0]);
        assert(seq![w[0]] == w);
    } else {
        lemma_words_joined(w.drop_last());
        lemma_words_append(joined(w.drop_last()), w.last());
        assert(w.drop_last().push(w.last()) == w);
    }
}

/// What a character leaves in a slug leaves itself.
pub open spec fn stable(c: char) -> bool {
    slug_char(c) == Some(c)
}

/// Every character that is left in a slug leaves itself.
pub proof fn lemma_slug_chars_stable(s: Seq<char>)
    ensures
        forall|k: int| 0 <= k < slug_chars(s).len() ==> stable(#[trigger] slug_chars(s)[k]),
    decreases s.len(),
{
    if s.len() > 0 {
        lemma_slug_chars_stable(s.drop_last());
        let before = slug_chars(s.drop_last());
        match slug_char(s.last()) {
            Some(c) => {
                assert(stable(c));
                assert forall|k: int| 0 <= k < before.push(c).len() implies stable(
                    #[trigger] before.push(c)[k],
                ) by {
                    if k < before.len() {
                        assert(before.push(c)[k] == before[k]);
                    }
                }
            },
            None => {},
        }
    }
}

/// A text all of whose characters leave themselves is left as it is.
pub proof fn lemma_stable_text(s: Seq<char>)
    requires
        forall|k: int| 0 <= k < s.len() ==> stable(#[trigger] s[k]),
    ensures
        slug_chars(s) == s,
    decreases s.len(),
{
    if s.len() > 0 {
        lemma_stable_text(s.drop_last());
        assert(s.drop_last().push(s.last()) == s);
    }
}

/// Every character of a word of `s` is a character of `s`.
pub proof fn lemma_words_chars(s: Seq<char>, good: spec_fn(char) -> bool)
    requires
        forall|k: int| 0 <= k < s.len() ==> good(#[trigger] s[k]),
    ensures
        forall|i: int, k: int|
            0 <= i < words(s).len() && 0 <= k < words(s)[i].len() ==> good(
                #[trigger] words(s)[i][k],
            ),
    decreases s.len(),
{
    if s.len() == 0 {
    } else {
        let shorter = s.drop_last();
        assert forall|k: int| 0 <= k < shorter.len() implies good(#[trigger] shorter[k]) by {
            assert(shorter[k] == s[k]);
        }
        lemma_words_chars(shorter, good);
        if s.last() == '-' {
        } else if s.len() >= 2 && s[s.len() - 2] != '-' {
            lemma_words_last(shorter);
            let before = words(shorter);
            let after = before.drop_last().push(before.last().push(s.last()));
            assert forall|i: int, k: int|
                0 <= i < after.len() && 0 <= k < after[i].len() implies good(
                #[trigger] after[i][k],
            ) by {
                if i < after.len() - 1 {
                    assert(after[i] == before[i]);
                } else if k < before.last().len() {
                    assert(after[i][k] == before[i][k]);
                } else {
                    assert(after[i][k] == s.last());
                }
            }
        } else {
            let before = words(shorter);
            let after = before.push(seq![s.last()]);
            assert forall|i: int, k: int|
                0 <= i < after.len() && 0 <= k < after[i].len() implies good(
                #[trigger] after[i][k],
            ) by {
                if i < after.len() - 1 {
                    assert(after[i] == before[i]);
                } else {
                    assert(after[i][k] == s.last());
                }
            }
        }
    }
}

/// Every character of joined words is a dash or a character of a word.
pub proof fn lemma_joined_chars(w: Seq<Seq<char>>, good: spec_fn(char) -> bool)
    requires
        good('-'),
        forall|i: int, k: int| 0 <= i < w.len() && 0 <= k < w[i].len() ==> good(#[trigger] w[i][k]),
    ensures
        forall|k: int| 0 <= k < joined(w).len() ==> good(#[trigger] joined(w)[k]),
    decreases w.len(),
{
    if w.len() <= 1 {
    } else {
        let shorter = w.drop_last();
        assert forall|i: int, k: int|
            0 <= i < shorter.len() && 0 <= k < shorter[i].len() implies good(
            #[trigger] shorter[i][k],
        ) by {
            assert(shorter[i] == w[i]);
        }
        lemma_joined_chars(shorter, good);
        let head = joined(shorter);
        let whole = head + seq!['-'] + w.last();
        assert forall|k: int| 0 <= k < whole.len() implies good(#[trigger] whole[k]) by {
            if k < head.len() {
                assert(whole[k] == head[k]);
            } else if k == head.len() {
                assert(whole[k] == '-');
            } else {
                assert(whole[k] == w.last()[k - head.len() - 1]);
            }
        }
    }
}

/// The steps that follow the lowercasing leave a slug as it is: all of its
/// characters are kept, and its words are joined as they were.
pub proof fn lemma_slug_is_clean(text: Seq<char>)
    ensures
        joined(words(slug_chars(slug(text)))) == slug(text),
{
    let kept = slug_chars(lowercase(text));
    let w = words(kept);
    let good = |c: char| stable(c);
    lemma_slug_chars_stable(lowercase(text));
    assert forall|k: int| 0 <= k < kept.len() implies good(#[trigger] kept[k]) by {
        assert(stable(kept[k]));
    }
    lemma_words_chars(kept, good);
    assert(good('-'));
    lemma_joined_chars(w, good);
    assert forall|k: int| 0 <= k < joined(w).len() implies stable(#[trigger] joined(w)[k]) by {
        assert(good(joined(w)[k]));
    }
    lemma_stable_text(joined(w));
    lemma_words_clean(kept);
    lemma_words_joined(w);
}

/// The slug of a slug is that slug, where lowercasing leaves the slug as it is.
pub proof fn lemma_slug_of_lowercase_slug(text: Seq<char>)
    requires
        lowercase(slug(text)) == slug(text),
    ensures
        slug(slug(text)) == slug(text),
{
    lemma_slug_is_clean(text);
}

/// The slug of a text: lowercase, with alphanumeric characters kept,
/// whitespace and dashes turned into single dashes, and all else dropped.
pub fn slugify(text: &str) -> (out: String)
    ensures
        out@ == slug(text@),
{
    let lower = text.to_lowercase();
    let chars = chars_of(lower.as_str());
    let mut out: Vec<char> = Vec::new();
    let mut after_dash = false;
    let ghost mut kept: Seq<char> = Seq::empty();
    let mut i: usize = 0;
    assert(chars@.subrange(0, 0) == Seq::<char>::empty());
    while i < chars.len()
        invariant
            i <= chars@.len(),
            kept == slug_chars(chars@.subrange(0, i as int)),
            out@ == joined(words(kept)),
            out@.len() > 0 <==> words(kept).len() > 0,
            after_dash == (kept.len() > 0 && kept.last() == '-'),
        decreases chars@.len() - i,
    {
        let c = chars[i];
        assert(chars@.subrange(0, i + 1).drop_last() == chars@.subrange(0, i as int));
        let left = if c.is_alphanumeric() {
            if c == '\0' {
                None
            } else {
                Some(c)
            }
        } else if c.is_whitespace() || c == '-' {
            Some('-')
        } else {
            None
        };
        match left {
            Some(d) => {
                let ghost before = kept;
                proof {
                    kept = kept.push(d);
                    assert(kept.drop_last() == before);
                }
                if d == '-' {
                    after_dash = true;
                } else {
                    proof {
                        if before.len() > 0 && before.last() != '-' {
                            lemma_words_last(before);
                        }
                    }
                    if after_dash && out.len() > 0 {
                        out.push('-');
                    }
                    out.push(d);
                    after_dash = false;
                    proof {
                        let w = words(before);
                        if before.len() > 0 && before.last() != '-' {
                            let grown = w.drop_last().push(w.last().push(d));
                            assert(grown.last() == w.last().push(d));
                            if w.len() > 1 {
                                assert(grown.drop_last() == w.drop_last());
                            }
                            assert(out@ =~= joined(grown));
                        } else {
                            let grown = w.push(seq![d]);
                            assert(grown.drop_last() == w);
                            assert(out@ =~= joined(grown));
                        }
                    }
                }
            },
            None => {},
        }
        i += 1;
    }
    assert(chars@.subrange(0, i as int) == chars@);
    string_from(&out)
}

} // verus!
