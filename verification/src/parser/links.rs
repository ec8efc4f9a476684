//! Link detection in markdown content: standard links, which the tokenizer
//! finds, and wikilinks, which are scanned for character by character.

use super::events::{markdown_offset_tokens, tokenize_with_offsets, Token};
use super::output::{clone_option, option_view};
use super::text::{
    byte_offsets, chars_of, find_at, find_char_at, find_from, lemma_find_from_first, matches_at,
    slice_of, starts_with_at, string_from, string_of, trim, trimmed, utf8_len,
};
use vstd::prelude::*;

verus! {

/// What a link points to.
#[derive(Debug, PartialEq)]
pub enum LinkTarget {
    /// A heading of the same document, such as `#installation`.
    Anchor(String),
    /// A file named by a relative path, with or without an anchor.
    RelativeFile { path: String, anchor: Option<String> },
    /// A wikilink, such as `[[filename]]` or `[[filename|shown text]]`.
    WikiLink { target: String, alias: Option<String> },
    /// A link that begins with `http://` or `https://`.
    External(String),
}

/// A link found in markdown content.
#[derive(Debug, PartialEq)]
pub struct Link {
    /// The text that is shown for the link.
    pub text: String,
    /// What the link points to.
    pub target: LinkTarget,
    /// The byte offset at which the link begins in the content.
    pub offset: usize,
}

/// The value of a `LinkTarget`.
pub enum LinkTargetView {
    Anchor(Seq<char>),
    RelativeFile { path: Seq<char>, anchor: Option<Seq<char>> },
    WikiLink { target: Seq<char>, alias: Option<Seq<char>> },
    External(Seq<char>),
}

/// The value of a `Link`.
pub struct LinkView {
    pub text: Seq<char>,
    pub target: LinkTargetView,
    pub offset: usize,
}

impl View for LinkTarget {
    type V = LinkTargetView;

    open spec fn view(&self) -> LinkTargetView {
        match *self {
            LinkTarget::Anchor(anchor) => LinkTargetView::Anchor(anchor@),
            LinkTarget::RelativeFile { path, anchor } => LinkTargetView::RelativeFile {
                path: path@,
                anchor: option_view(anchor),
            },
            LinkTarget::WikiLink { target, alias } => LinkTargetView::WikiLink {
                target: target@,
                alias: option_view(alias),
            },
            LinkTarget::External(url) => LinkTargetView::External(url@),
        }
    }
}

impl View for Link {
    type V = LinkView;

    open spec fn view(&self) -> LinkView {
        LinkView { text: self.text@, target: self.target@, offset: self.offset }
    }
}

/// The values of a sequence of links.
pub open spec fn links_view(links: Seq<Link>) -> Seq<LinkView> {
    Seq::new(links.len(), |i: int| links[i]@)
}

/// How a link target is written for display and search.
pub open spec fn target_text(target: LinkTargetView) -> Seq<char> {
    match target {
        LinkTargetView::Anchor(anchor) => seq!['#'] + anchor,
        LinkTargetView::RelativeFile { path, anchor } => match anchor {
            Some(anchor) => path + seq!['#'] + anchor,
            None => path,
        },
        LinkTargetView::WikiLink { target, alias } => match alias {
            Some(alias) => seq!['[', '['] + target + seq!['|'] + alias + seq![']', ']'],
            None => seq!['[', '['] + target + seq![']', ']'],
        },
        LinkTargetView::External(url) => url,
    }
}

/// The characters `http://`.
pub open spec fn http_prefix() -> Seq<char> {
    seq!['h', 't', 't', 'p', ':', '/', '/']
}

/// The characters `https://`.
pub open spec fn https_prefix() -> Seq<char> {
    seq!['h', 't', 't', 'p', 's', ':', '/', '/']
}

/// The target that a destination stands for: an anchor where it begins with
/// `#`, an external link where it begins with `http://` or `https://`, and
/// else a relative file, whose anchor is what follows the first `#`.
pub open spec fn classified(url: Seq<char>) -> LinkTargetView {
    if url.len() > 0 && url[0] == '#' {
        LinkTargetView::Anchor(url.drop_first())
    } else if matches_at(url, 0, http_prefix()) || matches_at(url, 0, https_prefix()) {
        LinkTargetView::External(url)
    } else {
        match find_from(url, seq!['#'], 0) {
            Some(at) => LinkTargetView::RelativeFile {
                path: url.subrange(0, at),
                anchor: Some(url.subrange(at + 1, url.len() as int)),
            },
            None => LinkTargetView::RelativeFile { path: url, anchor: None },
        }
    }
}

/// The wikilink whose text between the brackets is `inner` and which begins
/// at the byte offset `offset`: what stands before the first `|` is the
/// target, what follows it the alias, both trimmed; the alias is shown if
/// there is one, else the target.
pub open spec fn wikilink(inner: Seq<char>, offset: usize) -> LinkView {
    match find_from(inner, seq!['|'], 0) {
        Some(bar) => LinkView {
            text: trim(inner.subrange(bar + 1, inner.len() as int)),
            target: LinkTargetView::WikiLink {
                target: trim(inner.subrange(0, bar)),
                alias: Some(trim(inner.subrange(bar + 1, inner.len() as int))),
            },
            offset: offset,
        },
        None => LinkView {
            text: trim(inner),
            target: LinkTargetView::WikiLink { target: trim(inner), alias: None },
            offset: offset,
        },
    }
}

/// The characters `]]`.
pub open spec fn wikilink_close() -> Seq<char> {
    seq![']', ']']
}

/// Whether a wikilink opens at `pos`.
pub open spec fn wikilink_opens(text: Seq<char>, pos: int) -> bool {
    0 <= pos && pos + 1 < text.len() && text[pos] == '[' && text[pos + 1] == '['
}

/// The wikilinks of `text` from `pos` on, in order: each begins with `[[` and
/// ends at the first `]]` behind it; one with nothing between the brackets
/// gives no link, and one that is never closed ends the search.
pub open spec fn wikilinks_from(text: Seq<char>, pos: int) -> Seq<LinkView>
    decreases text.len() - pos,
    via wikilinks_from_decreases
{
    if pos < 0 || pos >= text.len() {
        Seq::empty()
    } else if wikilink_opens(text, pos) {
        match find_from(text, wikilink_close(), pos + 2) {
            None => Seq::empty(),
            Some(close) => if close > pos + 2 {
                seq![
                    wikilink(
                        text.subrange(pos + 2, close),
                        utf8_len(text.subrange(0, pos)) as usize,
                    ),
                ] + wikilinks_from(text, close + 2)
            } else {
                wikilinks_from(text, close + 2)
            },
        }
    } else {
        wikilinks_from(text, pos + 1)
    }
}

/// The search goes on behind the wikilink that was found.
#[via_fn]
proof fn wikilinks_from_decreases(text: Seq<char>, pos: int) {
    if 0 <= pos < text.len() && wikilink_opens(text, pos) {
        lemma_find_from_first(text, wikilink_close(), pos + 2);
    }
}

/// A text in which `]]` stands nowhere has no wikilinks.
pub proof fn lemma_unclosed_wikilinks(text: Seq<char>, pos: int)
    requires
        forall|at: int| !matches_at(text, at, wikilink_close()),
    ensures
        wikilinks_from(text, pos) == Seq::<LinkView>::empty(),
    decreases text.len() - pos,
{
    if 0 <= pos < text.len() {
        if wikilink_opens(text, pos) {
            lemma_find_from_first(text, wikilink_close(), pos + 2);
        } else {
            lemma_unclosed_wikilinks(text, pos + 1);
        }
    }
}

/// The state of the search for standard links between two tokens.
pub struct LinkScan {
    /// Whether a link is open.
    pub open: bool,
    /// The text gathered for the link.
    pub text: Seq<char>,
    /// The destination of the link that is open.
    pub url: Seq<char>,
    /// The byte offset at which the link that is open begins.
    pub offset: usize,
    /// The links found so far.
    pub links: Seq<LinkView>,
}

/// What one token, whose source begins at `offset`, does to the search: the
/// start of a link opens it, text inside a link joins its text, and the end
/// of a link emits it.
pub open spec fn scan_step(s: LinkScan, token: Token, offset: usize) -> LinkScan {
    match token {
        Token::StartLink(dest) => LinkScan { open: true, url: dest@, offset: offset, ..s },
        Token::Text(text) => if s.open {
            LinkScan { text: s.text + text@, ..s }
        } else {
            s
        },
        Token::EndLink => if s.open {
            LinkScan {
                open: false,
                text: Seq::empty(),
                url: Seq::empty(),
                links: s.links.push(
                    LinkView { text: s.text, target: classified(s.url), offset: s.offset },
                ),
                ..s
            }
        } else {
            s
        },
        _ => s,
    }
}

/// The search after the first `n` of `tokens`.
pub open spec fn scan(tokens: Seq<(Token, usize)>, n: nat) -> LinkScan
    decreases n,
{
    if n == 0 || n > tokens.len() {
        LinkScan {
            open: false,
            text: Seq::empty(),
            url: Seq::empty(),
            offset: 0,
            links: Seq::empty(),
        }
    } else {
        scan_step(scan(tokens, (n - 1) as nat), tokens[n - 1].0, tokens[n - 1].1)
    }
}

/// The standard links that `tokens` hold, in order.
pub open spec fn token_links(tokens: Seq<(Token, usize)>) -> Seq<LinkView> {
    scan(tokens, tokens.len()).links
}

/// The links of `content`: the standard links that the tokenizer finds, in
/// order, and behind them the wikilinks, in order.
pub open spec fn links_of(content: Seq<char>) -> Seq<LinkView> {
    token_links(markdown_offset_tokens(content)) + wikilinks_from(content, 0)
}

impl Clone for LinkTarget {
    fn clone(&self) -> (res: Self)
        ensures
            res@ == self@,
    {
        match self {
            LinkTarget::Anchor(anchor) => LinkTarget::Anchor(anchor.clone()),
            LinkTarget::RelativeFile { path, anchor } => LinkTarget::RelativeFile {
                path: path.clone(),
                anchor: clone_option(anchor),
            },
            LinkTarget::WikiLink { target, alias } => LinkTarget::WikiLink {
                target: target.clone(),
                alias: clone_option(alias),
            },
            LinkTarget::External(url) => LinkTarget::External(url.clone()),
        }
    }
}

impl Clone for Link {
    fn clone(&self) -> (res: Self)
        ensures
            res@ == self@,
    {
        Link { text: self.text.clone(), target: self.target.clone(), offset: self.offset }
    }
}

impl LinkTarget {
    /// The target as it is written for display and search.
    pub fn as_str(&self) -> (text: String)
        ensures
            text@ == target_text(self@),
    {
        let mut text = String::new();
        match self {
            LinkTarget::Anchor(anchor) => {
                text.push('#');
                text.append(anchor.as_str());
                assert(text@ =~= target_text(self@));
            },
            LinkTarget::RelativeFile { path, anchor } => {
                text.append(path.as_str());
                match anchor {
                    Some(anchor) => {
                        text.push('#');
                        text.append(anchor.as_str());
                    },
                    None => {},
                }
                assert(text@ =~= target_text(self@));
            },
            LinkTarget::WikiLink { target, alias } => {
                text.push('[');
                text.push('[');
                text.append(target.as_str());
                match alias {
                    Some(alias) => {
                        text.push('|');
                        text.append(alias.as_str());
                    },
                    None => {},
                }
                text.push(']');
                text.push(']');
                assert(text@ =~= target_text(self@));
            },
            LinkTarget::External(url) => {
                text.append(url.as_str());
                assert(text@ =~= target_text(self@));
            },
        }
        text
    }
}

impl Link {
    /// A link with the given text, target and offset.
    pub fn new(text: String, target: LinkTarget, offset: usize) -> (link: Self)
        ensures
            link.text == text,
            link.target == target,
            link.offset == offset,
    {
        Link { text, target, offset }
    }
}

/// Appends `link` to `links`.
fn push_link(links: &mut Vec<Link>, link: Link)
    ensures
        links_view(final(links)@) == links_view(old(links)@).push(link@),
{
    links.push(link);
    assert(links_view(links@) =~= links_view(old(links)@).push(link@));
}

/// Classifies the destination of a link.
pub fn parse_link_target(url: &str) -> (target: LinkTarget)
    ensures
        target@ == classified(url@),
{
    let chars = chars_of(url);
    let http = vec!['h', 't', 't', 'p', ':', '/', '/'];
    let https = vec!['h', 't', 't', 'p', 's', ':', '/', '/'];
    assert(http@ =~= http_prefix());
    assert(https@ =~= https_prefix());
    if chars.len() > 0 && chars[0] == '#' {
        assert(chars@.subrange(1, chars@.len() as int) == chars@.drop_first());
        LinkTarget::Anchor(string_of(&chars, 1, chars.len()))
    } else if starts_with_at(&chars, 0, &http) || starts_with_at(&chars, 0, &https) {
        LinkTarget::External(string_from(&chars))
    } else {
        match find_char_at(&chars, '#', 0) {
            Some(at) => LinkTarget::RelativeFile {
                path: string_of(&chars, 0, at),
                anchor: Some(string_of(&chars, at + 1, chars.len())),
            },
            None => LinkTarget::RelativeFile { path: string_from(&chars), anchor: None },
        }
    }
}

/// The wikilink whose text between the brackets is `inner`.
fn wikilink_of(inner: &Vec<char>, offset: usize) -> (link: Link)
    ensures
        link@ == wikilink(inner@, offset),
{
    let length = inner.len();
    match find_char_at(inner, '|', 0) {
        Some(bar) => {
            assert(bar < length);
            let target = string_from(&trimmed(inner, 0, bar));
            let alias = string_from(&trimmed(inner, bar + 1, inner.len()));
            let text = alias.clone();
            Link::new(text, LinkTarget::WikiLink { target, alias: Some(alias) }, offset)
        },
        None => {
            assert(inner@.subrange(0, inner@.len() as int) == inner@);
            let target = string_from(&trimmed(inner, 0, inner.len()));
            let text = target.clone();
            Link::new(text, LinkTarget::WikiLink { target, alias: None }, offset)
        },
    }
}

/// Appends the wikilinks of `content` to `links`.
pub fn extract_wikilinks(content: &str, links: &mut Vec<Link>)
    ensures
        links_view(final(links)@) == links_view(old(links)@) + wikilinks_from(content@, 0),
{
    let chars = chars_of(content);
    let offsets = byte_offsets(content);
    let close = vec![']', ']'];
    assert(close@ =~= wikilink_close());
    let ghost text = content@;
    let ghost before = links_view(links@);
    let mut pos: usize = 0;
    let mut closed = true;
    assert(links_view(links@) + wikilinks_from(text, 0) =~= before + wikilinks_from(text, 0));
    while closed && pos < chars.len()
        invariant
            chars@ == text,
            text == content@,
            close@ == wikilink_close(),
            offsets@.len() == text.len() + 1,
            forall|i: int|
                0 <= i <= text.len() ==> #[trigger] offsets@[i] == utf8_len(text.subrange(0, i)),
            closed ==> links_view(links@) + wikilinks_from(text, pos as int) == before
                + wikilinks_from(text, 0),
            !closed ==> links_view(links@) == before + wikilinks_from(text, 0),
        decreases chars@.len() - pos,
            if closed {
                1nat
            } else {
                0nat
            },
    {
        if chars[pos] == '[' && pos + 1 < chars.len() && chars[pos + 1] == '[' {
            match find_at(&chars, &close, pos + 2) {
                None => {
                    closed = false;
                    assert(links_view(links@) + Seq::<LinkView>::empty() =~= links_view(links@));
                },
                Some(end) => {
                    if end > pos + 2 {
                        let inner = slice_of(&chars, pos + 2, end);
                        let link = wikilink_of(&inner, offsets[pos]);
                        let ghost found = links_view(links@);
                        push_link(links, link);
                        assert(links_view(links@) + wikilinks_from(text, end + 2) =~= found
                            + wikilinks_from(text, pos as int));
                    }
                    pos = end + 2;
                },
            }
        } else {
            pos += 1;
        }
    }
    assert(closed ==> links_view(links@) + Seq::<LinkView>::empty() =~= links_view(links@));
}

/// The standard links that `tokens` hold, in order.
pub fn links_from_tokens(tokens: &Vec<(Token, usize)>) -> (links: Vec<Link>)
    ensures
        links_view(links@) == token_links(tokens@),
{
    let mut links: Vec<Link> = Vec::new();
    let mut in_link = false;
    let mut link_text = String::new();
    let mut link_url = String::new();
    let mut link_offset: usize = 0;
    assert(links_view(links@) =~= Seq::empty());
    let mut i: usize = 0;
    while i < tokens.len()
        invariant
            i <= tokens@.len(),
            scan(tokens@, i as nat) == (LinkScan {
                open: in_link,
                text: link_text@,
                url: link_url@,
                offset: link_offset,
                links: links_view(links@),
            }),
        decreases tokens@.len() - i,
    {
        match &tokens[i].0 {
            Token::StartLink(dest) => {
                in_link = true;
                link_url = dest.clone();
                link_offset = tokens[i].1;
            },
            Token::Text(text) => {
                if in_link {
                    link_text.append(text.as_str());
                }
            },
            Token::EndLink => {
                if in_link {
                    let target = parse_link_target(link_url.as_str());
                    push_link(&mut links, Link::new(link_text, target, link_offset));
                    link_text = String::new();
                    link_url = String::new();
                    in_link = false;
                }
            },
            _ => {},
        }
        i += 1;
    }
    links
}

/// Extracts all links from markdown content: the standard links first, in
/// the order of the document, then the wikilinks.
pub fn extract_links(content: &str) -> (links: Vec<Link>)
    ensures
        links_view(links@) == links_of(content@),
{
    let tokens = tokenize_with_offsets(content);
    let mut links = links_from_tokens(&tokens);
    extract_wikilinks(content, &mut links);
    links
}

} // verus!
