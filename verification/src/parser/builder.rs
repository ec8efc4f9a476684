//! Builds the exported tree of a document: its sections, nested as its
//! headings are, with the content of each.

use super::content::{parse_blocks, parse_content};
use super::document::{
    depth, flatten, forest_of, headings_view, node_view, nodes_view, Document, Heading,
    HeadingNode, HeadingNodeView, HeadingView,
};
use super::output::{
    section_view, sections_view, Content, ContentView, DocumentMetadata,
    DocumentMetadataView, DocumentOutput, DocumentOutputView, DocumentRoot, DocumentRootView,
    Position, Section, SectionView,
};
use super::slug::{slug, slugify};
use super::text::{
    byte_offsets, chars_of, find_at, find_char_at, find_from, lemma_find_from_first, matches_at,
    skip_whitespace_from, slice_of, starts_with_at, string_from, trim,
    trim_start, trimmed, utf8_len, white_space,
};
use super::utils::{marker_level, marker_level_of};
use vstd::prelude::*;

verus! {

/// `n` times the character `#`.
pub open spec fn hashes(n: nat) -> Seq<char>
    decreases n,
{
    if n == 0 {
        Seq::empty()
    } else {
        hashes((n - 1) as nat).push('#')
    }
}

/// How a heading is searched for in the source: its marker, one space, and its text.
pub open spec fn heading_marker(heading: HeadingView) -> Seq<char> {
    hashes(heading.level as nat) + seq![' '] + heading.text
}

/// The number of newlines in `s`.
pub open spec fn newlines(s: Seq<char>) -> nat
    decreases s.len(),
{
    if s.len() == 0 {
        0
    } else if s.last() == '\n' {
        newlines(s.drop_last()) + 1
    } else {
        newlines(s.drop_last())
    }
}

/// The number of lines of `s`: one for each newline, and one for what
/// follows the last newline if that is not empty.
pub open spec fn line_count(s: Seq<char>) -> nat {
    if s.len() > 0 && s.last() != '\n' {
        newlines(s) + 1
    } else {
        newlines(s)
    }
}

/// The index at which the line that begins at `pos` ends: that of the next
/// newline, or the length of the text where there is none.
pub open spec fn line_end(text: Seq<char>, pos: int) -> int {
    match find_from(text, seq!['\n'], pos) {
        Some(at) => at,
        None => text.len() as int,
    }
}

/// The line that begins at `pos`, without its newline and without a carriage
/// return that stands before the newline.
pub open spec fn line_at(text: Seq<char>, pos: int) -> Seq<char> {
    let end = line_end(text, pos);
    if pos < end < text.len() && text[end - 1] == '\r' {
        text.subrange(pos, end - 1)
    } else {
        text.subrange(pos, end)
    }
}

/// Whether a line opens or closes a fenced code block: without its leading
/// whitespace it begins with three backticks.
pub open spec fn is_fence(line: Seq<char>) -> bool {
    matches_at(trim_start(line), 0, seq!['`', '`', '`'])
}

/// The index of the line, from `pos` on, that ends a section of the given
/// level: the first line outside fenced code whose marker states a level
/// that is not greater. Where there is none, the length of the text.
/// `in_code` says whether `pos` lies inside fenced code.
pub open spec fn next_heading(text: Seq<char>, pos: int, level: usize, in_code: bool) -> int
    decreases text.len() - pos + 1,
    via next_heading_decreases
{
    if pos < 0 || pos >= text.len() {
        text.len() as int
    } else {
        let line = line_at(text, pos);
        let inside = in_code != is_fence(line);
        if !inside && marker_level(line) is Some && marker_level(line)->0 <= level {
            pos
        } else {
            next_heading(text, line_end(text, pos) + 1, level, inside)
        }
    }
}

/// The line that follows begins behind the line that was read.
#[via_fn]
proof fn next_heading_decreases(text: Seq<char>, pos: int, level: usize, in_code: bool) {
    if 0 <= pos < text.len() {
        lemma_find_from_first(text, seq!['\n'], pos);
        assert(line_end(text, pos) >= pos);
    }
}

/// The content of a section, as it is found in the source.
pub struct SectionText {
    /// The text of the section, trimmed.
    pub raw: Seq<char>,
    /// The byte offset at which the content begins.
    pub offset: usize,
    /// The line at which the content begins.
    pub line: usize,
}

/// The content of the section of `heading` in `source`. The heading is
/// searched for as its marker, one space and its text, and the first place
/// where that stands counts. The content begins behind the heading's line
/// and ends before the next heading whose level is not greater. Where the
/// heading is not found, the section is empty.
pub open spec fn section_text(heading: HeadingView, source: Seq<char>) -> SectionText {
    match find_from(source, heading_marker(heading), 0) {
        None => SectionText { raw: Seq::empty(), offset: 0, line: 0 },
        Some(at) => {
            let start = match find_from(source, seq!['\n'], at) {
                Some(newline) => newline + 1,
                None => at,
            };
            let body = source.subrange(start, source.len() as int);
            let end = next_heading(body, 0, heading.level, false);
            SectionText {
                raw: trim(body.subrange(0, end)),
                offset: utf8_len(source.subrange(0, start)) as usize,
                line: (line_count(source.subrange(0, at)) + 2) as usize,
            }
        },
    }
}

/// The section of a node of the heading tree: its identifier and slug are
/// the slug of its title, its content is parsed from the line at which it
/// begins, and its children are the sections of the node's children.
pub open spec fn section_of(node: HeadingNodeView, source: Seq<char>) -> SectionView
    decreases node,
{
    let found = section_text(node.heading, source);
    SectionView {
        id: slug(node.heading.text),
        level: node.heading.level,
        title: node.heading.text,
        slug: slug(node.heading.text),
        position: Position { line: found.line, offset: found.offset },
        content: ContentView { raw: found.raw, blocks: parse_blocks(found.raw, found.line) },
        children: sections_of(node.children, source),
    }
}

/// The sections of the nodes of a forest, in order.
pub open spec fn sections_of(forest: Seq<HeadingNodeView>, source: Seq<char>) -> Seq<SectionView>
    decreases forest,
{
    Seq::new(
        forest.len(),
        |i: int|
            if 0 <= i < forest.len() {
                section_of(forest[i], source)
            } else {
                SectionView {
                    id: Seq::empty(),
                    level: 0,
                    title: Seq::empty(),
                    slug: Seq::empty(),
                    position: Position { line: 0, offset: 0 },
                    content: ContentView { raw: Seq::empty(), blocks: Seq::empty() },
                    children: Seq::empty(),
                }
            },
    )
}

/// The number of words in `s`: its longest runs of characters that are not whitespace.
pub open spec fn word_count(s: Seq<char>) -> nat
    decreases s.len(),
{
    if s.len() == 0 {
        0
    } else if !white_space(s.last()) && (s.len() == 1 || white_space(s[s.len() - 2])) {
        word_count(s.drop_last()) + 1
    } else {
        word_count(s.drop_last())
    }
}

/// The exported tree of a document with the given content and headings.
pub open spec fn document_output(
    content: Seq<char>,
    headings: Seq<HeadingView>,
    source: Option<Seq<char>>,
) -> DocumentOutputView {
    DocumentOutputView {
        document: DocumentRootView {
            metadata: DocumentMetadataView {
                source: source,
                heading_count: headings.len() as usize,
                max_depth: depth(forest_of(headings)) as usize,
                word_count: word_count(content) as usize,
            },
            sections: sections_of(forest_of(headings), content),
        },
    }
}

/// A text has no more lines than characters.
pub proof fn lemma_line_count_bound(s: Seq<char>)
    ensures
        newlines(s) <= s.len(),
        line_count(s) <= s.len(),
        s.len() > 0 && s.last() != '\n' ==> newlines(s) < s.len(),
    decreases s.len(),
{
    if s.len() > 0 {
        lemma_line_count_bound(s.drop_last());
    }
}

/// A forest is no higher than it has nodes, and the forest below a root has
/// fewer nodes than the forest.
pub proof fn lemma_depth_bound(forest: Seq<HeadingNodeView>)
    ensures
        depth(forest) <= flatten(forest).len(),
        forall|i: int|
            0 <= i < forest.len() ==> flatten((#[trigger] forest[i]).children).len() < flatten(
                forest,
            ).len(),
    decreases forest,
{
    if forest.len() > 0 {
        lemma_depth_bound(forest.drop_last());
        lemma_depth_bound(forest.last().children);
        assert forall|i: int| 0 <= i < forest.len() implies flatten(
            (#[trigger] forest[i]).children,
        ).len() < flatten(forest).len() by {
            if i < forest.len() - 1 {
                assert(forest[i] == forest.drop_last()[i]);
            }
        }
    }
}

/// The number of words in `content`.
pub fn count_words(content: &str) -> (count: usize)
    ensures
        count == word_count(content@),
{
    let chars = chars_of(content);
    let mut count: usize = 0;
    let mut in_space = true;
    let mut i: usize = 0;
    assert(chars@.subrange(0, 0) == Seq::<char>::empty());
    while i < chars.len()
        invariant
            i <= chars@.len(),
            count <= i,
            count == word_count(chars@.subrange(0, i as int)),
            in_space == (i == 0 || white_space(chars@[i - 1])),
        decreases chars@.len() - i,
    {
        let ghost prefix = chars@.subrange(0, i + 1);
        assert(prefix.drop_last() == chars@.subrange(0, i as int));
        assert(prefix.last() == chars@[i as int]);
        assert(i > 0 ==> prefix[prefix.len() - 2] == chars@[i - 1]);
        let space = chars[i].is_whitespace();
        if !space && in_space {
            count += 1;
        }
        in_space = space;
        i += 1;
    }
    assert(chars@.subrange(0, i as int) == chars@);
    count
}

/// The height of a heading tree.
fn calculate_max_depth(tree: &Vec<HeadingNode>) -> (height: usize)
    requires
        flatten(nodes_view(tree@)).len() <= usize::MAX,
    ensures
        height == depth(nodes_view(tree@)),
    decreases tree,
{
    let ghost forest = nodes_view(tree@);
    let mut height: usize = 0;
    let mut i: usize = 0;
    assert(forest.subrange(0, 0) == Seq::<HeadingNodeView>::empty());
    while i < tree.len()
        invariant
            i <= tree@.len(),
            forest == nodes_view(tree@),
            forest.len() == tree@.len(),
            flatten(forest).len() <= usize::MAX,
            height == depth(forest.subrange(0, i as int)),
        decreases tree@.len() - i,
    {
        proof {
            lemma_depth_bound(forest);
            lemma_depth_bound(forest[i as int].children);
            assert(forest[i as int] == node_view(tree@[i as int]));
            assert(forest.subrange(0, i + 1).drop_last() == forest.subrange(0, i as int));
            assert(forest.subrange(0, i + 1).last() == forest[i as int]);
        }
        let below = calculate_max_depth(&tree[i].children);
        if below + 1 > height {
            height = below + 1;
        }
        i += 1;
    }
    assert(forest.subrange(0, i as int) == forest);
    height
}

/// The level that the marker of a line states, whatever its height.
pub fn get_heading_level(line: &str) -> (level: Option<usize>)
    ensures
        level == marker_level(line@),
{
    let chars = chars_of(line);
    marker_level_of(&chars)
}

/// Whether the line `line` opens or closes a fenced code block.
fn is_fence_line(line: &Vec<char>) -> (fence: bool)
    ensures
        fence == is_fence(line@),
{
    let start = skip_whitespace_from(line, 0);
    let fence = vec!['`', '`', '`'];
    assert(fence@ =~= seq!['`', '`', '`']);
    let found = starts_with_at(line, start, &fence);
    proof {
        let rest = trim_start(line@);
        if start + 3 <= line@.len() {
            assert(rest.subrange(0, 3) == line@.subrange(start as int, start + 3));
        }
    }
    found
}

/// The index of the line of `content` that ends a section of the given
/// level, or the length of `content` where no line does.
pub fn find_next_heading(content: &Vec<char>, current_level: usize) -> (end: usize)
    ensures
        end == next_heading(content@, 0, current_level, false),
        end <= content@.len(),
{
    let mut in_code_block = false;
    let mut pos: usize = 0;
    let length = content.len();
    while pos < length
        invariant
            length == content@.len(),
            pos <= length,
            next_heading(content@, pos as int, current_level, in_code_block) == next_heading(
                content@,
                0,
                current_level,
                false,
            ),
        decreases length - pos,
    {
        let end = match find_char_at(content, '\n', pos) {
            Some(at) => at,
            None => length,
        };
        let stop = if pos < end && end < length && content[end - 1] == '\r' {
            end - 1
        } else {
            end
        };
        let line = slice_of(content, pos, stop);
        if is_fence_line(&line) {
            in_code_block = !in_code_block;
        }
        if !in_code_block {
            if let Some(level) = marker_level_of(&line) {
                if level <= current_level {
                    return pos;
                }
            }
        }
        if end == length {
            assert(next_heading(content@, length + 1, current_level, in_code_block) == length);
            return length;
        }
        pos = end + 1;
    }
    length
}

/// The marker by which `heading` is searched for.
fn marker_of(heading: &Heading) -> (marker: Vec<char>)
    ensures
        marker@ == heading_marker(heading@),
{
    let mut marker: Vec<char> = Vec::new();
    let mut i: usize = 0;
    while i < heading.level
        invariant
            i <= heading.level,
            marker@ == hashes(i as nat),
        decreases heading.level - i,
    {
        marker.push('#');
        i += 1;
    }
    marker.push(' ');
    let text = chars_of(heading.text.as_str());
    let mut k: usize = 0;
    while k < text.len()
        invariant
            k <= text@.len(),
            text@ == heading.text@,
            marker@ == hashes(heading.level as nat) + seq![' '] + text@.subrange(0, k as int),
        decreases text@.len() - k,
    {
        marker.push(text[k]);
        k += 1;
        assert(marker@ =~= hashes(heading.level as nat) + seq![' '] + text@.subrange(0, k as int));
    }
    assert(text@.subrange(0, k as int) == text@);
    marker
}

/// The number of lines of `chars[..to]`.
fn count_lines(chars: &Vec<char>, to: usize) -> (count: usize)
    requires
        to <= chars@.len(),
    ensures
        count == line_count(chars@.subrange(0, to as int)),
        count <= to,
{
    let mut count: usize = 0;
    let mut i: usize = 0;
    assert(chars@.subrange(0, 0) == Seq::<char>::empty());
    while i < to
        invariant
            i <= to <= chars@.len(),
            count <= i,
            count == newlines(chars@.subrange(0, i as int)),
        decreases to - i,
    {
        assert(chars@.subrange(0, i + 1).drop_last() == chars@.subrange(0, i as int));
        if chars[i] == '\n' {
            count += 1;
        }
        i += 1;
    }
    proof {
        lemma_line_count_bound(chars@.subrange(0, to as int));
    }
    if to > 0 && chars[to - 1] != '\n' {
        count + 1
    } else {
        count
    }
}

/// Finds the content of the section of `heading` in the source: its text,
/// the byte offset at which it begins, and the line at which it begins.
pub fn extract_section_content(heading: &Heading, full_content: &str) -> (found: (
    String,
    usize,
    usize,
))
    ensures
        found.0@ == section_text(heading@, full_content@).raw,
        found.1 == section_text(heading@, full_content@).offset,
        found.2 == section_text(heading@, full_content@).line,
{
    let chars = chars_of(full_content);
    let search = marker_of(heading);
    match find_at(&chars, &search, 0) {
        None => (String::new(), 0, 0),
        Some(at) => {
            let offsets = byte_offsets(full_content);
            let entries = offsets.len();
            assert(search@.len() >= 1);
            let line = count_lines(&chars, at) + 1;
            let start = match find_char_at(&chars, '\n', at) {
                Some(newline) => newline + 1,
                None => at,
            };
            let body = slice_of(&chars, start, chars.len());
            let end = find_next_heading(&body, heading.level);
            let raw = string_from(&trimmed(&body, 0, end));
            (raw, offsets[start], line + 1)
        },
    }
}

/// Builds the section of a node of the heading tree, with the sections of its children.
pub fn build_section(node: &HeadingNode, full_content: &str) -> (section: Section)
    ensures
        section@ == section_of(node@, full_content@),
    decreases node,
{
    let heading = &node.heading;
    let (raw_content, offset, line) = extract_section_content(heading, full_content);
    let blocks = parse_content(raw_content.as_str(), line);
    let mut children: Vec<Section> = Vec::new();
    let mut i: usize = 0;
    while i < node.children.len()
        invariant
            i <= node.children@.len(),
            children@.len() == i,
            forall|j: int|
                0 <= j < i ==> section_view(#[trigger] children@[j]) == section_of(
                    node_view(node.children@[j]),
                    full_content@,
                ),
        decreases node.children@.len() - i,
    {
        let child = build_section(&node.children[i], full_content);
        children.push(child);
        i += 1;
    }
    assert(sections_view(children@) =~= sections_of(nodes_view(node.children@), full_content@));
    Section {
        id: slugify(heading.text.as_str()),
        level: heading.level,
        title: heading.text.clone(),
        slug: slugify(heading.text.as_str()),
        position: Position { line, offset },
        content: Content { raw: raw_content, blocks },
        children,
    }
}

/// Builds the exported tree of a document: its metadata, and one section for
/// each root of its heading tree. `source` says where the document came from.
pub fn build_json_output(doc: &Document, source: Option<&str>) -> (output: DocumentOutput)
    ensures
        output@ == document_output(
            doc.content@,
            headings_view(doc.headings@),
            match source {
                Some(source) => Some(source@),
                None => None,
            },
        ),
        doc.content@.len() == 0 ==> output.document.metadata.word_count == 0,
        doc.headings@.len() == 0 ==> output.document.metadata.max_depth == 0,
{
    let tree = doc.build_tree();
    let heading_count = doc.headings.len();
    assert(headings_view(doc.headings@).len() == heading_count);
    let max_depth = calculate_max_depth(&tree);
    let word_count = count_words(doc.content.as_str());
    let metadata = DocumentMetadata {
        source: match source {
            Some(source) => Some(source.to_owned()),
            None => None,
        },
        heading_count,
        max_depth,
        word_count,
    };
    let mut sections: Vec<Section> = Vec::new();
    let mut i: usize = 0;
    while i < tree.len()
        invariant
            i <= tree@.len(),
            sections@.len() == i,
            forall|j: int|
                0 <= j < i ==> section_view(#[trigger] sections@[j]) == section_of(
                    node_view(tree@[j]),
                    doc.content@,
                ),
        decreases tree@.len() - i,
    {
        let section = build_section(&tree[i], doc.content.as_str());
        sections.push(section);
        i += 1;
    }
    assert(sections_view(sections@) =~= sections_of(nodes_view(tree@), doc.content@));
    DocumentOutput { document: DocumentRoot { metadata, sections } }
}

} // verus!
