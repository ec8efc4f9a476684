//! The exported document tree: sections, typed blocks and inline elements,
//! each with the mathematical value that contracts speak of.

use vstd::prelude::*;

verus! {

/// Text alignment of a table column.
#[derive(Debug, Clone, Copy, PartialEq, Eq)]
pub enum Alignment {
    Left,
    Center,
    Right,
    /// The column states no alignment.
    Unspecified,
}

/// One run of inline text with a single style.
#[derive(Debug, PartialEq)]
pub enum InlineElement {
    Text { value: String },
    Strong { value: String },
    Emphasis { value: String },
    Strikethrough { value: String },
    Code { value: String },
    Link { text: String, url: String, title: Option<String> },
    Image { alt: String, src: String, title: Option<String> },
}

/// One item of a list.
#[derive(Debug, PartialEq)]
pub struct ListItem {
    pub checked: Option<bool>,
    pub content: String,
    pub inline: Vec<InlineElement>,
    pub blocks: Vec<Block>,
}

/// One block of a section's content.
#[derive(Debug, PartialEq)]
pub enum Block {
    Heading { level: usize, content: String, inline: Vec<InlineElement> },
    Paragraph { content: String, inline: Vec<InlineElement> },
    List { ordered: bool, items: Vec<ListItem> },
    Code { language: Option<String>, content: String, start_line: usize, end_line: usize },
    Blockquote { content: String, blocks: Vec<Block> },
    Table { headers: Vec<String>, alignments: Vec<Alignment>, rows: Vec<Vec<String>> },
    Image { alt: String, src: String, title: Option<String> },
    HorizontalRule,
    Details { summary: String, content: String, blocks: Vec<Block> },
}

/// The value of an `InlineElement`.
pub enum InlineView {
    Text { value: Seq<char> },
    Strong { value: Seq<char> },
    Emphasis { value: Seq<char> },
    Strikethrough { value: Seq<char> },
    Code { value: Seq<char> },
    Link { text: Seq<char>, url: Seq<char>, title: Option<Seq<char>> },
    Image { alt: Seq<char>, src: Seq<char>, title: Option<Seq<char>> },
}

/// The value of a `ListItem`.
pub struct ListItemView {
    pub checked: Option<bool>,
    pub content: Seq<char>,
    pub inline: Seq<InlineView>,
    pub blocks: Seq<BlockView>,
}

/// The value of a `Block`.
pub enum BlockView {
    Heading { level: usize, content: Seq<char>, inline: Seq<InlineView> },
    Paragraph { content: Seq<char>, inline: Seq<InlineView> },
    List { ordered: bool, items: Seq<ListItemView> },
    Code { language: Option<Seq<char>>, content: Seq<char>, start_line: usize, end_line: usize },
    Blockquote { content: Seq<char>, blocks: Seq<BlockView> },
    Table { headers: Seq<Seq<char>>, alignments: Seq<Alignment>, rows: Seq<Seq<Seq<char>>> },
    Image { alt: Seq<char>, src: Seq<char>, title: Option<Seq<char>> },
    HorizontalRule,
    Details { summary: Seq<char>, content: Seq<char>, blocks: Seq<BlockView> },
}

/// The value of an optional string.
pub open spec fn option_view(s: Option<String>) -> Option<Seq<char>> {
    match s {
        Some(s) => Some(s@),
        None => None,
    }
}

/// The values of a sequence of strings.
pub open spec fn strings_view(s: Seq<String>) -> Seq<Seq<char>> {
    Seq::new(s.len(), |i: int| s[i]@)
}

/// The values of the rows of a table.
pub open spec fn rows_view(s: Seq<Vec<String>>) -> Seq<Seq<Seq<char>>> {
    Seq::new(s.len(), |i: int| strings_view(s[i]@))
}

impl View for InlineElement {
    type V = InlineView;

    open spec fn view(&self) -> InlineView {
        match *self {
            InlineElement::Text { value } => InlineView::Text { value: value@ },
            InlineElement::Strong { value } => InlineView::Strong { value: value@ },
            InlineElement::Emphasis { value } => InlineView::Emphasis { value: value@ },
            InlineElement::Strikethrough { value } => InlineView::Strikethrough { value: value@ },
            InlineElement::Code { value } => InlineView::Code { value: value@ },
            InlineElement::Link { text, url, title } => InlineView::Link {
                text: text@,
                url: url@,
                title: option_view(title),
            },
            InlineElement::Image { alt, src, title } => InlineView::Image {
                alt: alt@,
                src: src@,
                title: option_view(title),
            },
        }
    }
}

/// The values of a sequence of inline elements.
pub open spec fn inlines_view(s: Seq<InlineElement>) -> Seq<InlineView> {
    Seq::new(s.len(), |i: int| s[i]@)
}

/// The value of a block, with the values of all that it holds.
pub open spec fn block_view(b: Block) -> BlockView
    decreases b,
{
    match b {
        Block::Heading { level, content, inline } => BlockView::Heading {
            level,
            content: content@,
            inline: inlines_view(inline@),
        },
        Block::Paragraph { content, inline } => BlockView::Paragraph {
            content: content@,
            inline: inlines_view(inline@),
        },
        Block::List { ordered, items } => BlockView::List {
            ordered,
            items: items_view(items@),
        },
        Block::Code { language, content, start_line, end_line } => BlockView::Code {
            language: option_view(language),
            content: content@,
            start_line,
            end_line,
        },
        Block::Blockquote { content, blocks } => BlockView::Blockquote {
            content: content@,
            blocks: blocks_view(blocks@),
        },
        Block::Table { headers, alignments, rows } => BlockView::Table {
            headers: strings_view(headers@),
            alignments: alignments@,
            rows: rows_view(rows@),
        },
        Block::Image { alt, src, title } => BlockView::Image {
            alt: alt@,
            src: src@,
            title: option_view(title),
        },
        Block::HorizontalRule => BlockView::HorizontalRule,
        Block::Details { summary, content, blocks } => BlockView::Details {
            summary: summary@,
            content: content@,
            blocks: blocks_view(blocks@),
        },
    }
}

/// The value of a list item, with the values of all that it holds.
pub open spec fn item_view(item: ListItem) -> ListItemView
    decreases item,
{
    ListItemView {
        checked: item.checked,
        content: item.content@,
        inline: inlines_view(item.inline@),
        blocks: blocks_view(item.blocks@),
    }
}

/// The values of a sequence of blocks.
pub open spec fn blocks_view(s: Seq<Block>) -> Seq<BlockView>
    decreases s,
{
    Seq::new(
        s.len(),
        |i: int|
            if 0 <= i < s.len() {
                block_view(s[i])
            } else {
                BlockView::HorizontalRule
            },
    )
}

/// The values of a sequence of list items.
pub open spec fn items_view(s: Seq<ListItem>) -> Seq<ListItemView>
    decreases s,
{
    Seq::new(
        s.len(),
        |i: int|
            if 0 <= i < s.len() {
                item_view(s[i])
            } else {
                ListItemView {
                    checked: None,
                    content: Seq::empty(),
                    inline: Seq::empty(),
                    blocks: Seq::empty(),
                }
            },
    )
}

impl View for Block {
    type V = BlockView;

    open spec fn view(&self) -> BlockView {
        block_view(*self)
    }
}

impl View for ListItem {
    type V = ListItemView;

    open spec fn view(&self) -> ListItemView {
        item_view(*self)
    }
}

/// A copy of an optional string.
pub fn clone_option(s: &Option<String>) -> (res: Option<String>)
    ensures
        option_view(res) == option_view(*s),
{
    match s {
        Some(s) => Some(s.clone()),
        None => None,
    }
}

/// A copy of a vector of strings.
pub fn clone_strings(v: &Vec<String>) -> (res: Vec<String>)
    ensures
        strings_view(res@) == strings_view(v@),
{
    let mut res: Vec<String> = Vec::new();
    let mut i: usize = 0;
    while i < v.len()
        invariant
            i <= v@.len(),
            res@.len() == i,
            forall|j: int| 0 <= j < i ==> res@[j]@ == v@[j]@,
        decreases v@.len() - i,
    {
        res.push(v[i].clone());
        i += 1;
    }
    assert(strings_view(res@) =~= strings_view(v@));
    res
}

/// A copy of the rows of a table.
pub fn clone_rows(v: &Vec<Vec<String>>) -> (res: Vec<Vec<String>>)
    ensures
        rows_view(res@) == rows_view(v@),
{
    let mut res: Vec<Vec<String>> = Vec::new();
    let mut i: usize = 0;
    while i < v.len()
        invariant
            i <= v@.len(),
            res@.len() == i,
            forall|j: int| 0 <= j < i ==> strings_view(res@[j]@) == strings_view(v@[j]@),
        decreases v@.len() - i,
    {
        res.push(clone_strings(&v[i]));
        i += 1;
    }
    assert(rows_view(res@) =~= rows_view(v@));
    res
}

/// A copy of a vector of alignments.
pub fn clone_alignments(v: &Vec<Alignment>) -> (res: Vec<Alignment>)
    ensures
        res@ == v@,
{
    let mut res: Vec<Alignment> = Vec::new();
    let mut i: usize = 0;
    while i < v.len()
        invariant
            i <= v@.len(),
            res@ == v@.subrange(0, i as int),
        decreases v@.len() - i,
    {
        res.push(v[i]);
        i += 1;
        assert(v@.subrange(0, i as int) == v@.subrange(0, i - 1).push(v@[i - 1]));
    }
    assert(v@.subrange(0, i as int) == v@);
    res
}

impl Clone for InlineElement {
    fn clone(&self) -> (res: Self)
        ensures
            res@ == self@,
    {
        match self {
            InlineElement::Text { value } => InlineElement::Text { value: value.clone() },
            InlineElement::Strong { value } => InlineElement::Strong { value: value.clone() },
            InlineElement::Emphasis { value } => InlineElement::Emphasis { value: value.clone() },
            InlineElement::Strikethrough { value } => InlineElement::Strikethrough {
                value: value.clone(),
            },
            InlineElement::Code { value } => InlineElement::Code { value: value.clone() },
            InlineElement::Link { text, url, title } => InlineElement::Link {
                text: text.clone(),
                url: url.clone(),
                title: clone_option(title),
            },
            InlineElement::Image { alt, src, title } => InlineElement::Image {
                alt: alt.clone(),
                src: src.clone(),
                title: clone_option(title),
            },
        }
    }
}

/// A copy of a vector of inline elements.
pub fn clone_inlines(v: &Vec<InlineElement>) -> (res: Vec<InlineElement>)
    ensures
        inlines_view(res@) == inlines_view(v@),
{
    let mut res: Vec<InlineElement> = Vec::new();
    let mut i: usize = 0;
    while i < v.len()
        invariant
            i <= v@.len(),
            res@.len() == i,
            forall|j: int| 0 <= j < i ==> res@[j]@ == v@[j]@,
        decreases v@.len() - i,
    {
        res.push(v[i].clone());
        i += 1;
    }
    assert(inlines_view(res@) =~= inlines_view(v@));
    res
}

/// A copy of a vector of blocks.
pub fn clone_blocks(v: &Vec<Block>) -> (res: Vec<Block>)
    ensures
        blocks_view(res@) == blocks_view(v@),
    decreases v,
{
    let mut res: Vec<Block> = Vec::new();
    let mut i: usize = 0;
    while i < v.len()
        invariant
            i <= v@.len(),
            res@.len() == i,
            forall|j: int| 0 <= j < i ==> block_view(res@[j]) == block_view(v@[j]),
        decreases v@.len() - i,
    {
        res.push(v[i].clone());
        i += 1;
    }
    assert(blocks_view(res@) =~= blocks_view(v@));
    res
}

/// A copy of a vector of list items.
pub fn clone_items(v: &Vec<ListItem>) -> (res: Vec<ListItem>)
    ensures
        items_view(res@) == items_view(v@),
    decreases v,
{
    let mut res: Vec<ListItem> = Vec::new();
    let mut i: usize = 0;
    while i < v.len()
        invariant
            i <= v@.len(),
            res@.len() == i,
            forall|j: int| 0 <= j < i ==> item_view(res@[j]) == item_view(v@[j]),
        decreases v@.len() - i,
    {
        res.push(v[i].clone());
        i += 1;
    }
    assert(items_view(res@) =~= items_view(v@));
    res
}

impl Clone for ListItem {
    fn clone(&self) -> (res: Self)
        ensures
            res@ == self@,
        decreases self,
    {
        ListItem {
            checked: self.checked,
            content: self.content.clone(),
            inline: clone_inlines(&self.inline),
            blocks: clone_blocks(&self.blocks),
        }
    }
}

impl Clone for Block {
    fn clone(&self) -> (res: Self)
        ensures
            res@ == self@,
        decreases self,
    {
        match self {
            Block::Heading { level, content, inline } => Block::Heading {
                level: *level,
                content: content.clone(),
                inline: clone_inlines(inline),
            },
            Block::Paragraph { content, inline } => Block::Paragraph {
                content: content.clone(),
                inline: clone_inlines(inline),
            },
            Block::List { ordered, items } => Block::List {
                ordered: *ordered,
                items: clone_items(items),
            },
            Block::Code { language, content, start_line, end_line } => Block::Code {
                language: clone_option(language),
                content: content.clone(),
                start_line: *start_line,
                end_line: *end_line,
            },
            Block::Blockquote { content, blocks } => Block::Blockquote {
                content: content.clone(),
                blocks: clone_blocks(blocks),
            },
            Block::Table { headers, alignments, rows } => Block::Table {
                headers: clone_strings(headers),
                alignments: clone_alignments(alignments),
                rows: clone_rows(rows),
            },
            Block::Image { alt, src, title } => Block::Image {
                alt: alt.clone(),
                src: src.clone(),
                title: clone_option(title),
            },
            Block::HorizontalRule => Block::HorizontalRule,
            Block::Details { summary, content, blocks } => Block::Details {
                summary: summary.clone(),
                content: content.clone(),
                blocks: clone_blocks(blocks),
            },
        }
    }
}

/// Appends `block` to `blocks`.
pub fn push_block(blocks: &mut Vec<Block>, block: Block)
    ensures
        blocks_view(final(blocks)@) == blocks_view(old(blocks)@).push(block@),
{
    blocks.push(block);
    assert(blocks_view(blocks@) =~= blocks_view(old(blocks)@).push(block@));
}

/// Appends `item` to `items`.
pub fn push_item(items: &mut Vec<ListItem>, item: ListItem)
    ensures
        items_view(final(items)@) == items_view(old(items)@).push(item@),
{
    items.push(item);
    assert(items_view(items@) =~= items_view(old(items)@).push(item@));
}

/// Appends `element` to `elements`.
pub fn push_inline(elements: &mut Vec<InlineElement>, element: InlineElement)
    ensures
        inlines_view(final(elements)@) == inlines_view(old(elements)@).push(element@),
{
    elements.push(element);
    assert(inlines_view(elements@) =~= inlines_view(old(elements)@).push(element@));
}

/// Appends `s` to `strings`.
pub fn push_string(strings: &mut Vec<String>, s: String)
    ensures
        strings_view(final(strings)@) == strings_view(old(strings)@).push(s@),
{
    strings.push(s);
    assert(strings_view(strings@) =~= strings_view(old(strings)@).push(s@));
}

/// Appends `row` to `rows`.
pub fn push_row(rows: &mut Vec<Vec<String>>, row: Vec<String>)
    ensures
        rows_view(final(rows)@) == rows_view(old(rows)@).push(strings_view(row@)),
{
    rows.push(row);
    assert(rows_view(rows@) =~= rows_view(old(rows)@).push(strings_view(row@)));
}

/// Takes the text out of `s` and leaves it empty.
pub fn take_string(s: &mut String) -> (out: String)
    ensures
        out@ == old(s)@,
        final(s)@ == Seq::<char>::empty(),
{
    let mut out = String::new();
    core::mem::swap(s, &mut out);
    out
}

/// Takes the blocks out of `blocks` and leaves it empty.
pub fn take_blocks(blocks: &mut Vec<Block>) -> (out: Vec<Block>)
    ensures
        out@ == old(blocks)@,
        final(blocks)@ == Seq::<Block>::empty(),
        blocks_view(final(blocks)@) == Seq::<BlockView>::empty(),
{
    let mut out: Vec<Block> = Vec::new();
    core::mem::swap(blocks, &mut out);
    assert(blocks_view(blocks@) =~= Seq::<BlockView>::empty());
    out
}

/// Takes the items out of `items` and leaves it empty.
pub fn take_items(items: &mut Vec<ListItem>) -> (out: Vec<ListItem>)
    ensures
        out@ == old(items)@,
        final(items)@ == Seq::<ListItem>::empty(),
        items_view(final(items)@) == Seq::<ListItemView>::empty(),
{
    let mut out: Vec<ListItem> = Vec::new();
    core::mem::swap(items, &mut out);
    assert(items_view(items@) =~= Seq::<ListItemView>::empty());
    out
}

/// Takes the elements out of `elements` and leaves it empty.
pub fn take_inlines(elements: &mut Vec<InlineElement>) -> (out: Vec<InlineElement>)
    ensures
        out@ == old(elements)@,
        final(elements)@ == Seq::<InlineElement>::empty(),
        inlines_view(final(elements)@) == Seq::<InlineView>::empty(),
{
    let mut out: Vec<InlineElement> = Vec::new();
    core::mem::swap(elements, &mut out);
    assert(inlines_view(elements@) =~= Seq::<InlineView>::empty());
    out
}

/// Takes the strings out of `strings` and leaves it empty.
pub fn take_strings(strings: &mut Vec<String>) -> (out: Vec<String>)
    ensures
        out@ == old(strings)@,
        final(strings)@ == Seq::<String>::empty(),
        strings_view(final(strings)@) == Seq::<Seq<char>>::empty(),
{
    let mut out: Vec<String> = Vec::new();
    core::mem::swap(strings, &mut out);
    assert(strings_view(strings@) =~= Seq::<Seq<char>>::empty());
    out
}

/// Takes the rows out of `rows` and leaves it empty.
pub fn take_rows(rows: &mut Vec<Vec<String>>) -> (out: Vec<Vec<String>>)
    ensures
        out@ == old(rows)@,
        final(rows)@ == Seq::<Vec<String>>::empty(),
        rows_view(final(rows)@) == Seq::<Seq<Seq<char>>>::empty(),
{
    let mut out: Vec<Vec<String>> = Vec::new();
    core::mem::swap(rows, &mut out);
    assert(rows_view(rows@) =~= Seq::<Seq<Seq<char>>>::empty());
    out
}

/// Where the content of a section begins in the source.
#[derive(Debug, Clone, Copy, PartialEq, Eq)]
pub struct Position {
    /// The line at which the content begins.
    pub line: usize,
    /// The byte offset at which the content begins.
    pub offset: usize,
}

/// The content of a section: its text as it is, and the blocks that it parses to.
#[derive(Debug, PartialEq)]
pub struct Content {
    pub raw: String,
    pub blocks: Vec<Block>,
}

/// One heading of a document with its position, its content and the sections below it.
#[derive(Debug, PartialEq)]
pub struct Section {
    pub id: String,
    pub level: usize,
    pub title: String,
    pub slug: String,
    pub position: Position,
    pub content: Content,
    pub children: Vec<Section>,
}

/// What is known of a document as a whole.
#[derive(Debug, PartialEq)]
pub struct DocumentMetadata {
    /// Where the document came from, if that is known.
    pub source: Option<String>,
    /// The number of headings in the document.
    pub heading_count: usize,
    /// The height of the heading tree; 0 for a document without headings.
    pub max_depth: usize,
    /// The number of words in the whole document.
    pub word_count: usize,
}

/// The metadata and the sections of a document.
#[derive(Debug, PartialEq)]
pub struct DocumentRoot {
    pub metadata: DocumentMetadata,
    pub sections: Vec<Section>,
}

/// The exported tree of a document.
#[derive(Debug, PartialEq)]
pub struct DocumentOutput {
    pub document: DocumentRoot,
}

/// The value of a `Content`.
pub struct ContentView {
    pub raw: Seq<char>,
    pub blocks: Seq<BlockView>,
}

/// The value of a `Section`.
pub struct SectionView {
    pub id: Seq<char>,
    pub level: usize,
    pub title: Seq<char>,
    pub slug: Seq<char>,
    pub position: Position,
    pub content: ContentView,
    pub children: Seq<SectionView>,
}

/// The value of a `DocumentMetadata`.
pub struct DocumentMetadataView {
    pub source: Option<Seq<char>>,
    pub heading_count: usize,
    pub max_depth: usize,
    pub word_count: usize,
}

/// The value of a `DocumentRoot`.
pub struct DocumentRootView {
    pub metadata: DocumentMetadataView,
    pub sections: Seq<SectionView>,
}

/// The value of a `DocumentOutput`.
pub struct DocumentOutputView {
    pub document: DocumentRootView,
}

impl View for Content {
    type V = ContentView;

    open spec fn view(&self) -> ContentView {
        ContentView { raw: self.raw@, blocks: blocks_view(self.blocks@) }
    }
}

/// The value of a section, with the values of all sections below it.
pub open spec fn section_view(section: Section) -> SectionView
    decreases section,
{
    SectionView {
        id: section.id@,
        level: section.level,
        title: section.title@,
        slug: section.slug@,
        position: section.position,
        content: section.content@,
        children: sections_view(section.children@),
    }
}

/// The values of a sequence of sections.
pub open spec fn sections_view(s: Seq<Section>) -> Seq<SectionView>
    decreases s,
{
    Seq::new(
        s.len(),
        |i: int|
            if 0 <= i < s.len() {
                section_view(s[i])
            } else {
                SectionView {
                    id: Seq::empty(),
                    level: 0,
                    title: Seq::empty(),
                    slug: Seq::empty(),
                    position: Position { line: 0, offset: 0 },
                    content: ContentView { raw: Seq::empty(), blocks: Seq::empty() },
                    children: Seq::empty(),
                }
            },
    )
}

impl View for Section {
    type V = SectionView;

    open spec fn view(&self) -> SectionView {
        section_view(*self)
    }
}

impl View for DocumentMetadata {
    type V = DocumentMetadataView;

    open spec fn view(&self) -> DocumentMetadataView {
        DocumentMetadataView {
            source: option_view(self.source),
            heading_count: self.heading_count,
            max_depth: self.max_depth,
            word_count: self.word_count,
        }
    }
}

impl View for DocumentRoot {
    type V = DocumentRootView;

    open spec fn view(&self) -> DocumentRootView {
        DocumentRootView { metadata: self.metadata@, sections: sections_view(self.sections@) }
    }
}

impl View for DocumentOutput {
    type V = DocumentOutputView;

    open spec fn view(&self) -> DocumentOutputView {
        DocumentOutputView { document: self.document@ }
    }
}

impl Clone for Content {
    fn clone(&self) -> (res: Self)
        ensures
            res@ == self@,
    {
        Content { raw: self.raw.clone(), blocks: clone_blocks(&self.blocks) }
    }
}

/// A copy of a vector of sections.
pub fn clone_sections(v: &Vec<Section>) -> (res: Vec<Section>)
    ensures
        sections_view(res@) == sections_view(v@),
    decreases v,
{
    let mut res: Vec<Section> = Vec::new();
    let mut i: usize = 0;
    while i < v.len()
        invariant
            i <= v@.len(),
            res@.len() == i,
            forall|j: int| 0 <= j < i ==> section_view(res@[j]) == section_view(v@[j]),
        decreases v@.len() - i,
    {
        res.push(v[i].clone());
        i += 1;
    }
    assert(sections_view(res@) =~= sections_view(v@));
    res
}

impl Clone for Section {
    fn clone(&self) -> (res: Self)
        ensures
            res@ == self@,
        decreases self,
    {
        Section {
            id: self.id.clone(),
            level: self.level,
            title: self.title.clone(),
            slug: self.slug.clone(),
            position: self.position,
            content: self.content.clone(),
            children: clone_sections(&self.children),
        }
    }
}

impl Clone for DocumentMetadata {
    fn clone(&self) -> (res: Self)
        ensures
            res@ == self@,
    {
        DocumentMetadata {
            source: clone_option(&self.source),
            heading_count: self.heading_count,
            max_depth: self.max_depth,
            word_count: self.word_count,
        }
    }
}

impl Clone for DocumentRoot {
    fn clone(&self) -> (res: Self)
        ensures
            res@ == self@,
    {
        DocumentRoot { metadata: self.metadata.clone(), sections: clone_sections(&self.sections) }
    }
}

impl Clone for DocumentOutput {
    fn clone(&self) -> (res: Self)
        ensures
            res@ == self@,
    {
        DocumentOutput { document: self.document.clone() }
    }
}

} // verus!
