//! The state of a parse between two tokens, and what each kind of token
//! does to it.

use super::output::{
    block_view, blocks_view, clone_alignments, clone_option, inlines_view, items_view,
    option_view, push_block, push_inline, push_item, rows_view, strings_view, take_blocks,
    take_inlines, take_items, take_rows, take_string, take_strings, Alignment, Block, BlockView,
    InlineElement, InlineView, ListItem, ListItemView,
};
use super::text::{ends_with_char, trim_end, trim_end_string};
use vstd::prelude::*;

verus! {

/// The value of a `ParagraphState`.
pub struct ParagraphStateView {
    pub buffer: Seq<char>,
    pub inline: Seq<InlineView>,
    pub open: bool,
}

/// The value of a `ListState`.
pub struct ListStateView {
    pub items: Seq<ListItemView>,
    pub ordered: bool,
    pub depth: usize,
    pub item_depth: usize,
    pub task_marker: Option<bool>,
    pub saved_markers: Seq<Option<bool>>,
    pub item_blocks: Seq<BlockView>,
    pub open: bool,
}

/// The value of a `CodeState`.
pub struct CodeStateView {
    pub buffer: Seq<char>,
    pub language: Option<Seq<char>>,
    pub start_line: usize,
    pub open: bool,
}

/// The value of a `QuoteState`.
pub struct QuoteStateView {
    pub buffer: Seq<char>,
    pub open: bool,
}

/// The value of a `TableState`.
pub struct TableStateView {
    pub headers: Seq<Seq<char>>,
    pub alignments: Seq<Alignment>,
    pub rows: Seq<Seq<Seq<char>>>,
    pub row: Seq<Seq<char>>,
    pub open: bool,
}

/// The value of a `HeadingState`.
pub struct HeadingStateView {
    pub level: Option<usize>,
    pub buffer: Seq<char>,
    pub inline: Seq<InlineView>,
    pub open: bool,
}

/// The inline styles that are active.
#[derive(Clone, Copy)]
pub struct StyleState {
    pub strong: bool,
    pub emphasis: bool,
    pub strikethrough: bool,
    pub code: bool,
}

/// The value of a `LinkState`.
pub struct LinkStateView {
    pub url: Seq<char>,
    pub text: Seq<char>,
    pub saved_url: Seq<char>,
    pub open: bool,
    pub image_open: bool,
    pub image_inside: bool,
}

/// The value of a `ParserState`.
pub struct ParserStateView {
    pub current_line: usize,
    pub paragraph: ParagraphStateView,
    pub list: ListStateView,
    pub code: CodeStateView,
    pub quote: QuoteStateView,
    pub table: TableStateView,
    pub heading: HeadingStateView,
    pub style: StyleState,
    pub link: LinkStateView,
}

/// How far a parse has come: the parser's state and the blocks emitted so far.
pub struct Progress {
    pub state: ParserStateView,
    pub blocks: Seq<BlockView>,
}

/// The state in which a parse begins.
pub open spec fn initial_state(start_line: usize) -> ParserStateView {
    ParserStateView {
        current_line: start_line,
        paragraph: ParagraphStateView { buffer: Seq::empty(), inline: Seq::empty(), open: false },
        list: ListStateView {
            items: Seq::empty(),
            ordered: false,
            depth: 0,
            item_depth: 0,
            task_marker: None,
            saved_markers: Seq::empty(),
            item_blocks: Seq::empty(),
            open: false,
        },
        code: CodeStateView { buffer: Seq::empty(), language: None, start_line: 0, open: false },
        quote: QuoteStateView { buffer: Seq::empty(), open: false },
        table: TableStateView {
            headers: Seq::empty(),
            alignments: Seq::empty(),
            rows: Seq::empty(),
            row: Seq::empty(),
            open: false,
        },
        heading: HeadingStateView {
            level: None,
            buffer: Seq::empty(),
            inline: Seq::empty(),
            open: false,
        },
        style: StyleState { strong: false, emphasis: false, strikethrough: false, code: false },
        link: LinkStateView {
            url: Seq::empty(),
            text: Seq::empty(),
            saved_url: Seq::empty(),
            open: false,
            image_open: false,
            image_inside: false,
        },
    }
}

/// A paragraph with nothing in it.
pub open spec fn empty_paragraph(open: bool) -> ParagraphStateView {
    ParagraphStateView { buffer: Seq::empty(), inline: Seq::empty(), open: open }
}

/// The inline element for a run of text, in a paragraph or in a heading: the
/// first active style among inline code, strong, emphasis and strikethrough
/// decides.
pub open spec fn styled(style: StyleState, text: Seq<char>) -> InlineView {
    if style.code {
        InlineView::Code { value: text }
    } else if style.strong {
        InlineView::Strong { value: text }
    } else if style.emphasis {
        InlineView::Emphasis { value: text }
    } else if style.strikethrough {
        InlineView::Strikethrough { value: text }
    } else {
        InlineView::Text { value: text }
    }
}

/// A run of text joins the paragraph buffer, with one inline element in the
/// style `style`; an empty run changes nothing.
pub open spec fn with_inline_text(
    paragraph: ParagraphStateView,
    style: StyleState,
    text: Seq<char>,
) -> ParagraphStateView {
    if text.len() == 0 {
        paragraph
    } else {
        ParagraphStateView {
            inline: paragraph.inline.push(styled(style, text)),
            buffer: paragraph.buffer + text,
            ..paragraph
        }
    }
}

/// The block that a paragraph with text becomes.
pub open spec fn paragraph_block(paragraph: ParagraphStateView) -> BlockView {
    BlockView::Paragraph { content: paragraph.buffer, inline: paragraph.inline }
}

/// A pending paragraph with text becomes a block.
pub open spec fn flushed_paragraph(p: Progress) -> Progress {
    if p.state.paragraph.open && p.state.paragraph.buffer.len() > 0 {
        Progress {
            state: ParserStateView { paragraph: empty_paragraph(false), ..p.state },
            blocks: p.blocks.push(paragraph_block(p.state.paragraph)),
        }
    } else {
        p
    }
}

/// A pending list with items becomes a block.
pub open spec fn flushed_list(p: Progress) -> Progress {
    if p.state.list.open && p.state.list.items.len() > 0 {
        Progress {
            state: ParserStateView {
                list: ListStateView { items: Seq::empty(), open: false, ..p.state.list },
                ..p.state
            },
            blocks: p.blocks.push(
                BlockView::List { ordered: p.state.list.ordered, items: p.state.list.items },
            ),
        }
    } else {
        p
    }
}

/// The code block that the code buffer holds.
pub open spec fn pending_code(s: ParserStateView) -> BlockView {
    BlockView::Code {
        language: s.code.language,
        content: trim_end(s.code.buffer),
        start_line: s.code.start_line,
        end_line: s.current_line,
    }
}

/// The code state once the pending code block has been emitted.
pub open spec fn without_code(code: CodeStateView) -> CodeStateView {
    CodeStateView { buffer: Seq::empty(), language: None, open: false, ..code }
}

/// A pending code block with text becomes a block.
pub open spec fn flushed_code(p: Progress) -> Progress {
    if p.state.code.open && p.state.code.buffer.len() > 0 {
        Progress {
            state: ParserStateView { code: without_code(p.state.code), ..p.state },
            blocks: p.blocks.push(pending_code(p.state)),
        }
    } else {
        p
    }
}

/// A pending table with headers becomes a block; the paragraph buffers are emptied with it.
pub open spec fn flushed_table(p: Progress) -> Progress {
    if p.state.table.open && p.state.table.headers.len() > 0 {
        Progress {
            state: ParserStateView {
                table: TableStateView {
                    headers: Seq::empty(),
                    alignments: Seq::empty(),
                    rows: Seq::empty(),
                    row: Seq::empty(),
                    open: false,
                },
                paragraph: empty_paragraph(p.state.paragraph.open),
                ..p.state
            },
            blocks: p.blocks.push(
                BlockView::Table {
                    headers: p.state.table.headers,
                    alignments: p.state.table.alignments,
                    rows: p.state.table.rows,
                },
            ),
        }
    } else {
        p
    }
}

/// The text `[text](url)`.
pub open spec fn link_markup(text: Seq<char>, url: Seq<char>) -> Seq<char> {
    seq!['['] + text + seq![']', '('] + url + seq![')']
}

/// `depth` times two spaces.
pub open spec fn indentation(depth: nat) -> Seq<char>
    decreases depth,
{
    if depth == 0 {
        Seq::empty()
    } else {
        indentation((depth - 1) as nat) + seq![' ', ' ']
    }
}

/// The checkbox that stands before the text of a nested task list item.
pub open spec fn checkbox(checked: bool) -> Seq<char> {
    if checked {
        seq!['[', 'x', ']', ' ']
    } else {
        seq!['[', ' ', ']', ' ']
    }
}

/// `text`, or nothing where it is empty.
pub open spec fn if_stated(text: Seq<char>) -> Option<Seq<char>> {
    if text.len() == 0 {
        None
    } else {
        Some(text)
    }
}

/// The end of a paragraph: inside a list item the paragraph joins the item's
/// blocks, elsewhere it becomes a block of its own.
pub open spec fn end_paragraph(p: Progress) -> Progress {
    let s = p.state;
    if s.list.item_depth >= 1 && s.paragraph.open && s.paragraph.buffer.len() > 0 {
        Progress {
            state: ParserStateView {
                list: ListStateView {
                    item_blocks: s.list.item_blocks.push(paragraph_block(s.paragraph)),
                    ..s.list
                },
                paragraph: empty_paragraph(false),
                ..s
            },
            blocks: p.blocks,
        }
    } else {
        flushed_paragraph(p)
    }
}

/// The end of a code block: inside a list item the code joins the item's
/// blocks, elsewhere it becomes a block of its own.
pub open spec fn end_code_block(p: Progress) -> Progress {
    let s = p.state;
    if s.list.item_depth >= 1 && s.code.open && s.code.buffer.len() > 0 {
        Progress {
            state: ParserStateView {
                list: ListStateView {
                    item_blocks: s.list.item_blocks.push(pending_code(s)),
                    ..s.list
                },
                code: without_code(s.code),
                ..s
            },
            blocks: p.blocks,
        }
    } else {
        flushed_code(p)
    }
}

/// The start of a list: only the outermost list sets the list's properties.
pub open spec fn start_list(list: ListStateView, first: Option<u64>) -> ListStateView {
    if list.depth == 0 {
        ListStateView { depth: 1, open: true, ordered: first is Some, ..list }
    } else {
        ListStateView { depth: (list.depth + 1) as usize, ..list }
    }
}

/// The end of a list: only the end of the outermost list emits the list.
pub open spec fn end_list(p: Progress) -> Progress {
    if p.state.list.depth <= 1 {
        flushed_list(
            Progress {
                state: ParserStateView {
                    list: ListStateView { depth: 0, ..p.state.list },
                    ..p.state
                },
                blocks: p.blocks,
            },
        )
    } else {
        Progress {
            state: ParserStateView {
                list: ListStateView { depth: (p.state.list.depth - 1) as usize, ..p.state.list },
                ..p.state
            },
            blocks: p.blocks,
        }
    }
}

/// The start of a list item: a nested item sets the pending task marker
/// aside, an outermost item starts with empty buffers.
pub open spec fn start_item(s: ParserStateView) -> ParserStateView {
    if s.list.item_depth >= 1 {
        ParserStateView {
            list: ListStateView {
                item_depth: (s.list.item_depth + 1) as usize,
                saved_markers: s.list.saved_markers.push(s.list.task_marker),
                task_marker: None,
                ..s.list
            },
            ..s
        }
    } else {
        ParserStateView {
            list: ListStateView { item_depth: 1, item_blocks: Seq::empty(), ..s.list },
            paragraph: empty_paragraph(s.paragraph.open),
            ..s
        }
    }
}

/// The item that an outermost list item leaves: a tight item takes text and
/// inline elements from the buffers; a loose item takes them from its first
/// paragraph, which leaves its blocks; any other item has neither.
pub open spec fn finished_item(s: ParserStateView) -> ListItemView {
    let blocks = s.list.item_blocks;
    if s.paragraph.buffer.len() > 0 {
        ListItemView {
            checked: s.list.task_marker,
            content: s.paragraph.buffer,
            inline: s.paragraph.inline,
            blocks: blocks,
        }
    } else if blocks.len() > 0 && blocks[0] is Paragraph {
        ListItemView {
            checked: s.list.task_marker,
            content: blocks[0]->Paragraph_content,
            inline: blocks[0]->Paragraph_inline,
            blocks: blocks.subrange(1, blocks.len() as int),
        }
    } else {
        ListItemView {
            checked: s.list.task_marker,
            content: Seq::empty(),
            inline: Seq::empty(),
            blocks: blocks,
        }
    }
}

/// The end of a list item: a nested item restores the task marker that was
/// set aside, an outermost item joins the list.
pub open spec fn end_item(s: ParserStateView) -> ParserStateView {
    if s.list.item_depth > 1 {
        if s.list.saved_markers.len() > 0 {
            ParserStateView {
                list: ListStateView {
                    item_depth: (s.list.item_depth - 1) as usize,
                    task_marker: s.list.saved_markers.last(),
                    saved_markers: s.list.saved_markers.drop_last(),
                    ..s.list
                },
                ..s
            }
        } else {
            ParserStateView {
                list: ListStateView { item_depth: (s.list.item_depth - 1) as usize, ..s.list },
                ..s
            }
        }
    } else if s.list.item_depth == 1 {
        ParserStateView {
            list: ListStateView {
                item_depth: 0,
                items: s.list.items.push(finished_item(s)),
                item_blocks: Seq::empty(),
                task_marker: None,
                ..s.list
            },
            paragraph: empty_paragraph(s.paragraph.open),
            ..s
        }
    } else {
        s
    }
}

/// The destination that a link element gets: the link's own, or the outer one
/// where an image stood inside the link.
pub open spec fn link_target(link: LinkStateView) -> Seq<char> {
    if link.image_inside {
        link.saved_url
    } else {
        link.url
    }
}

/// The end of a link: one link element joins the paragraph.
pub open spec fn end_link(s: ParserStateView) -> ParserStateView {
    ParserStateView {
        paragraph: ParagraphStateView {
            inline: s.paragraph.inline.push(
                InlineView::Link { text: s.link.text, url: link_target(s.link), title: None },
            ),
            buffer: s.paragraph.buffer + link_markup(s.link.text, link_target(s.link)),
            ..s.paragraph
        },
        link: LinkStateView {
            open: false,
            text: Seq::empty(),
            url: Seq::empty(),
            saved_url: Seq::empty(),
            image_inside: false,
            ..s.link
        },
        ..s
    }
}

/// The start of an image: inside a link the link's destination is set aside;
/// the image's title waits in the paragraph buffer.
pub open spec fn start_image(
    s: ParserStateView,
    dest: Seq<char>,
    title: Seq<char>,
) -> ParserStateView {
    ParserStateView {
        link: LinkStateView {
            image_inside: s.link.open || s.link.image_inside,
            saved_url: if s.link.open {
                s.link.url
            } else {
                s.link.saved_url
            },
            image_open: true,
            url: dest,
            text: Seq::empty(),
            ..s.link
        },
        paragraph: ParagraphStateView { buffer: title, ..s.paragraph },
        ..s
    }
}

/// The link state once an image that stood on its own has been emitted.
pub open spec fn without_image(link: LinkStateView) -> LinkStateView {
    LinkStateView { image_open: false, text: Seq::empty(), url: Seq::empty(), ..link }
}

/// The end of an image: inside a link nothing is emitted; inside a paragraph
/// the image becomes an inline element; elsewhere it becomes a block.
pub open spec fn end_image(p: Progress) -> Progress {
    let s = p.state;
    if s.link.image_inside {
        Progress {
            state: ParserStateView { link: LinkStateView { image_open: false, ..s.link }, ..s },
            blocks: p.blocks,
        }
    } else if s.paragraph.open {
        Progress {
            state: ParserStateView {
                link: without_image(s.link),
                paragraph: ParagraphStateView {
                    inline: s.paragraph.inline.push(
                        InlineView::Image {
                            alt: s.link.text,
                            src: s.link.url,
                            title: if_stated(s.paragraph.buffer),
                        },
                    ),
                    buffer: Seq::empty(),
                    ..s.paragraph
                },
                ..s
            },
            blocks: p.blocks,
        }
    } else {
        Progress {
            state: ParserStateView {
                link: without_image(s.link),
                paragraph: ParagraphStateView { buffer: Seq::empty(), ..s.paragraph },
                ..s
            },
            blocks: p.blocks.push(
                BlockView::Image {
                    alt: s.link.text,
                    src: s.link.url,
                    title: if_stated(s.paragraph.buffer),
                },
            ),
        }
    }
}

/// The paragraph buffer once the text of a nested list item has been begun:
/// on a line of its own, indented by two spaces for each level below the
/// first, with its checkbox if one is pending.
pub open spec fn nested_item_prefix(buffer: Seq<char>, list: ListStateView) -> Seq<char> {
    let broken = if buffer.len() > 0 && buffer.last() != '\n' {
        buffer.push('\n')
    } else {
        buffer
    };
    let indented = broken + indentation((list.item_depth - 1) as nat);
    match list.task_marker {
        Some(checked) => indented + checkbox(checked),
        None => indented,
    }
}

/// A run of text goes to the code block, the block quote, the heading or the
/// link that is open, in this order, and else to the paragraph buffer.
pub open spec fn text_run(s: ParserStateView, text: Seq<char>) -> ParserStateView {
    if s.code.open {
        ParserStateView { code: CodeStateView { buffer: s.code.buffer + text, ..s.code }, ..s }
    } else if s.quote.open {
        ParserStateView { quote: QuoteStateView { buffer: s.quote.buffer + text, ..s.quote }, ..s }
    } else if s.heading.open {
        ParserStateView {
            heading: HeadingStateView {
                buffer: s.heading.buffer + text,
                inline: s.heading.inline.push(styled(s.style, text)),
                ..s.heading
            },
            ..s
        }
    } else if s.link.open || s.link.image_open {
        ParserStateView { link: LinkStateView { text: s.link.text + text, ..s.link }, ..s }
    } else if s.list.open && s.list.item_depth > 1 {
        ParserStateView {
            paragraph: with_inline_text(
                ParagraphStateView {
                    buffer: nested_item_prefix(s.paragraph.buffer, s.list),
                    ..s.paragraph
                },
                s.style,
                text,
            ),
            list: ListStateView { task_marker: None, ..s.list },
            ..s
        }
    } else {
        ParserStateView { paragraph: with_inline_text(s.paragraph, s.style, text), ..s }
    }
}

/// A line break inside a paragraph joins the buffers as the character `c`.
pub open spec fn line_break(paragraph: ParagraphStateView, c: char) -> ParagraphStateView {
    if paragraph.open {
        ParagraphStateView {
            buffer: paragraph.buffer.push(c),
            inline: paragraph.inline.push(InlineView::Text { value: seq![c] }),
            ..paragraph
        }
    } else {
        paragraph
    }
}

/// A heading with nothing in it.
pub open spec fn no_heading() -> HeadingStateView {
    HeadingStateView { level: None, buffer: Seq::empty(), inline: Seq::empty(), open: false }
}

/// The end of a heading: a heading with text becomes a block.
pub open spec fn end_heading(p: Progress) -> Progress {
    let h = p.state.heading;
    Progress {
        state: ParserStateView { heading: no_heading(), ..p.state },
        blocks: if h.open && h.buffer.len() > 0 && h.level is Some {
            p.blocks.push(
                BlockView::Heading { level: h.level->0, content: h.buffer, inline: h.inline },
            )
        } else {
            p.blocks
        },
    }
}

/// `p` with its state replaced by `state`.
pub open spec fn with_state(p: Progress, state: ParserStateView) -> Progress {
    Progress { state: state, blocks: p.blocks }
}

/// The start of a code block with the given language.
pub open spec fn start_code(s: ParserStateView, language: Option<Seq<char>>) -> ParserStateView {
    ParserStateView {
        code: CodeStateView {
            open: true,
            start_line: s.current_line,
            language: language,
            ..s.code
        },
        ..s
    }
}

/// The state with `style` as the active styles.
pub open spec fn with_style(s: ParserStateView, style: StyleState) -> ParserStateView {
    ParserStateView { style: style, ..s }
}

/// The state with `table` as the table that is gathered.
pub open spec fn with_table(s: ParserStateView, table: TableStateView) -> ParserStateView {
    ParserStateView { table: table, ..s }
}

/// The paragraph that is gathered: its text, its inline elements, and whether one is open.
pub struct ParagraphState {
    pub buffer: String,
    pub inline: Vec<InlineElement>,
    pub open: bool,
}

/// The list that is gathered.
pub struct ListState {
    pub items: Vec<ListItem>,
    pub ordered: bool,
    /// How many lists are open, one inside the other.
    pub depth: usize,
    /// How many list items are open, one inside the other.
    pub item_depth: usize,
    /// The task marker that waits for the text of its item.
    pub task_marker: Option<bool>,
    /// The task markers that were set aside at the start of nested items.
    pub saved_markers: Vec<Option<bool>>,
    /// Blocks gathered inside the current outermost item.
    pub item_blocks: Vec<Block>,
    pub open: bool,
}

/// The code block that is gathered.
pub struct CodeState {
    pub buffer: String,
    pub language: Option<String>,
    pub start_line: usize,
    pub open: bool,
}

/// The block quote that is gathered.
pub struct QuoteState {
    pub buffer: String,
    pub open: bool,
}

/// The table that is gathered.
pub struct TableState {
    pub headers: Vec<String>,
    pub alignments: Vec<Alignment>,
    pub rows: Vec<Vec<String>>,
    /// The cells of the row that is open.
    pub row: Vec<String>,
    pub open: bool,
}

/// The heading that is gathered.
pub struct HeadingState {
    pub level: Option<usize>,
    pub buffer: String,
    pub inline: Vec<InlineElement>,
    pub open: bool,
}

/// The link or image that is gathered.
pub struct LinkState {
    pub url: String,
    pub text: String,
    /// The destination of the link around an image.
    pub saved_url: String,
    pub open: bool,
    pub image_open: bool,
    /// Whether an image stood inside the link that is open.
    pub image_inside: bool,
}

/// The state of a parse between two tokens: what is open, and what has been
/// gathered for it.
pub struct ParserState {
    pub current_line: usize,
    pub paragraph: ParagraphState,
    pub list: ListState,
    pub code: CodeState,
    pub quote: QuoteState,
    pub table: TableState,
    pub heading: HeadingState,
    pub style: StyleState,
    pub link: LinkState,
    /// How many block quotes may still be parsed one inside another: the text
    /// of a block quote is parsed with a budget that is smaller by one.
    pub budget: usize,
}

impl View for ParagraphState {
    type V = ParagraphStateView;

    open spec fn view(&self) -> ParagraphStateView {
        ParagraphStateView {
            buffer: self.buffer@,
            inline: inlines_view(self.inline@),
            open: self.open,
        }
    }
}

impl View for ListState {
    type V = ListStateView;

    open spec fn view(&self) -> ListStateView {
        ListStateView {
            items: items_view(self.items@),
            ordered: self.ordered,
            depth: self.depth,
            item_depth: self.item_depth,
            task_marker: self.task_marker,
            saved_markers: self.saved_markers@,
            item_blocks: blocks_view(self.item_blocks@),
            open: self.open,
        }
    }
}

impl View for CodeState {
    type V = CodeStateView;

    open spec fn view(&self) -> CodeStateView {
        CodeStateView {
            buffer: self.buffer@,
            language: option_view(self.language),
            start_line: self.start_line,
            open: self.open,
        }
    }
}

impl View for QuoteState {
    type V = QuoteStateView;

    open spec fn view(&self) -> QuoteStateView {
        QuoteStateView { buffer: self.buffer@, open: self.open }
    }
}

impl View for TableState {
    type V = TableStateView;

    open spec fn view(&self) -> TableStateView {
        TableStateView {
            headers: strings_view(self.headers@),
            alignments: self.alignments@,
            rows: rows_view(self.rows@),
            row: strings_view(self.row@),
            open: self.open,
        }
    }
}

impl View for HeadingState {
    type V = HeadingStateView;

    open spec fn view(&self) -> HeadingStateView {
        HeadingStateView {
            level: self.level,
            buffer: self.buffer@,
            inline: inlines_view(self.inline@),
            open: self.open,
        }
    }
}

impl View for LinkState {
    type V = LinkStateView;

    open spec fn view(&self) -> LinkStateView {
        LinkStateView {
            url: self.url@,
            text: self.text@,
            saved_url: self.saved_url@,
            open: self.open,
            image_open: self.image_open,
            image_inside: self.image_inside,
        }
    }
}

impl View for ParserState {
    type V = ParserStateView;

    open spec fn view(&self) -> ParserStateView {
        ParserStateView {
            current_line: self.current_line,
            paragraph: self.paragraph@,
            list: self.list@,
            code: self.code@,
            quote: self.quote@,
            table: self.table@,
            heading: self.heading@,
            style: self.style,
            link: self.link@,
        }
    }
}

/// The parse that `state` and `blocks` stand for.
pub open spec fn progress(state: ParserState, blocks: Vec<Block>) -> Progress {
    Progress { state: state@, blocks: blocks_view(blocks@) }
}

/// The inline element for the run of text `value` in the style `style`.
pub fn styled_element(style: StyleState, value: String) -> (element: InlineElement)
    ensures
        element@ == styled(style, value@),
{
    if style.code {
        InlineElement::Code { value }
    } else if style.strong {
        InlineElement::Strong { value }
    } else if style.emphasis {
        InlineElement::Emphasis { value }
    } else if style.strikethrough {
        InlineElement::Strikethrough { value }
    } else {
        InlineElement::Text { value }
    }
}

impl ParagraphState {
    /// Empties the buffers.
    pub fn clear(&mut self)
        ensures
            final(self)@ == empty_paragraph(old(self).open),
    {
        self.buffer = String::new();
        self.inline = Vec::new();
        assert(inlines_view(self.inline@) =~= Seq::empty());
    }

    /// The block that the paragraph becomes; the paragraph is left empty and closed.
    pub fn take_block(&mut self) -> (block: Block)
        ensures
            block@ == paragraph_block(old(self)@),
            final(self)@ == empty_paragraph(false),
    {
        let content = take_string(&mut self.buffer);
        let inline = take_inlines(&mut self.inline);
        self.open = false;
        Block::Paragraph { content, inline }
    }

    /// Adds a run of text, as one inline element in the style `style`.
    pub fn add_text(&mut self, style: StyleState, text: &str)
        ensures
            final(self)@ == with_inline_text(old(self)@, style, text@),
    {
        if !text.is_empty() {
            push_inline(&mut self.inline, styled_element(style, text.to_owned()));
            self.buffer.append(text);
        }
    }

    /// A line break, which stands as the character `c`.
    pub fn line_break(&mut self, c: char)
        ensures
            final(self)@ == line_break(old(self)@, c),
    {
        if self.open {
            self.buffer.push(c);
            let mut value = String::new();
            value.push(c);
            assert(value@ =~= seq![c]);
            push_inline(&mut self.inline, InlineElement::Text { value });
        }
    }
}

impl ListState {
    /// The start of a list.
    pub fn start_list(&mut self, first: &Option<u64>)
        requires
            old(self).depth < usize::MAX,
        ensures
            final(self)@ == start_list(old(self)@, *first),
    {
        if self.depth == 0 {
            self.depth = 1;
            self.open = true;
            self.ordered = first.is_some();
        } else {
            self.depth += 1;
        }
    }

    /// Begins the text of a nested list item in `buffer`.
    pub fn nested_item_prefix(&mut self, buffer: &mut String)
        requires
            old(self).item_depth > 1,
        ensures
            final(buffer)@ == nested_item_prefix(old(buffer)@, old(self)@),
            final(self)@ == (ListStateView { task_marker: None, ..old(self)@ }),
    {
        if !buffer.as_str().is_empty() && !ends_with_char(buffer.as_str(), '\n') {
            buffer.push('\n');
        }
        let ghost broken = buffer@;
        let mut level: usize = 0;
        while level < self.item_depth - 1
            invariant
                level <= self.item_depth - 1,
                self.item_depth > 1,
                buffer@ == broken + indentation(level as nat),
            decreases self.item_depth - 1 - level,
        {
            buffer.push(' ');
            buffer.push(' ');
            level += 1;
            assert(buffer@ =~= broken + indentation(level as nat));
        }
        match self.task_marker {
            Some(checked) => {
                buffer.push('[');
                buffer.push(
                    if checked {
                        'x'
                    } else {
                        ' '
                    },
                );
                buffer.push(']');
                buffer.push(' ');
                assert(buffer@ =~= broken + indentation((self.item_depth - 1) as nat) + checkbox(
                    checked,
                ));
            },
            None => {},
        }
        self.task_marker = None;
    }
}

impl CodeState {
    /// The code block that the buffer holds, which ends at `end_line`; the
    /// state is left empty and closed.
    pub fn take_block(&mut self, end_line: usize) -> (block: Block)
        ensures
            block@ == (BlockView::Code {
                language: old(self)@.language,
                content: trim_end(old(self)@.buffer),
                start_line: old(self)@.start_line,
                end_line: end_line,
            }),
            final(self)@ == without_code(old(self)@),
    {
        let content = trim_end_string(self.buffer.as_str());
        let language = clone_option(&self.language);
        self.buffer = String::new();
        self.language = None;
        self.open = false;
        Block::Code { language, content, start_line: self.start_line, end_line }
    }
}

impl TableState {
    /// The table that was gathered; the state is left empty and closed.
    pub fn take_block(&mut self) -> (block: Block)
        ensures
            block@ == (BlockView::Table {
                headers: old(self)@.headers,
                alignments: old(self)@.alignments,
                rows: old(self)@.rows,
            }),
            final(self)@ == (TableStateView {
                headers: Seq::empty(),
                alignments: Seq::empty(),
                rows: Seq::empty(),
                row: Seq::empty(),
                open: false,
            }),
    {
        let headers = take_strings(&mut self.headers);
        let alignments = clone_alignments(&self.alignments);
        let rows = take_rows(&mut self.rows);
        self.alignments = Vec::new();
        self.row = Vec::new();
        self.open = false;
        assert(strings_view(self.row@) =~= Seq::empty());
        Block::Table { headers, alignments, rows }
    }
}

impl HeadingState {
    /// The start of a heading of the given level.
    pub fn start(&mut self, level: usize)
        ensures
            final(self)@ == (HeadingStateView {
                open: true,
                level: Some(level),
                buffer: Seq::empty(),
                inline: Seq::empty(),
            }),
    {
        self.open = true;
        self.level = Some(level);
        self.buffer = String::new();
        self.inline = Vec::new();
        assert(inlines_view(self.inline@) =~= Seq::empty());
    }

    /// Adds a run of text, as one inline element in the style `style`.
    pub fn add_text(&mut self, style: StyleState, text: &String)
        ensures
            final(self)@ == (HeadingStateView {
                buffer: old(self)@.buffer + text@,
                inline: old(self)@.inline.push(styled(style, text@)),
                ..old(self)@
            }),
    {
        self.buffer.append(text.as_str());
        push_inline(&mut self.inline, styled_element(style, text.clone()));
    }
}

impl LinkState {
    /// The start of a link to `dest`.
    pub fn start(&mut self, dest: &String)
        ensures
            final(self)@ == (LinkStateView {
                open: true,
                url: dest@,
                text: Seq::empty(),
                ..old(self)@
            }),
    {
        self.open = true;
        self.url = dest.clone();
        self.text = String::new();
    }

    /// The start of an image whose source is `dest`.
    pub fn start_image(&mut self, dest: &String)
        ensures
            final(self)@ == (LinkStateView {
                image_inside: old(self)@.open || old(self)@.image_inside,
                saved_url: if old(self)@.open {
                    old(self)@.url
                } else {
                    old(self)@.saved_url
                },
                image_open: true,
                url: dest@,
                text: Seq::empty(),
                ..old(self)@
            }),
    {
        if self.open {
            self.image_inside = true;
            self.saved_url = self.url.clone();
        }
        self.image_open = true;
        self.url = dest.clone();
        self.text = String::new();
    }

    /// The link element that the link becomes; the state is left empty and closed.
    pub fn take_link(&mut self) -> (link: InlineElement)
        ensures
            link@ == (InlineView::Link {
                text: old(self)@.text,
                url: link_target(old(self)@),
                title: None,
            }),
            final(self)@ == (LinkStateView {
                open: false,
                text: Seq::empty(),
                url: Seq::empty(),
                saved_url: Seq::empty(),
                image_inside: false,
                ..old(self)@
            }),
    {
        let text = take_string(&mut self.text);
        let own = take_string(&mut self.url);
        let outer = take_string(&mut self.saved_url);
        let url = if self.image_inside {
            outer
        } else {
            own
        };
        self.open = false;
        self.image_inside = false;
        InlineElement::Link { text, url, title: None }
    }
}

/// Appends `[text](url)` to `buffer`.
pub fn push_link_markup(buffer: &mut String, text: &str, url: &str)
    ensures
        final(buffer)@ == old(buffer)@ + link_markup(text@, url@),
{
    buffer.push('[');
    buffer.append(text);
    buffer.push(']');
    buffer.push('(');
    buffer.append(url);
    buffer.push(')');
    assert(buffer@ =~= old(buffer)@ + link_markup(text@, url@));
}

/// `text`, or nothing where it is empty.
pub fn stated(text: String) -> (out: Option<String>)
    ensures
        option_view(out) == if_stated(text@),
{
    if text.as_str().is_empty() {
        None
    } else {
        Some(text)
    }
}

impl ParserState {
    /// The state in which a parse with the given budget of nested block quotes begins.
    pub fn new(start_line: usize, budget: usize) -> (state: Self)
        ensures
            state@ == initial_state(start_line),
            state.budget == budget,
    {
        let state = ParserState {
            current_line: start_line,
            paragraph: ParagraphState { buffer: String::new(), inline: Vec::new(), open: false },
            list: ListState {
                items: Vec::new(),
                ordered: false,
                depth: 0,
                item_depth: 0,
                task_marker: None,
                saved_markers: Vec::new(),
                item_blocks: Vec::new(),
                open: false,
            },
            code: CodeState { buffer: String::new(), language: None, start_line: 0, open: false },
            quote: QuoteState { buffer: String::new(), open: false },
            table: TableState {
                headers: Vec::new(),
                alignments: Vec::new(),
                rows: Vec::new(),
                row: Vec::new(),
                open: false,
            },
            heading: HeadingState {
                level: None,
                buffer: String::new(),
                inline: Vec::new(),
                open: false,
            },
            style: StyleState { strong: false, emphasis: false, strikethrough: false, code: false },
            link: LinkState {
                url: String::new(),
                text: String::new(),
                saved_url: String::new(),
                open: false,
                image_open: false,
                image_inside: false,
            },
            budget,
        };
        assert(state.paragraph@.inline =~= Seq::empty());
        assert(state.list@.items =~= Seq::empty());
        assert(state.list@.item_blocks =~= Seq::empty());
        assert(state.table@.headers =~= Seq::empty());
        assert(state.table@.rows =~= Seq::empty());
        assert(state.table@.row =~= Seq::empty());
        assert(state.heading@.inline =~= Seq::empty());
        state
    }

    /// Emits the pending paragraph, if it has text.
    pub fn flush_paragraph(&mut self, blocks: &mut Vec<Block>)
        ensures
            progress(*final(self), *final(blocks)) == flushed_paragraph(
                progress(*old(self), *old(blocks)),
            ),
            final(self).budget == old(self).budget,
    {
        if self.paragraph.open && !self.paragraph.buffer.as_str().is_empty() {
            let block = self.paragraph.take_block();
            push_block(blocks, block);
        }
    }

    /// Emits the pending list, if it has items.
    pub fn flush_list(&mut self, blocks: &mut Vec<Block>)
        ensures
            progress(*final(self), *final(blocks)) == flushed_list(
                progress(*old(self), *old(blocks)),
            ),
            final(self).budget == old(self).budget,
    {
        if self.list.open && self.list.items.len() > 0 {
            let items = take_items(&mut self.list.items);
            push_block(blocks, Block::List { ordered: self.list.ordered, items });
            self.list.open = false;
        }
    }

    /// Emits the pending code block, if it has text.
    pub fn flush_code(&mut self, blocks: &mut Vec<Block>)
        ensures
            progress(*final(self), *final(blocks)) == flushed_code(
                progress(*old(self), *old(blocks)),
            ),
            final(self).budget == old(self).budget,
    {
        if self.code.open && !self.code.buffer.as_str().is_empty() {
            let block = self.code.take_block(self.current_line);
            push_block(blocks, block);
        }
    }

    /// Emits the pending table, if it has headers.
    pub fn flush_table(&mut self, blocks: &mut Vec<Block>)
        ensures
            progress(*final(self), *final(blocks)) == flushed_table(
                progress(*old(self), *old(blocks)),
            ),
            final(self).budget == old(self).budget,
    {
        if self.table.open && self.table.headers.len() > 0 {
            let block = self.table.take_block();
            push_block(blocks, block);
            self.paragraph.clear();
        }
    }

    /// Adds a run of text to the paragraph buffer, as one inline element in
    /// the style that is active.
    pub fn add_inline_text(&mut self, text: &str)
        ensures
            final(self)@ == (ParserStateView {
                paragraph: with_inline_text(old(self)@.paragraph, old(self)@.style, text@),
                ..old(self)@
            }),
            final(self).budget == old(self).budget,
    {
        self.paragraph.add_text(self.style, text);
    }

    /// The end of a paragraph.
    pub fn end_paragraph(&mut self, blocks: &mut Vec<Block>)
        ensures
            progress(*final(self), *final(blocks)) == end_paragraph(
                progress(*old(self), *old(blocks)),
            ),
            final(self).budget == old(self).budget,
    {
        if self.list.item_depth >= 1 && self.paragraph.open
            && !self.paragraph.buffer.as_str().is_empty() {
            let block = self.paragraph.take_block();
            push_block(&mut self.list.item_blocks, block);
        } else {
            self.flush_paragraph(blocks);
        }
    }

    /// The end of a code block.
    pub fn end_code_block(&mut self, blocks: &mut Vec<Block>)
        ensures
            progress(*final(self), *final(blocks)) == end_code_block(
                progress(*old(self), *old(blocks)),
            ),
            final(self).budget == old(self).budget,
    {
        if self.list.item_depth >= 1 && self.code.open && !self.code.buffer.as_str().is_empty() {
            let block = self.code.take_block(self.current_line);
            push_block(&mut self.list.item_blocks, block);
        } else {
            self.flush_code(blocks);
        }
    }

    /// The end of a list.
    pub fn end_list(&mut self, blocks: &mut Vec<Block>)
        ensures
            progress(*final(self), *final(blocks)) == end_list(progress(*old(self), *old(blocks))),
            final(self).budget == old(self).budget,
    {
        if self.list.depth <= 1 {
            self.list.depth = 0;
            self.flush_list(blocks);
        } else {
            self.list.depth -= 1;
        }
    }

    /// The start of a list item.
    pub fn start_item(&mut self)
        requires
            old(self).list.item_depth < usize::MAX,
        ensures
            final(self)@ == start_item(old(self)@),
            final(self).budget == old(self).budget,
    {
        if self.list.item_depth >= 1 {
            self.list.saved_markers.push(self.list.task_marker);
            self.list.task_marker = None;
            self.list.item_depth += 1;
        } else {
            self.paragraph.clear();
            self.list.item_blocks = Vec::new();
            self.list.item_depth = 1;
            assert(blocks_view(self.list.item_blocks@) =~= Seq::empty());
        }
    }

    /// The item that ends at an outermost list item; the buffers are left empty.
    pub fn take_item(&mut self) -> (item: ListItem)
        ensures
            item@ == finished_item(old(self)@),
            final(self)@ == (ParserStateView {
                paragraph: empty_paragraph(old(self)@.paragraph.open),
                list: ListStateView { item_blocks: Seq::empty(), ..old(self)@.list },
                ..old(self)@
            }),
            final(self).budget == old(self).budget,
    {
        let checked = self.list.task_marker;
        let content = take_string(&mut self.paragraph.buffer);
        let inline = take_inlines(&mut self.paragraph.inline);
        let mut blocks = take_blocks(&mut self.list.item_blocks);
        let ghost all = blocks@;
        if !content.as_str().is_empty() {
            ListItem { checked, content, inline, blocks }
        } else if blocks.len() > 0 && matches!(blocks[0], Block::Paragraph { .. }) {
            let first = blocks.remove(0);
            assert(blocks_view(blocks@) =~= blocks_view(all).subrange(1, all.len() as int));
            assert(blocks_view(all)[0] == block_view(first));
            match first {
                Block::Paragraph { content, inline } => ListItem {
                    checked,
                    content,
                    inline,
                    blocks,
                },
                _ => ListItem { checked, content, inline, blocks },
            }
        } else {
            assert(all.len() > 0 ==> blocks_view(all)[0] == block_view(all[0]));
            assert(content@ =~= Seq::empty());
            let inline: Vec<InlineElement> = Vec::new();
            assert(inlines_view(inline@) =~= Seq::empty());
            ListItem { checked, content, inline, blocks }
        }
    }

    /// The end of a list item.
    pub fn end_item(&mut self)
        ensures
            final(self)@ == end_item(old(self)@),
            final(self).budget == old(self).budget,
    {
        if self.list.item_depth > 1 {
            match self.list.saved_markers.pop() {
                Some(saved) => {
                    self.list.task_marker = saved;
                },
                None => {},
            }
            self.list.item_depth -= 1;
        } else if self.list.item_depth == 1 {
            let item = self.take_item();
            push_item(&mut self.list.items, item);
            self.list.task_marker = None;
            self.list.item_depth = 0;
        }
    }

    /// The end of a link.
    pub fn end_link(&mut self)
        ensures
            final(self)@ == end_link(old(self)@),
            final(self).budget == old(self).budget,
    {
        let link = self.link.take_link();
        match &link {
            InlineElement::Link { text, url, .. } => {
                push_link_markup(&mut self.paragraph.buffer, text.as_str(), url.as_str());
            },
            _ => {},
        }
        push_inline(&mut self.paragraph.inline, link);
    }

    /// The start of an image.
    pub fn start_image(&mut self, dest: &String, title: &String)
        ensures
            final(self)@ == start_image(old(self)@, dest@, title@),
            final(self).budget == old(self).budget,
    {
        self.link.start_image(dest);
        self.paragraph.buffer = title.clone();
    }

    /// The end of an image.
    pub fn end_image(&mut self, blocks: &mut Vec<Block>)
        ensures
            progress(*final(self), *final(blocks)) == end_image(progress(*old(self), *old(blocks))),
            final(self).budget == old(self).budget,
    {
        if self.link.image_inside {
            self.link.image_open = false;
        } else {
            let alt = take_string(&mut self.link.text);
            let src = take_string(&mut self.link.url);
            let title = stated(take_string(&mut self.paragraph.buffer));
            self.link.image_open = false;
            if self.paragraph.open {
                push_inline(&mut self.paragraph.inline, InlineElement::Image { alt, src, title });
            } else {
                push_block(blocks, Block::Image { alt, src, title });
            }
        }
    }

    /// The end of a heading.
    pub fn end_heading(&mut self, blocks: &mut Vec<Block>)
        ensures
            progress(*final(self), *final(blocks)) == end_heading(
                progress(*old(self), *old(blocks)),
            ),
            final(self).budget == old(self).budget,
    {
        let level = if self.heading.open && !self.heading.buffer.as_str().is_empty() {
            self.heading.level
        } else {
            None
        };
        let content = take_string(&mut self.heading.buffer);
        let inline = take_inlines(&mut self.heading.inline);
        self.heading.open = false;
        self.heading.level = None;
        match level {
            Some(level) => {
                push_block(blocks, Block::Heading { level, content, inline });
            },
            None => {},
        }
    }

    /// A run of text.
    pub fn text_run(&mut self, text: &String)
        ensures
            final(self)@ == text_run(old(self)@, text@),
            final(self).budget == old(self).budget,
    {
        if self.code.open {
            self.code.buffer.append(text.as_str());
        } else if self.quote.open {
            self.quote.buffer.append(text.as_str());
        } else if self.heading.open {
            self.heading.add_text(self.style, text);
        } else if self.link.open || self.link.image_open {
            self.link.text.append(text.as_str());
        } else if self.list.open && self.list.item_depth > 1 {
            self.list.nested_item_prefix(&mut self.paragraph.buffer);
            self.paragraph.add_text(self.style, text.as_str());
        } else {
            self.paragraph.add_text(self.style, text.as_str());
        }
    }
}

} // verus!
