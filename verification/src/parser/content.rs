//! Content parsing for markdown sections: a fragment of markdown becomes an
//! ordered sequence of typed blocks, each with its inline elements.

use super::details::{
    details_at, details_regions, lemma_details_regions_shorter, placeholder_index,
    placeholder_index_of, push_placeholder, region_at, without_details, DetailsRegion,
};
use super::events::{
    is_block_end, is_block_start, is_leaf, is_link_part, is_style, is_table_part,
    level_in_range, levels_in_range, markdown_tokens, tokenize, Token,
};
use super::output::{
    block_view, blocks_view, clone_alignments, push_block, push_row, push_string, take_string,
    take_strings, Block, BlockView,
};
pub use super::slug::slugify;
pub use super::state::ParserState;
use super::state::{
    empty_paragraph, end_code_block, end_heading, end_image, end_item, end_link, end_list,
    end_paragraph, flushed_code, flushed_list, flushed_paragraph, flushed_table, if_stated,
    initial_state, line_break, paragraph_block, pending_code, progress, start_code,
    start_image, start_item, start_list, stated, text_run, with_inline_text, with_state,
    with_style, with_table, HeadingStateView, LinkStateView, ListStateView, ParagraphStateView,
    ParserStateView, Progress, QuoteStateView, StyleState, TableStateView,
};
use super::text::chars_of;
use vstd::prelude::*;

verus! {

/// The blocks of the text of a block quote: the text is parsed in turn, with
/// a budget that is smaller by one. Only where no budget is left, after as
/// many block quotes one inside another as `usize` counts, it is not parsed.
pub open spec fn nested_blocks(text: Seq<char>, start_line: usize, budget: nat) -> Seq<BlockView>
    decreases budget, 0nat, 0nat, 0nat,
{
    if budget > 0 {
        parse_blocks_within(text, start_line, (budget - 1) as nat)
    } else {
        Seq::empty()
    }
}

/// A pending block quote with text becomes a block, which holds the text as it
/// is and the blocks that the text parses to.
pub open spec fn flushed_blockquote(p: Progress, budget: nat) -> Progress
    decreases budget, 0nat, 0nat, 1nat,
{
    if p.state.quote.open && p.state.quote.buffer.len() > 0 {
        Progress {
            state: ParserStateView {
                quote: QuoteStateView { buffer: Seq::empty(), open: false },
                ..p.state
            },
            blocks: p.blocks.push(
                BlockView::Blockquote {
                    content: p.state.quote.buffer,
                    blocks: nested_blocks(p.state.quote.buffer, p.state.current_line, budget),
                },
            ),
        }
    } else {
        p
    }
}

/// What the start of a block does to a parse.
pub open spec fn block_start_step(p: Progress, token: Token) -> Progress {
    let s = p.state;
    match token {
        Token::StartParagraph => with_state(
            p,
            ParserStateView { paragraph: ParagraphStateView { open: true, ..s.paragraph }, ..s },
        ),
        Token::StartHeading(level) => {
            let q = flushed_paragraph(p);
            with_state(
                q,
                ParserStateView {
                    heading: HeadingStateView {
                        open: true,
                        level: Some(level),
                        buffer: Seq::empty(),
                        inline: Seq::empty(),
                    },
                    ..q.state
                },
            )
        },
        Token::StartBlockQuote => with_state(
            p,
            ParserStateView { quote: QuoteStateView { open: true, ..s.quote }, ..s },
        ),
        Token::StartFencedCode(info) => with_state(p, start_code(s, if_stated(info@))),
        Token::StartIndentedCode => with_state(p, start_code(s, None)),
        Token::StartList(first) => with_state(
            p,
            ParserStateView { list: start_list(s.list, first), ..s },
        ),
        Token::StartItem => with_state(p, start_item(s)),
        _ => p,
    }
}

/// What the end of a block does to a parse.
pub open spec fn block_end_step(p: Progress, token: Token, budget: nat) -> Progress
    decreases budget, 0nat, 0nat, 2nat,
{
    match token {
        Token::EndParagraph => end_paragraph(p),
        Token::EndHeading => end_heading(p),
        Token::EndBlockQuote => flushed_blockquote(p, budget),
        Token::EndCodeBlock => end_code_block(p),
        Token::EndList => end_list(p),
        Token::EndItem => with_state(p, end_item(p.state)),
        _ => p,
    }
}

/// What the start, the end or a part of a table does to a parse.
pub open spec fn table_step(p: Progress, token: Token) -> Progress {
    let s = p.state;
    match token {
        Token::StartTable(alignments) => with_state(
            p,
            with_table(s, TableStateView { open: true, alignments: alignments@, ..s.table }),
        ),
        Token::EndTable => flushed_table(p),
        Token::EndTableHead => with_state(
            p,
            with_table(s, TableStateView { headers: s.table.row, row: Seq::empty(), ..s.table }),
        ),
        Token::EndTableRow => with_state(
            p,
            with_table(
                s,
                TableStateView {
                    rows: s.table.rows.push(s.table.row),
                    row: Seq::empty(),
                    ..s.table
                },
            ),
        ),
        Token::StartTableCell => with_state(
            p,
            ParserStateView { paragraph: empty_paragraph(s.paragraph.open), ..s },
        ),
        Token::EndTableCell => with_state(
            p,
            ParserStateView {
                table: TableStateView { row: s.table.row.push(s.paragraph.buffer), ..s.table },
                paragraph: empty_paragraph(s.paragraph.open),
                ..s
            },
        ),
        _ => p,
    }
}

/// The styles that are active once the start or end of a style has been read.
pub open spec fn style_step(style: StyleState, token: Token) -> StyleState {
    match token {
        Token::StartEmphasis => StyleState { emphasis: true, ..style },
        Token::EndEmphasis => StyleState { emphasis: false, ..style },
        Token::StartStrong => StyleState { strong: true, ..style },
        Token::EndStrong => StyleState { strong: false, ..style },
        Token::StartStrikethrough => StyleState { strikethrough: true, ..style },
        Token::EndStrikethrough => StyleState { strikethrough: false, ..style },
        _ => style,
    }
}

/// What the start or end of a link or an image does to a parse.
pub open spec fn link_step(p: Progress, token: Token) -> Progress {
    let s = p.state;
    match token {
        Token::StartLink(dest) => with_state(
            p,
            ParserStateView {
                link: LinkStateView { open: true, url: dest@, text: Seq::empty(), ..s.link },
                ..s
            },
        ),
        Token::EndLink => with_state(p, end_link(s)),
        Token::StartImage(dest, title) => with_state(p, start_image(s, dest@, title@)),
        Token::EndImage => end_image(p),
        _ => p,
    }
}

/// What a text, a code span, a break, a rule or a task list marker does to a parse.
pub open spec fn leaf_step(p: Progress, token: Token) -> Progress {
    let s = p.state;
    match token {
        Token::Text(text) => with_state(p, text_run(s, text@)),
        Token::Code(text) => with_state(
            p,
            ParserStateView {
                paragraph: with_inline_text(
                    s.paragraph,
                    StyleState { code: true, ..s.style },
                    text@,
                ),
                style: StyleState { code: false, ..s.style },
                ..s
            },
        ),
        Token::SoftBreak => with_state(
            p,
            ParserStateView { paragraph: line_break(s.paragraph, ' '), ..s },
        ),
        Token::HardBreak => with_state(
            p,
            ParserStateView { paragraph: line_break(s.paragraph, '\n'), ..s },
        ),
        Token::Rule => {
            let q = flushed_paragraph(p);
            Progress { state: q.state, blocks: q.blocks.push(BlockView::HorizontalRule) }
        },
        Token::TaskListMarker(checked) => with_state(
            p,
            ParserStateView { list: ListStateView { task_marker: Some(checked), ..s.list }, ..s },
        ),
        _ => p,
    }
}

/// What one token does to a parse. A token that the parser does not read
/// changes nothing.
pub open spec fn step(p: Progress, token: Token, budget: nat) -> Progress
    decreases budget, 0nat, 1nat, 0nat,
{
    if is_block_start(token) {
        block_start_step(p, token)
    } else if is_block_end(token) {
        block_end_step(p, token, budget)
    } else if is_table_part(token) || token is StartTable {
        table_step(p, token)
    } else if is_style(token) {
        with_state(p, with_style(p.state, style_step(p.state.style, token)))
    } else if is_link_part(token) {
        link_step(p, token)
    } else if is_leaf(token) {
        leaf_step(p, token)
    } else {
        p
    }
}

/// The parse after the first `n` of `tokens`, begun at `start`.
pub open spec fn run(tokens: Seq<Token>, n: nat, start: Progress, budget: nat) -> Progress
    decreases budget, 0nat, 2nat, n,
{
    if n == 0 || n > tokens.len() {
        start
    } else {
        step(run(tokens, (n - 1) as nat, start, budget), tokens[n - 1], budget)
    }
}

/// The end of a parse: whatever is still pending becomes a block.
pub open spec fn finalized(p: Progress, budget: nat) -> Progress
    decreases budget, 0nat, 1nat, 0nat,
{
    flushed_table(flushed_blockquote(flushed_code(flushed_list(flushed_paragraph(p))), budget))
}

/// The block for a collapsible region of a fragment of `length` characters:
/// a body with text is parsed in turn, with the same budget. The body of a
/// region is shorter than the fragment; the test for it is never false, and
/// shows that the parse comes to an end.
pub open spec fn details_block(region: DetailsRegion, length: nat, budget: nat) -> BlockView
    decreases budget, length, 0nat, 1nat,
{
    BlockView::Details {
        summary: region.summary,
        content: region.content,
        blocks: if 0 < region.content.len() < length {
            parse_blocks_within(region.content, 0, budget)
        } else {
            Seq::empty()
        },
    }
}

/// The blocks for the collapsible regions of a fragment of `length` characters.
pub open spec fn details_blocks(regions: Seq<DetailsRegion>, length: nat, budget: nat) -> Seq<
    BlockView,
>
    decreases budget, length, 0nat, 2nat,
{
    Seq::new(
        regions.len(),
        |i: int|
            if 0 <= i < regions.len() {
                details_block(regions[i], length, budget)
            } else {
                BlockView::HorizontalRule
            },
    )
}

/// A paragraph that stands in for a collapsible region gives way to that
/// region's block; every other block stays.
pub open spec fn resolved(block: BlockView, details: Seq<BlockView>) -> BlockView {
    match block {
        BlockView::Paragraph { content, inline } => match placeholder_index(content) {
            Some(index) => if index < details.len() {
                details[index as int]
            } else {
                block
            },
            None => block,
        },
        _ => block,
    }
}

/// `blocks` with each placeholder paragraph resolved.
pub open spec fn all_resolved(blocks: Seq<BlockView>, details: Seq<BlockView>) -> Seq<BlockView> {
    Seq::new(blocks.len(), |i: int| resolved(blocks[i], details))
}

/// The blocks that `tokens` reduce to: the parse begins in the initial state,
/// takes the tokens one by one, and emits at its end whatever is pending.
pub open spec fn reduced(tokens: Seq<Token>, start_line: usize, budget: nat) -> Seq<BlockView>
    decreases budget, 0nat, 2nat, tokens.len() + 1,
{
    let start = Progress { state: initial_state(start_line), blocks: Seq::empty() };
    finalized(run(tokens, tokens.len(), start, budget), budget).blocks
}

/// The blocks of the fragment `text`, with a budget of block quotes that may
/// be parsed one inside another: its collapsible regions are set aside and
/// parsed on their own, the rest is tokenized with tables, strikethrough and
/// task lists switched on and reduced token by token, and each placeholder
/// paragraph gives way to the region that it stands for.
pub open spec fn parse_blocks_within(text: Seq<char>, start_line: usize, budget: nat) -> Seq<
    BlockView,
>
    decreases budget, text.len(), 3nat, 0nat,
{
    let details = details_blocks(details_regions(text, 0), text.len(), budget);
    let tokens = markdown_tokens(without_details(text, 0, 0), true, true, true);
    all_resolved(reduced(tokens, start_line, budget), details)
}

/// The blocks of the fragment `text`: the budget of block quotes that may be
/// parsed one inside another is the greatest that `usize` counts, which no
/// text that a machine holds can use up.
pub open spec fn parse_blocks(text: Seq<char>, start_line: usize) -> Seq<BlockView> {
    parse_blocks_within(text, start_line, usize::MAX as nat)
}

impl ParserState {
    /// Emits the pending block quote, if it has text: the text is parsed in
    /// turn, with a budget that is smaller by one.
    pub fn flush_blockquote(&mut self, blocks: &mut Vec<Block>)
        ensures
            progress(*final(self), *final(blocks)) == flushed_blockquote(
                progress(*old(self), *old(blocks)),
                old(self).budget as nat,
            ),
            final(self).budget == old(self).budget,
        decreases old(self).budget, 0nat, 0nat, 1nat,
    {
        if self.quote.open && !self.quote.buffer.as_str().is_empty() {
            let content = take_string(&mut self.quote.buffer);
            let nested = if self.budget > 0 {
                parse_content_within(content.as_str(), self.current_line, self.budget - 1)
            } else {
                let none: Vec<Block> = Vec::new();
                assert(blocks_view(none@) =~= Seq::empty());
                none
            };
            push_block(blocks, Block::Blockquote { content, blocks: nested });
            self.quote.open = false;
        }
    }

    /// Emits whatever is still pending.
    pub fn finalize(&mut self, blocks: &mut Vec<Block>)
        ensures
            progress(*final(self), *final(blocks)) == finalized(
                progress(*old(self), *old(blocks)),
                old(self).budget as nat,
            ),
            final(self).budget == old(self).budget,
        decreases old(self).budget, 0nat, 1nat, 0nat,
    {
        self.flush_paragraph(blocks);
        self.flush_list(blocks);
        self.flush_code(blocks);
        self.flush_blockquote(blocks);
        self.flush_table(blocks);
    }
}

/// Takes the start of a block into the parse.
fn process_block_start(event: &Token, state: &mut ParserState, blocks: &mut Vec<Block>)
    requires
        is_block_start(*event),
        old(state).list.depth < usize::MAX,
        old(state).list.item_depth < usize::MAX,
    ensures
        progress(*final(state), *final(blocks)) == step(
            progress(*old(state), *old(blocks)),
            *event,
            old(state).budget as nat,
        ),
        final(state).budget == old(state).budget,
{
    match event {
        Token::StartParagraph => {
            state.paragraph.open = true;
        },
        Token::StartHeading(level) => {
            state.flush_paragraph(blocks);
            state.heading.start(*level);
        },
        Token::StartBlockQuote => {
            state.quote.open = true;
        },
        Token::StartFencedCode(info) => {
            state.code.open = true;
            state.code.start_line = state.current_line;
            state.code.language = stated(info.clone());
        },
        Token::StartIndentedCode => {
            state.code.open = true;
            state.code.start_line = state.current_line;
            state.code.language = None;
        },
        Token::StartList(first) => {
            state.list.start_list(first);
        },
        Token::StartItem => {
            state.start_item();
        },
        _ => {},
    }
}

/// Takes the end of a block into the parse.
fn process_block_end(event: &Token, state: &mut ParserState, blocks: &mut Vec<Block>)
    requires
        is_block_end(*event),
    ensures
        progress(*final(state), *final(blocks)) == step(
            progress(*old(state), *old(blocks)),
            *event,
            old(state).budget as nat,
        ),
        final(state).budget == old(state).budget,
    decreases old(state).budget, 0nat, 0nat, 2nat,
{
    match event {
        Token::EndParagraph => {
            state.end_paragraph(blocks);
        },
        Token::EndHeading => {
            state.end_heading(blocks);
        },
        Token::EndBlockQuote => {
            state.flush_blockquote(blocks);
        },
        Token::EndCodeBlock => {
            state.end_code_block(blocks);
        },
        Token::EndList => {
            state.end_list(blocks);
        },
        Token::EndItem => {
            state.end_item();
        },
        _ => {},
    }
}

/// Takes the start, the end or a part of a table into the parse.
fn process_table(event: &Token, state: &mut ParserState, blocks: &mut Vec<Block>)
    requires
        is_table_part(*event) || *event is StartTable,
    ensures
        progress(*final(state), *final(blocks)) == step(
            progress(*old(state), *old(blocks)),
            *event,
            old(state).budget as nat,
        ),
        final(state).budget == old(state).budget,
{
    match event {
        Token::StartTable(alignments) => {
            state.table.open = true;
            state.table.alignments = clone_alignments(alignments);
        },
        Token::EndTable => {
            state.flush_table(blocks);
        },
        Token::EndTableHead => {
            let row = take_strings(&mut state.table.row);
            state.table.headers = row;
        },
        Token::EndTableRow => {
            let row = take_strings(&mut state.table.row);
            push_row(&mut state.table.rows, row);
        },
        Token::StartTableCell => {
            state.paragraph.clear();
        },
        Token::EndTableCell => {
            let cell = take_string(&mut state.paragraph.buffer);
            push_string(&mut state.table.row, cell);
            state.paragraph.clear();
        },
        _ => {},
    }
}

/// Takes the start or end of an inline style into the parse.
fn process_style(event: &Token, state: &mut ParserState)
    requires
        is_style(*event),
    ensures
        final(state)@ == with_style(old(state)@, style_step(old(state)@.style, *event)),
        final(state).budget == old(state).budget,
{
    match event {
        Token::StartStrong => {
            state.style.strong = true;
        },
        Token::EndStrong => {
            state.style.strong = false;
        },
        Token::StartEmphasis => {
            state.style.emphasis = true;
        },
        Token::EndEmphasis => {
            state.style.emphasis = false;
        },
        Token::StartStrikethrough => {
            state.style.strikethrough = true;
        },
        Token::EndStrikethrough => {
            state.style.strikethrough = false;
        },
        _ => {},
    }
}

/// Takes the start or end of a link or an image into the parse.
fn process_link(event: &Token, state: &mut ParserState, blocks: &mut Vec<Block>)
    requires
        is_link_part(*event),
    ensures
        progress(*final(state), *final(blocks)) == step(
            progress(*old(state), *old(blocks)),
            *event,
            old(state).budget as nat,
        ),
        final(state).budget == old(state).budget,
{
    match event {
        Token::StartLink(dest) => {
            state.link.start(dest);
        },
        Token::EndLink => {
            state.end_link();
        },
        Token::StartImage(dest, title) => {
            state.start_image(dest, title);
        },
        Token::EndImage => {
            state.end_image(blocks);
        },
        _ => {},
    }
}

/// Takes a text, a code span, a break, a rule or a task list marker into the parse.
fn process_leaf(event: &Token, state: &mut ParserState, blocks: &mut Vec<Block>)
    requires
        is_leaf(*event),
    ensures
        progress(*final(state), *final(blocks)) == step(
            progress(*old(state), *old(blocks)),
            *event,
            old(state).budget as nat,
        ),
        final(state).budget == old(state).budget,
{
    match event {
        Token::Text(text) => {
            state.text_run(text);
        },
        Token::Code(text) => {
            state.style.code = true;
            state.add_inline_text(text.as_str());
            state.style.code = false;
        },
        Token::SoftBreak => {
            state.paragraph.line_break(' ');
        },
        Token::HardBreak => {
            state.paragraph.line_break('\n');
        },
        Token::Rule => {
            state.flush_paragraph(blocks);
            push_block(blocks, Block::HorizontalRule);
        },
        Token::TaskListMarker(checked) => {
            state.list.task_marker = Some(*checked);
        },
        _ => {},
    }
}

/// Takes one token into the parse: the state changes and blocks are emitted
/// as `step` says.
pub fn process_event(event: &Token, state: &mut ParserState, blocks: &mut Vec<Block>)
    requires
        old(state).list.depth < usize::MAX,
        old(state).list.item_depth < usize::MAX,
    ensures
        progress(*final(state), *final(blocks)) == step(
            progress(*old(state), *old(blocks)),
            *event,
            old(state).budget as nat,
        ),
        final(state).budget == old(state).budget,
    decreases old(state).budget, 0nat, 1nat, 0nat,
{
    match event {
        Token::StartParagraph
        | Token::StartHeading(_)
        | Token::StartBlockQuote
        | Token::StartFencedCode(_)
        | Token::StartIndentedCode
        | Token::StartList(_)
        | Token::StartItem => process_block_start(event, state, blocks),
        Token::EndParagraph
        | Token::EndHeading
        | Token::EndBlockQuote
        | Token::EndCodeBlock
        | Token::EndList
        | Token::EndItem => process_block_end(event, state, blocks),
        Token::StartTable(_)
        | Token::EndTable
        | Token::StartTableHead
        | Token::EndTableHead
        | Token::StartTableRow
        | Token::EndTableRow
        | Token::StartTableCell
        | Token::EndTableCell => process_table(event, state, blocks),
        Token::StartEmphasis
        | Token::EndEmphasis
        | Token::StartStrong
        | Token::EndStrong
        | Token::StartStrikethrough
        | Token::EndStrikethrough => process_style(event, state),
        Token::StartLink(_) | Token::EndLink | Token::StartImage(_, _) | Token::EndImage => {
            process_link(event, state, blocks)
        },
        Token::Text(_)
        | Token::Code(_)
        | Token::SoftBreak
        | Token::HardBreak
        | Token::Rule
        | Token::TaskListMarker(_) => process_leaf(event, state, blocks),
        Token::Other => {},
    }
}

/// One token opens at most one list and one list item.
pub proof fn lemma_step_depths(p: Progress, token: Token, budget: nat)
    ensures
        step(p, token, budget).state.list.depth <= p.state.list.depth + 1,
        step(p, token, budget).state.list.item_depth <= p.state.list.item_depth + 1,
{
    if is_block_start(token) {
    } else if is_block_end(token) {
    } else if is_table_part(token) || token is StartTable {
    } else if is_style(token) {
    } else if is_link_part(token) {
    } else if is_leaf(token) {
    } else {
    }
}

/// Whether a block holds what it is made for: a paragraph, a heading or a
/// block quote has text, a list has items, and a table has headers.
pub open spec fn has_content(block: BlockView) -> bool {
    match block {
        BlockView::Heading { content, .. } => content.len() > 0,
        BlockView::Paragraph { content, .. } => content.len() > 0,
        BlockView::List { items, .. } => items.len() > 0,
        BlockView::Blockquote { content, .. } => content.len() > 0,
        BlockView::Table { headers, .. } => headers.len() > 0,
        _ => true,
    }
}

/// Whether every block holds what it is made for.
pub open spec fn all_have_content(blocks: Seq<BlockView>) -> bool {
    forall|i: int| 0 <= i < blocks.len() ==> has_content(#[trigger] blocks[i])
}

/// Whether a parse has emitted only blocks that hold what they are made
/// for, and has gathered only such blocks for the list item that is open.
pub open spec fn sound(p: Progress) -> bool {
    all_have_content(p.blocks) && all_have_content(p.state.list.item_blocks)
}

/// A block that holds what it is made for may join blocks that do.
pub proof fn lemma_push_content(blocks: Seq<BlockView>, block: BlockView)
    requires
        all_have_content(blocks),
        has_content(block),
    ensures
        all_have_content(blocks.push(block)),
{
    assert forall|i: int| 0 <= i < blocks.push(block).len() implies has_content(
        #[trigger] blocks.push(block)[i],
    ) by {
        if i < blocks.len() {
            assert(blocks.push(block)[i] == blocks[i]);
        }
    }
}

/// Emitting the pending paragraph leaves a parse sound.
proof fn lemma_flushed_paragraph_sound(p: Progress)
    requires
        sound(p),
    ensures
        sound(flushed_paragraph(p)),
{
    if p.state.paragraph.open && p.state.paragraph.buffer.len() > 0 {
        lemma_push_content(p.blocks, paragraph_block(p.state.paragraph));
    }
}

/// Emitting the pending list leaves a parse sound.
proof fn lemma_flushed_list_sound(p: Progress)
    requires
        sound(p),
    ensures
        sound(flushed_list(p)),
{
    let list = p.state.list;
    if list.open && list.items.len() > 0 {
        lemma_push_content(p.blocks, BlockView::List { ordered: list.ordered, items: list.items });
    }
}

/// Emitting the pending code block leaves a parse sound.
proof fn lemma_flushed_code_sound(p: Progress)
    requires
        sound(p),
    ensures
        sound(flushed_code(p)),
{
    if p.state.code.open && p.state.code.buffer.len() > 0 {
        lemma_push_content(p.blocks, pending_code(p.state));
    }
}

/// Emitting the pending table leaves a parse sound.
proof fn lemma_flushed_table_sound(p: Progress)
    requires
        sound(p),
    ensures
        sound(flushed_table(p)),
{
    let table = p.state.table;
    if table.open && table.headers.len() > 0 {
        lemma_push_content(
            p.blocks,
            BlockView::Table {
                headers: table.headers,
                alignments: table.alignments,
                rows: table.rows,
            },
        );
    }
}

/// Emitting the pending block quote leaves a parse sound.
proof fn lemma_flushed_blockquote_sound(p: Progress, budget: nat)
    requires
        sound(p),
    ensures
        sound(flushed_blockquote(p, budget)),
{
    let s = p.state;
    if s.quote.open && s.quote.buffer.len() > 0 {
        lemma_push_content(
            p.blocks,
            BlockView::Blockquote {
                content: s.quote.buffer,
                blocks: nested_blocks(s.quote.buffer, s.current_line, budget),
            },
        );
    }
}

/// The end of a heading leaves a parse sound.
proof fn lemma_end_heading_sound(p: Progress)
    requires
        sound(p),
    ensures
        sound(end_heading(p)),
{
    let h = p.state.heading;
    if h.open && h.buffer.len() > 0 && h.level is Some {
        lemma_push_content(
            p.blocks,
            BlockView::Heading { level: h.level->0, content: h.buffer, inline: h.inline },
        );
    }
}

/// The end of an image leaves a parse sound.
proof fn lemma_end_image_sound(p: Progress)
    requires
        sound(p),
    ensures
        sound(end_image(p)),
{
    let s = p.state;
    if !s.link.image_inside && !s.paragraph.open {
        lemma_push_content(
            p.blocks,
            BlockView::Image {
                alt: s.link.text,
                src: s.link.url,
                title: if_stated(s.paragraph.buffer),
            },
        );
    }
}

/// The start of a block leaves a parse sound.
proof fn lemma_block_start_sound(p: Progress, token: Token)
    requires
        sound(p),
    ensures
        sound(block_start_step(p, token)),
{
    lemma_flushed_paragraph_sound(p);
    if token is StartItem {
        assert(all_have_content(Seq::<BlockView>::empty()));
    }
}

/// The end of a block leaves a parse sound.
proof fn lemma_block_end_sound(p: Progress, token: Token, budget: nat)
    requires
        sound(p),
    ensures
        sound(block_end_step(p, token, budget)),
{
    let s = p.state;
    match token {
        Token::EndParagraph => {
            lemma_flushed_paragraph_sound(p);
            if s.list.item_depth >= 1 && s.paragraph.open && s.paragraph.buffer.len() > 0 {
                lemma_push_content(s.list.item_blocks, paragraph_block(s.paragraph));
            }
        },
        Token::EndHeading => {
            lemma_end_heading_sound(p);
        },
        Token::EndBlockQuote => {
            lemma_flushed_blockquote_sound(p, budget);
        },
        Token::EndCodeBlock => {
            lemma_flushed_code_sound(p);
            if s.list.item_depth >= 1 && s.code.open && s.code.buffer.len() > 0 {
                lemma_push_content(s.list.item_blocks, pending_code(s));
            }
        },
        Token::EndList => {
            if s.list.depth <= 1 {
                lemma_flushed_list_sound(
                    Progress {
                        state: ParserStateView { list: ListStateView { depth: 0, ..s.list }, ..s },
                        blocks: p.blocks,
                    },
                );
            }
        },
        Token::EndItem => {
            assert(all_have_content(Seq::<BlockView>::empty()));
        },
        _ => {},
    }
}

/// A run of text leaves the blocks of the list item that is open as they are.
proof fn lemma_text_run_keeps(s: ParserStateView, text: Seq<char>)
    ensures
        text_run(s, text).list.item_blocks == s.list.item_blocks,
{
}

/// A leaf token leaves a parse sound.
proof fn lemma_leaf_sound(p: Progress, token: Token)
    requires
        sound(p),
    ensures
        sound(leaf_step(p, token)),
{
    match token {
        Token::Text(text) => {
            lemma_text_run_keeps(p.state, text@);
        },
        Token::Rule => {
            lemma_flushed_paragraph_sound(p);
            lemma_push_content(flushed_paragraph(p).blocks, BlockView::HorizontalRule);
        },
        _ => {},
    }
}

/// A part of a table leaves a parse sound.
proof fn lemma_table_sound(p: Progress, token: Token)
    requires
        sound(p),
    ensures
        sound(table_step(p, token)),
{
    if token is EndTable {
        lemma_flushed_table_sound(p);
    }
}

/// The start or end of a link or an image leaves a parse sound.
proof fn lemma_link_sound(p: Progress, token: Token)
    requires
        sound(p),
    ensures
        sound(link_step(p, token)),
{
    if token is EndImage {
        lemma_end_image_sound(p);
    }
}

/// One token leaves a parse sound: no paragraph, heading or block quote
/// without text is emitted, no list without items, and no table without headers.
pub proof fn lemma_step_sound(p: Progress, token: Token, budget: nat)
    requires
        sound(p),
    ensures
        sound(step(p, token, budget)),
{
    if is_block_start(token) {
        lemma_block_start_sound(p, token);
    } else if is_block_end(token) {
        lemma_block_end_sound(p, token, budget);
    } else if is_table_part(token) || token is StartTable {
        lemma_table_sound(p, token);
    } else if is_style(token) {
    } else if is_link_part(token) {
        lemma_link_sound(p, token);
    } else if is_leaf(token) {
        lemma_leaf_sound(p, token);
    }
}

/// Any number of tokens leave a parse sound.
pub proof fn lemma_run_sound(tokens: Seq<Token>, n: nat, start: Progress, budget: nat)
    requires
        sound(start),
    ensures
        sound(run(tokens, n, start, budget)),
    decreases n,
{
    if n == 0 || n > tokens.len() {
    } else {
        lemma_run_sound(tokens, (n - 1) as nat, start, budget);
        lemma_step_sound(run(tokens, (n - 1) as nat, start, budget), tokens[n - 1], budget);
    }
}

/// Every block of a fragment holds what it is made for, whatever the budget:
/// the parser emits no paragraph, heading or block quote without text, no
/// list without items, and no table without headers.
pub proof fn lemma_parse_blocks_have_content(text: Seq<char>, start_line: usize, budget: nat)
    ensures
        all_have_content(parse_blocks_within(text, start_line, budget)),
        budget == usize::MAX ==> all_have_content(parse_blocks(text, start_line)),
{
    let details = details_blocks(details_regions(text, 0), text.len(), budget);
    let tokens = markdown_tokens(without_details(text, 0, 0), true, true, true);
    let start = Progress { state: initial_state(start_line), blocks: Seq::empty() };
    assert(sound(start));
    lemma_run_sound(tokens, tokens.len(), start, budget);
    let end = run(tokens, tokens.len(), start, budget);
    let a = flushed_paragraph(end);
    let b = flushed_list(a);
    let c = flushed_code(b);
    let d = flushed_blockquote(c, budget);
    let e = flushed_table(d);
    lemma_flushed_paragraph_sound(end);
    lemma_flushed_list_sound(a);
    lemma_flushed_code_sound(b);
    lemma_flushed_blockquote_sound(c, budget);
    lemma_flushed_table_sound(d);
    let blocks = parse_blocks_within(text, start_line, budget);
    assert forall|i: int| 0 <= i < blocks.len() implies has_content(#[trigger] blocks[i]) by {
        assert(has_content(e.blocks[i]));
        assert(blocks[i] == resolved(e.blocks[i], details));
    }
}

/// Whether a block is one that a parse with the given budget, begun at line
/// `line`, may emit: a block quote holds the blocks that its text parses to
/// with a budget that is smaller by one, and no blocks where no budget is
/// left; a code block begins and ends at the line `line`; no
/// collapsible region is emitted; and, where `levels` holds, a heading has a
/// level from 1 to 6.
pub open spec fn emitted_ok(block: BlockView, line: usize, budget: nat, levels: bool) -> bool {
    match block {
        BlockView::Heading { level, .. } => levels ==> 1 <= level <= 6,
        BlockView::Code { start_line, end_line, .. } => start_line == line && end_line == line,
        BlockView::Blockquote { content, blocks } => blocks == nested_blocks(content, line, budget),
        BlockView::Details { .. } => false,
        _ => true,
    }
}

/// Whether a parse has emitted only blocks that it may emit, the code block
/// that is open began at the line `line`, and the heading that is open has a
/// level from 1 to 6 where `levels` holds.
pub open spec fn traced(p: Progress, line: usize, budget: nat, levels: bool) -> bool {
    &&& p.state.current_line == line
    &&& p.state.code.open ==> p.state.code.start_line == line
    &&& levels ==> (p.state.heading.level matches Some(level) ==> 1 <= level <= 6)
    &&& forall|i: int|
        0 <= i < p.blocks.len() ==> emitted_ok(#[trigger] p.blocks[i], line, budget, levels)
}

/// A block that may be emitted may join blocks that may.
proof fn lemma_push_ok(p: Progress, block: BlockView, line: usize, budget: nat, levels: bool)
    requires
        traced(p, line, budget, levels),
        emitted_ok(block, line, budget, levels),
    ensures
        traced(Progress { state: p.state, blocks: p.blocks.push(block) }, line, budget, levels),
{
    let after = p.blocks.push(block);
    assert forall|i: int| 0 <= i < after.len() implies emitted_ok(
        #[trigger] after[i],
        line,
        budget,
        levels,
    ) by {
        if i < p.blocks.len() {
            assert(after[i] == p.blocks[i]);
        }
    }
}

/// Emitting the pending paragraph leaves a parse traced.
proof fn lemma_flushed_paragraph_traced(p: Progress, line: usize, budget: nat, levels: bool)
    requires
        traced(p, line, budget, levels),
    ensures
        traced(flushed_paragraph(p), line, budget, levels),
{
    if p.state.paragraph.open && p.state.paragraph.buffer.len() > 0 {
        lemma_push_ok(p, paragraph_block(p.state.paragraph), line, budget, levels);
    }
}

/// Emitting the pending list leaves a parse traced.
proof fn lemma_flushed_list_traced(p: Progress, line: usize, budget: nat, levels: bool)
    requires
        traced(p, line, budget, levels),
    ensures
        traced(flushed_list(p), line, budget, levels),
{
    let list = p.state.list;
    if list.open && list.items.len() > 0 {
        lemma_push_ok(
            p,
            BlockView::List { ordered: list.ordered, items: list.items },
            line,
            budget,
            levels,
        );
    }
}

/// Emitting the pending code block leaves a parse traced.
proof fn lemma_flushed_code_traced(p: Progress, line: usize, budget: nat, levels: bool)
    requires
        traced(p, line, budget, levels),
    ensures
        traced(flushed_code(p), line, budget, levels),
{
    if p.state.code.open && p.state.code.buffer.len() > 0 {
        lemma_push_ok(p, pending_code(p.state), line, budget, levels);
    }
}

/// Emitting the pending block quote leaves a parse traced.
proof fn lemma_flushed_blockquote_traced(p: Progress, line: usize, budget: nat, levels: bool)
    requires
        traced(p, line, budget, levels),
    ensures
        traced(flushed_blockquote(p, budget), line, budget, levels),
{
    let s = p.state;
    if s.quote.open && s.quote.buffer.len() > 0 {
        lemma_push_ok(
            p,
            BlockView::Blockquote {
                content: s.quote.buffer,
                blocks: nested_blocks(s.quote.buffer, s.current_line, budget),
            },
            line,
            budget,
            levels,
        );
    }
}

/// Emitting the pending table leaves a parse traced.
proof fn lemma_flushed_table_traced(p: Progress, line: usize, budget: nat, levels: bool)
    requires
        traced(p, line, budget, levels),
    ensures
        traced(flushed_table(p), line, budget, levels),
{
    let table = p.state.table;
    if table.open && table.headers.len() > 0 {
        lemma_push_ok(
            p,
            BlockView::Table {
                headers: table.headers,
                alignments: table.alignments,
                rows: table.rows,
            },
            line,
            budget,
            levels,
        );
    }
}

/// The start of a block leaves a parse traced.
proof fn lemma_block_start_traced(p: Progress, token: Token, line: usize, budget: nat, levels: bool)
    requires
        traced(p, line, budget, levels),
        levels ==> level_in_range(token),
    ensures
        traced(block_start_step(p, token), line, budget, levels),
{
    lemma_flushed_paragraph_traced(p, line, budget, levels);
}

/// The end of a block leaves a parse traced.
proof fn lemma_block_end_traced(p: Progress, token: Token, line: usize, budget: nat, levels: bool)
    requires
        traced(p, line, budget, levels),
    ensures
        traced(block_end_step(p, token, budget), line, budget, levels),
{
    let s = p.state;
    match token {
        Token::EndParagraph => {
            lemma_flushed_paragraph_traced(p, line, budget, levels);
        },
        Token::EndHeading => {
            let h = s.heading;
            if h.open && h.buffer.len() > 0 && h.level is Some {
                lemma_push_ok(
                    p,
                    BlockView::Heading { level: h.level->0, content: h.buffer, inline: h.inline },
                    line,
                    budget,
                    levels,
                );
            }
        },
        Token::EndBlockQuote => {
            lemma_flushed_blockquote_traced(p, line, budget, levels);
        },
        Token::EndCodeBlock => {
            lemma_flushed_code_traced(p, line, budget, levels);
        },
        Token::EndList => {
            if s.list.depth <= 1 {
                lemma_flushed_list_traced(
                    Progress {
                        state: ParserStateView { list: ListStateView { depth: 0, ..s.list }, ..s },
                        blocks: p.blocks,
                    },
                    line,
                    budget,
                    levels,
                );
            }
        },
        _ => {},
    }
}

/// A part of a table leaves a parse traced.
proof fn lemma_table_traced(p: Progress, token: Token, line: usize, budget: nat, levels: bool)
    requires
        traced(p, line, budget, levels),
    ensures
        traced(table_step(p, token), line, budget, levels),
{
    if token is EndTable {
        lemma_flushed_table_traced(p, line, budget, levels);
    }
}

/// The start or end of a link or an image leaves a parse traced.
proof fn lemma_link_traced(p: Progress, token: Token, line: usize, budget: nat, levels: bool)
    requires
        traced(p, line, budget, levels),
    ensures
        traced(link_step(p, token), line, budget, levels),
{
    let s = p.state;
    if token is EndImage && !s.link.image_inside && !s.paragraph.open {
        lemma_push_ok(
            p,
            BlockView::Image {
                alt: s.link.text,
                src: s.link.url,
                title: if_stated(s.paragraph.buffer),
            },
            line,
            budget,
            levels,
        );
    }
}

/// A run of text leaves the line, the level of the open heading and the
/// start of the open code block as they are.
proof fn lemma_text_run_keeps_heading(s: ParserStateView, text: Seq<char>)
    ensures
        text_run(s, text).current_line == s.current_line,
        text_run(s, text).heading.level == s.heading.level,
        text_run(s, text).code.open == s.code.open,
        text_run(s, text).code.start_line == s.code.start_line,
{
}

/// A leaf token leaves a parse traced.
proof fn lemma_leaf_traced(p: Progress, token: Token, line: usize, budget: nat, levels: bool)
    requires
        traced(p, line, budget, levels),
    ensures
        traced(leaf_step(p, token), line, budget, levels),
{
    match token {
        Token::Text(text) => {
            lemma_text_run_keeps_heading(p.state, text@);
        },
        Token::Rule => {
            lemma_flushed_paragraph_traced(p, line, budget, levels);
            lemma_push_ok(flushed_paragraph(p), BlockView::HorizontalRule, line, budget, levels);
        },
        _ => {},
    }
}

/// One token leaves a parse traced.
pub proof fn lemma_step_traced(p: Progress, token: Token, line: usize, budget: nat, levels: bool)
    requires
        traced(p, line, budget, levels),
        levels ==> level_in_range(token),
    ensures
        traced(step(p, token, budget), line, budget, levels),
{
    if is_block_start(token) {
        lemma_block_start_traced(p, token, line, budget, levels);
    } else if is_block_end(token) {
        lemma_block_end_traced(p, token, line, budget, levels);
    } else if is_table_part(token) || token is StartTable {
        lemma_table_traced(p, token, line, budget, levels);
    } else if is_style(token) {
    } else if is_link_part(token) {
        lemma_link_traced(p, token, line, budget, levels);
    } else if is_leaf(token) {
        lemma_leaf_traced(p, token, line, budget, levels);
    }
}

/// Any number of tokens leave a parse traced.
pub proof fn lemma_run_traced(
    tokens: Seq<Token>,
    n: nat,
    start: Progress,
    line: usize,
    budget: nat,
    levels: bool,
)
    requires
        traced(start, line, budget, levels),
        levels ==> levels_in_range(tokens),
    ensures
        traced(run(tokens, n, start, budget), line, budget, levels),
    decreases n,
{
    if n == 0 || n > tokens.len() {
    } else {
        lemma_run_traced(tokens, (n - 1) as nat, start, line, budget, levels);
        lemma_step_traced(
            run(tokens, (n - 1) as nat, start, budget),
            tokens[n - 1],
            line,
            budget,
            levels,
        );
    }
}

/// The blocks that tokens reduce to are blocks that a parse may emit: each
/// block quote holds the blocks that its text parses to with a budget that
/// is smaller by one, and no blocks where no budget is left; and each heading
/// has a level from 1 to 6, where each heading that the tokens start has one.
pub proof fn lemma_reduced_traced(tokens: Seq<Token>, start_line: usize, budget: nat, levels: bool)
    requires
        levels ==> levels_in_range(tokens),
    ensures
        forall|i: int|
            0 <= i < reduced(tokens, start_line, budget).len() ==> emitted_ok(
                #[trigger] reduced(tokens, start_line, budget)[i],
                start_line,
                budget,
                levels,
            ),
{
    let start = Progress { state: initial_state(start_line), blocks: Seq::empty() };
    lemma_run_traced(tokens, tokens.len(), start, start_line, budget, levels);
    let end = run(tokens, tokens.len(), start, budget);
    let a = flushed_paragraph(end);
    let b = flushed_list(a);
    let c = flushed_code(b);
    let d = flushed_blockquote(c, budget);
    lemma_flushed_paragraph_traced(end, start_line, budget, levels);
    lemma_flushed_list_traced(a, start_line, budget, levels);
    lemma_flushed_code_traced(b, start_line, budget, levels);
    lemma_flushed_blockquote_traced(c, start_line, budget, levels);
    lemma_flushed_table_traced(d, start_line, budget, levels);
}

/// What holds of the blocks of a fragment that hold blocks in turn, whatever
/// the budget. A block quote holds the blocks that its text parses to, from
/// the line at which the fragment begins and with a budget that is smaller
/// by one; only with no budget left it holds no blocks. A collapsible region
/// with a body holds the blocks that the body parses to, from line 0 and with
/// the same budget. A code block begins and ends at the line at which the
/// fragment begins.
pub proof fn lemma_parse_blocks_nested_within(text: Seq<char>, start_line: usize, budget: nat)
    ensures
        forall|i: int|
            0 <= i < parse_blocks_within(text, start_line, budget).len() ==> holds_parsed(
                #[trigger] parse_blocks_within(text, start_line, budget)[i],
                start_line,
                budget,
            ),
{
    let regions = details_regions(text, 0);
    let details = details_blocks(regions, text.len(), budget);
    let tokens = markdown_tokens(without_details(text, 0, 0), true, true, true);
    let before = reduced(tokens, start_line, budget);
    let blocks = parse_blocks_within(text, start_line, budget);
    lemma_reduced_traced(tokens, start_line, budget, false);
    lemma_details_regions_shorter(text, 0);
    assert forall|i: int| 0 <= i < blocks.len() implies holds_parsed(
        #[trigger] blocks[i],
        start_line,
        budget,
    ) by {
        assert(emitted_ok(before[i], start_line, budget, false));
        assert(blocks[i] == resolved(before[i], details));
        if blocks[i] != before[i] {
            let index = placeholder_index(before[i]->Paragraph_content)->0 as int;
            assert(blocks[i] == details[index]);
            assert(details[index] == details_block(regions[index], text.len(), budget));
            assert(regions[index].content.len() < text.len());
        }
    }
}

/// Whether a block that holds blocks in turn holds the blocks that its own
/// text parses to: a block quote from the line `line` and, where a budget is
/// left, with a budget that is smaller by one; a collapsible region with a
/// body from line 0 and with the same budget. A code block begins and ends
/// at the line `line`.
pub open spec fn holds_parsed(block: BlockView, line: usize, budget: nat) -> bool {
    match block {
        BlockView::Blockquote { content, blocks } => if budget > 0 {
            blocks == parse_blocks_within(content, line, (budget - 1) as nat)
        } else {
            blocks.len() == 0
        },
        BlockView::Details { content, blocks, .. } => if content.len() == 0 {
            blocks.len() == 0
        } else {
            blocks == parse_blocks_within(content, 0, budget)
        },
        BlockView::Code { start_line, end_line, .. } => start_line == line && end_line == line,
        _ => true,
    }
}

/// Every block quote of a fragment holds the blocks that its text parses to,
/// from the line at which the fragment begins, and every collapsible region
/// with a body holds the blocks that the body parses to, from line 0. The
/// budget of a block quote's text is smaller by one than that of the fragment.
pub proof fn lemma_parse_blocks_nested(text: Seq<char>, start_line: usize)
    ensures
        forall|i: int|
            0 <= i < parse_blocks(text, start_line).len() ==> match #[trigger] parse_blocks(
                text,
                start_line,
            )[i] {
                BlockView::Blockquote { content, blocks } => blocks == parse_blocks_within(
                    content,
                    start_line,
                    (usize::MAX - 1) as nat,
                ),
                BlockView::Details { content, blocks, .. } => if content.len() == 0 {
                    blocks.len() == 0
                } else {
                    blocks == parse_blocks(content, 0)
                },
                BlockView::Code { start_line: first, end_line: last, .. } => first == start_line
                    && last == start_line,
                _ => true,
            },
{
    lemma_parse_blocks_nested_within(text, start_line, usize::MAX as nat);
    let blocks = parse_blocks(text, start_line);
    assert forall|i: int| 0 <= i < blocks.len() implies match #[trigger] blocks[i] {
        BlockView::Blockquote { content, blocks } => blocks == parse_blocks_within(
            content,
            start_line,
            (usize::MAX - 1) as nat,
        ),
        BlockView::Details { content, blocks, .. } => if content.len() == 0 {
            blocks.len() == 0
        } else {
            blocks == parse_blocks(content, 0)
        },
        BlockView::Code { start_line: first, end_line: last, .. } => first == start_line && last
            == start_line,
        _ => true,
    } by {
        assert(holds_parsed(blocks[i], start_line, usize::MAX as nat));
    }
}

/// A block as a parse with the budget `budget` emits it: a block quote holds
/// what its text parses to with that budget; any other block stays.
pub open spec fn with_budget(block: BlockView, line: usize, budget: nat) -> BlockView {
    match block {
        BlockView::Blockquote { content, blocks } => BlockView::Blockquote {
            content: content,
            blocks: nested_blocks(content, line, budget),
        },
        _ => block,
    }
}

/// Blocks as a parse with the budget `budget` emits them.
pub open spec fn blocks_with_budget(blocks: Seq<BlockView>, line: usize, budget: nat) -> Seq<
    BlockView,
> {
    Seq::new(blocks.len(), |i: int| with_budget(blocks[i], line, budget))
}

/// A parse as it stands with the budget `budget`.
pub open spec fn rebudget(p: Progress, line: usize, budget: nat) -> Progress {
    Progress { state: p.state, blocks: blocks_with_budget(p.blocks, line, budget) }
}

/// A block that is no block quote joins the blocks of a parse alike with any budget.
proof fn lemma_rebudget_push(p: Progress, block: BlockView, line: usize, budget: nat)
    ensures
        blocks_with_budget(p.blocks.push(block), line, budget) == blocks_with_budget(
            p.blocks,
            line,
            budget,
        ).push(with_budget(block, line, budget)),
{
    assert(blocks_with_budget(p.blocks.push(block), line, budget) =~= blocks_with_budget(
        p.blocks,
        line,
        budget,
    ).push(with_budget(block, line, budget)));
}

/// Emitting the pending paragraph is alike with any budget.
proof fn lemma_flushed_paragraph_rebudget(p: Progress, line: usize, budget: nat)
    ensures
        flushed_paragraph(rebudget(p, line, budget)) == rebudget(
            flushed_paragraph(p),
            line,
            budget,
        ),
{
    lemma_rebudget_push(p, paragraph_block(p.state.paragraph), line, budget);
}

/// Emitting the pending list is alike with any budget.
proof fn lemma_flushed_list_rebudget(p: Progress, line: usize, budget: nat)
    ensures
        flushed_list(rebudget(p, line, budget)) == rebudget(flushed_list(p), line, budget),
{
    let list = p.state.list;
    lemma_rebudget_push(
        p,
        BlockView::List { ordered: list.ordered, items: list.items },
        line,
        budget,
    );
}

/// Emitting the pending code block is alike with any budget.
proof fn lemma_flushed_code_rebudget(p: Progress, line: usize, budget: nat)
    ensures
        flushed_code(rebudget(p, line, budget)) == rebudget(flushed_code(p), line, budget),
{
    lemma_rebudget_push(p, pending_code(p.state), line, budget);
}

/// Emitting the pending table is alike with any budget.
proof fn lemma_flushed_table_rebudget(p: Progress, line: usize, budget: nat)
    ensures
        flushed_table(rebudget(p, line, budget)) == rebudget(flushed_table(p), line, budget),
{
    let table = p.state.table;
    lemma_rebudget_push(
        p,
        BlockView::Table { headers: table.headers, alignments: table.alignments, rows: table.rows },
        line,
        budget,
    );
}

/// Emitting the pending block quote with one budget gives what emitting it
/// with another gives, once its blocks are taken with the first.
proof fn lemma_flushed_blockquote_rebudget(p: Progress, line: usize, from: nat, budget: nat)
    requires
        p.state.current_line == line,
    ensures
        flushed_blockquote(rebudget(p, line, budget), budget) == rebudget(
            flushed_blockquote(p, from),
            line,
            budget,
        ),
{
    let s = p.state;
    lemma_rebudget_push(
        p,
        BlockView::Blockquote {
            content: s.quote.buffer,
            blocks: nested_blocks(s.quote.buffer, s.current_line, from),
        },
        line,
        budget,
    );
}

/// The start of a block is alike with any budget.
proof fn lemma_block_start_rebudget(p: Progress, token: Token, line: usize, budget: nat)
    ensures
        block_start_step(rebudget(p, line, budget), token) == rebudget(
            block_start_step(p, token),
            line,
            budget,
        ),
{
    lemma_flushed_paragraph_rebudget(p, line, budget);
}

/// The end of a block with one budget gives what it gives with another,
/// once the blocks of block quotes are taken with the first.
proof fn lemma_block_end_rebudget(p: Progress, token: Token, line: usize, from: nat, budget: nat)
    requires
        p.state.current_line == line,
    ensures
        block_end_step(rebudget(p, line, budget), token, budget) == rebudget(
            block_end_step(p, token, from),
            line,
            budget,
        ),
{
    let s = p.state;
    match token {
        Token::EndParagraph => {
            lemma_flushed_paragraph_rebudget(p, line, budget);
        },
        Token::EndHeading => {
            let h = s.heading;
            lemma_rebudget_push(
                p,
                BlockView::Heading { level: h.level->0, content: h.buffer, inline: h.inline },
                line,
                budget,
            );
        },
        Token::EndBlockQuote => {
            lemma_flushed_blockquote_rebudget(p, line, from, budget);
        },
        Token::EndCodeBlock => {
            lemma_flushed_code_rebudget(p, line, budget);
        },
        Token::EndList => {
            lemma_flushed_list_rebudget(
                Progress {
                    state: ParserStateView { list: ListStateView { depth: 0, ..s.list }, ..s },
                    blocks: p.blocks,
                },
                line,
                budget,
            );
        },
        _ => {},
    }
}

/// A part of a table is alike with any budget.
proof fn lemma_table_rebudget(p: Progress, token: Token, line: usize, budget: nat)
    ensures
        table_step(rebudget(p, line, budget), token) == rebudget(
            table_step(p, token),
            line,
            budget,
        ),
{
    lemma_flushed_table_rebudget(p, line, budget);
}

/// The start or end of a link or an image is alike with any budget.
proof fn lemma_link_rebudget(p: Progress, token: Token, line: usize, budget: nat)
    ensures
        link_step(rebudget(p, line, budget), token) == rebudget(link_step(p, token), line, budget),
{
    let s = p.state;
    lemma_rebudget_push(
        p,
        BlockView::Image {
            alt: s.link.text,
            src: s.link.url,
            title: if_stated(s.paragraph.buffer),
        },
        line,
        budget,
    );
}

/// A leaf token is alike with any budget.
proof fn lemma_leaf_rebudget(p: Progress, token: Token, line: usize, budget: nat)
    ensures
        leaf_step(rebudget(p, line, budget), token) == rebudget(leaf_step(p, token), line, budget),
{
    lemma_flushed_paragraph_rebudget(p, line, budget);
    lemma_rebudget_push(flushed_paragraph(p), BlockView::HorizontalRule, line, budget);
}

/// One token with one budget gives what it gives with another, once the
/// blocks of block quotes are taken with the first.
proof fn lemma_step_rebudget(p: Progress, token: Token, line: usize, from: nat, budget: nat)
    requires
        p.state.current_line == line,
    ensures
        step(rebudget(p, line, budget), token, budget) == rebudget(
            step(p, token, from),
            line,
            budget,
        ),
{
    if is_block_start(token) {
        lemma_block_start_rebudget(p, token, line, budget);
    } else if is_block_end(token) {
        lemma_block_end_rebudget(p, token, line, from, budget);
    } else if is_table_part(token) || token is StartTable {
        lemma_table_rebudget(p, token, line, budget);
    } else if is_style(token) {
    } else if is_link_part(token) {
        lemma_link_rebudget(p, token, line, budget);
    } else if is_leaf(token) {
        lemma_leaf_rebudget(p, token, line, budget);
    }
}

/// Tokens reduce alike with any budget, but for the blocks that block
/// quotes hold: those are what the text of the quote parses to with the
/// budget at hand.
pub proof fn lemma_reduced_rebudget(tokens: Seq<Token>, start_line: usize, from: nat, budget: nat)
    ensures
        reduced(tokens, start_line, budget) == blocks_with_budget(
            reduced(tokens, start_line, from),
            start_line,
            budget,
        ),
{
    let start = Progress { state: initial_state(start_line), blocks: Seq::empty() };
    assert(rebudget(start, start_line, budget).blocks =~= start.blocks);
    lemma_run_rebudget(tokens, tokens.len(), start, start_line, from, budget);
    let end = run(tokens, tokens.len(), start, from);
    lemma_run_traced(tokens, tokens.len(), start, start_line, from, false);
    let a = flushed_paragraph(end);
    let b = flushed_list(a);
    let c = flushed_code(b);
    let d = flushed_blockquote(c, from);
    lemma_flushed_paragraph_rebudget(end, start_line, budget);
    lemma_flushed_list_rebudget(a, start_line, budget);
    lemma_flushed_code_rebudget(b, start_line, budget);
    lemma_flushed_blockquote_rebudget(c, start_line, from, budget);
    lemma_flushed_table_rebudget(d, start_line, budget);
}

/// Any number of tokens with one budget give what they give with another,
/// once the blocks of block quotes are taken with the first.
proof fn lemma_run_rebudget(
    tokens: Seq<Token>,
    n: nat,
    start: Progress,
    line: usize,
    from: nat,
    budget: nat,
)
    requires
        start == (Progress { state: initial_state(line), blocks: Seq::empty() }),
    ensures
        run(tokens, n, start, budget) == rebudget(run(tokens, n, start, from), line, budget),
    decreases n,
{
    assert(rebudget(start, line, budget).blocks =~= start.blocks);
    if n == 0 || n > tokens.len() {
    } else {
        lemma_run_rebudget(tokens, (n - 1) as nat, start, line, from, budget);
        lemma_run_traced(tokens, (n - 1) as nat, start, line, from, false);
        lemma_step_rebudget(
            run(tokens, (n - 1) as nat, start, from),
            tokens[n - 1],
            line,
            from,
            budget,
        );
    }
}

/// Whether the parse of `text` never finds its budget used up: every block
/// quote was parsed with budget left, and so were the block quotes inside
/// its text and inside the bodies of the collapsible regions.
pub open spec fn within_budget(text: Seq<char>, start_line: usize, budget: nat) -> bool
    decreases budget, text.len(),
{
    let blocks = parse_blocks_within(text, start_line, budget);
    forall|i: int|
        0 <= i < blocks.len() ==> match #[trigger] blocks[i] {
            BlockView::Blockquote { content, .. } => budget > 0 && within_budget(
                content,
                start_line,
                (budget - 1) as nat,
            ),
            BlockView::Details { content, .. } => 0 < content.len() < text.len() ==> within_budget(
                content,
                0,
                budget,
            ),
            _ => true,
        }
}

/// Where the parse of a text never finds its budget used up, a greater
/// budget gives the same blocks.
pub proof fn lemma_budget_suffices(text: Seq<char>, start_line: usize, budget: nat, more: nat)
    requires
        within_budget(text, start_line, budget),
        budget <= more,
    ensures
        parse_blocks_within(text, start_line, more) == parse_blocks_within(
            text,
            start_line,
            budget,
        ),
    decreases budget, text.len(),
{
    let regions = details_regions(text, 0);
    let tokens = markdown_tokens(without_details(text, 0, 0), true, true, true);
    let small = parse_blocks_within(text, start_line, budget);
    let large = parse_blocks_within(text, start_line, more);
    let details_small = details_blocks(regions, text.len(), budget);
    let details_large = details_blocks(regions, text.len(), more);
    let reduced_small = reduced(tokens, start_line, budget);
    let reduced_large = reduced(tokens, start_line, more);
    lemma_reduced_rebudget(tokens, start_line, budget, more);
    lemma_reduced_traced(tokens, start_line, budget, false);
    lemma_details_regions_shorter(text, 0);
    assert(small.len() == large.len());
    assert forall|i: int| 0 <= i < small.len() implies small[i] == large[i] by {
        let before = reduced_small[i];
        assert(emitted_ok(before, start_line, budget, false));
        assert(reduced_large[i] == with_budget(before, start_line, more));
        assert(small[i] == resolved(before, details_small));
        assert(large[i] == resolved(reduced_large[i], details_large));
        match before {
            BlockView::Blockquote { content, blocks } => {
                assert(small[i] == before);
                lemma_budget_suffices(content, start_line, (budget - 1) as nat, (more - 1) as nat);
            },
            BlockView::Paragraph { content, .. } => {
                if small[i] != before {
                    let index = placeholder_index(content)->0 as int;
                    let region = regions[index];
                    assert(small[i] == details_block(region, text.len(), budget));
                    assert(large[i] == details_block(region, text.len(), more));
                    if region.content.len() > 0 {
                        lemma_budget_suffices(region.content, 0, budget, more);
                    }
                }
            },
            _ => {},
        }
    }
    assert(small =~= large);
}

/// Where the parse of a fragment never finds its budget used up, every block
/// quote of the fragment holds exactly the blocks that its text parses to,
/// from the line at which the fragment begins.
pub proof fn lemma_quotes_hold_their_parse(text: Seq<char>, start_line: usize)
    requires
        within_budget(text, start_line, usize::MAX as nat),
    ensures
        forall|i: int|
            0 <= i < parse_blocks(text, start_line).len() ==> (#[trigger] parse_blocks(
                text,
                start_line,
            )[i] matches BlockView::Blockquote { content, blocks } ==> blocks == parse_blocks(
                content,
                start_line,
            )),
{
    lemma_parse_blocks_nested(text, start_line);
    let all = parse_blocks(text, start_line);
    assert forall|i: int| 0 <= i < all.len() implies (
    #[trigger] all[i] matches BlockView::Blockquote { content, blocks } ==> blocks == parse_blocks(
        content,
        start_line,
    )) by {
        if let BlockView::Blockquote { content, blocks } = all[i] {
            lemma_budget_suffices(
                content,
                start_line,
                (usize::MAX - 1) as nat,
                usize::MAX as nat,
            );
        }
    }
}

/// Whether every heading among the blocks has a level from 1 to 6.
pub open spec fn heading_levels_in_range(blocks: Seq<BlockView>) -> bool {
    forall|i: int|
        0 <= i < blocks.len() ==> (#[trigger] blocks[i] matches BlockView::Heading { level, .. }
            ==> 1 <= level <= 6)
}

/// Reduces `tokens` to blocks, for a fragment that begins at line
/// `start_line`, with the given budget of block quotes that may be parsed
/// one inside another.
pub fn reduce_tokens(tokens: &Vec<Token>, start_line: usize, budget: usize) -> (blocks: Vec<
    Block,
>)
    ensures
        blocks_view(blocks@) == reduced(tokens@, start_line, budget as nat),
    decreases budget, 0nat, 2nat, 0nat,
{
    let mut blocks: Vec<Block> = Vec::new();
    let mut state = ParserState::new(start_line, budget);
    let ghost start = Progress { state: initial_state(start_line), blocks: Seq::empty() };
    assert(blocks_view(blocks@) =~= Seq::empty());
    let mut i: usize = 0;
    while i < tokens.len()
        invariant
            i <= tokens@.len(),
            state.budget == budget,
            state.list.depth <= i,
            state.list.item_depth <= i,
            progress(state, blocks) == run(tokens@, i as nat, start, budget as nat),
        decreases tokens@.len() - i,
    {
        proof {
            lemma_step_depths(progress(state, blocks), tokens@[i as int], budget as nat);
        }
        process_event(&tokens[i], &mut state, &mut blocks);
        i += 1;
    }
    state.finalize(&mut blocks);
    blocks
}

/// Sets the collapsible regions of `markdown` aside: returns the text with a
/// placeholder paragraph in place of each region, and the regions as blocks,
/// each with the blocks that its body parses to.
pub fn extract_details_blocks(markdown: &str) -> (out: (String, Vec<Block>))
    ensures
        out.0@ == without_details(markdown@, 0, 0),
        blocks_view(out.1@) == details_blocks(
            details_regions(markdown@, 0),
            markdown@.len(),
            usize::MAX as nat,
        ),
{
    extract_details_within(markdown, usize::MAX)
}

/// Sets the collapsible regions of `markdown` aside, with the given budget
/// of block quotes that may be parsed one inside another.
fn extract_details_within(markdown: &str, budget: usize) -> (out: (String, Vec<Block>))
    ensures
        out.0@ == without_details(markdown@, 0, 0),
        blocks_view(out.1@) == details_blocks(
            details_regions(markdown@, 0),
            markdown@.len(),
            budget as nat,
        ),
    decreases budget, markdown@.len(), 2nat, 0nat,
{
    let chars = chars_of(markdown);
    let mut details: Vec<Block> = Vec::new();
    let mut result = String::new();
    let mut pos: usize = 0;
    let ghost text = markdown@;
    let ghost length = markdown@.len();
    let ghost mut found: Seq<DetailsRegion> = Seq::empty();
    assert(blocks_view(details@) =~= details_blocks(found, length, budget as nat));
    while pos < chars.len()
        invariant
            chars@ == text,
            text == markdown@,
            length == text.len(),
            found.len() == details@.len(),
            blocks_view(details@) == details_blocks(found, length, budget as nat),
            result@ + without_details(text, pos as int, details@.len() as nat) == without_details(
                text,
                0,
                0,
            ),
            found + details_regions(text, pos as int) == details_regions(text, 0),
        decreases chars@.len() - pos,
    {
        match region_at(&chars, pos) {
            Some((summary, content, end)) => {
                let ghost region = details_at(text, pos as int)->0;
                let nested = if !content.as_str().is_empty() {
                    parse_content_within(content.as_str(), 0, budget)
                } else {
                    let none: Vec<Block> = Vec::new();
                    assert(blocks_view(none@) =~= Seq::empty());
                    none
                };
                let block = Block::Details { summary, content, blocks: nested };
                assert(block@ == details_block(region, length, budget as nat));
                let ghost before = result@;
                push_placeholder(&mut result, details.len());
                push_block(&mut details, block);
                proof {
                    assert(blocks_view(details@) =~= details_blocks(
                        found.push(region),
                        length,
                        budget as nat,
                    ));
                    assert(found.push(region) + details_regions(text, region.end) =~= found
                        + details_regions(text, pos as int));
                    assert(result@ + without_details(text, region.end, details@.len() as nat)
                        =~= before + without_details(text, pos as int, found.len()));
                    found = found.push(region);
                }
                pos = end;
            },
            None => {
                let ghost before = result@;
                result.push(chars[pos]);
                assert(result@ + without_details(text, pos + 1, details@.len() as nat) =~= before
                    + without_details(text, pos as int, details@.len() as nat));
                pos += 1;
            },
        }
    }
    assert(result@ =~= result@ + without_details(text, pos as int, details@.len() as nat));
    assert(found =~= found + details_regions(text, pos as int));
    (result, details)
}

/// Parses a fragment of markdown, which begins at line `start_line`, into blocks.
pub fn parse_content(markdown: &str, start_line: usize) -> (blocks: Vec<Block>)
    ensures
        blocks_view(blocks@) == parse_blocks(markdown@, start_line),
        heading_levels_in_range(blocks_view(blocks@)),
{
    parse_content_within(markdown, start_line, usize::MAX)
}

/// Parses a fragment of markdown into blocks, with the given budget of block
/// quotes that may be parsed one inside another.
pub fn parse_content_within(markdown: &str, start_line: usize, budget: usize) -> (blocks: Vec<
    Block,
>)
    ensures
        blocks_view(blocks@) == parse_blocks_within(markdown@, start_line, budget as nat),
        heading_levels_in_range(blocks_view(blocks@)),
    decreases budget, markdown@.len(), 3nat, 0nat,
{
    let (processed, details) = extract_details_within(markdown, budget);
    let tokens = tokenize(processed.as_str(), true, true, true);
    let mut blocks = reduce_tokens(&tokens, start_line, budget);
    let ghost reduced_blocks = blocks_view(blocks@);
    proof {
        lemma_reduced_traced(tokens@, start_line, budget as nat, true);
    }
    let mut i: usize = 0;
    while i < blocks.len()
        invariant
            i <= blocks@.len(),
            blocks@.len() == reduced_blocks.len(),
            forall|j: int|
                0 <= j < i ==> block_view(#[trigger] blocks@[j]) == resolved(
                    reduced_blocks[j],
                    blocks_view(details@),
                ),
            forall|j: int|
                i <= j < blocks@.len() ==> block_view(#[trigger] blocks@[j]) == reduced_blocks[j],
        decreases blocks@.len() - i,
    {
        let index = match &blocks[i] {
            Block::Paragraph { content, .. } => placeholder_index_of(content.as_str()),
            _ => None,
        };
        match index {
            Some(index) => {
                if index < details.len() {
                    let block = details[index].clone();
                    blocks.set(i, block);
                }
            },
            None => {},
        }
        i += 1;
    }
    assert(blocks_view(blocks@) =~= all_resolved(reduced_blocks, blocks_view(details@)));
    assert forall|j: int| 0 <= j < blocks@.len() implies (
    #[trigger] blocks_view(blocks@)[j] matches BlockView::Heading { level, .. } ==> 1 <= level
        <= 6) by {
        let after = blocks_view(blocks@)[j];
        assert(emitted_ok(reduced_blocks[j], start_line, budget as nat, true));
        assert(after == resolved(reduced_blocks[j], blocks_view(details@)));
        if after != reduced_blocks[j] {
            let index = placeholder_index(reduced_blocks[j]->Paragraph_content)->0 as int;
            assert(after == details_blocks(
                details_regions(markdown@, 0),
                markdown@.len(),
                budget as nat,
            )[index]);
        }
    }
    blocks
}

} // verus!
