//! The boundary to the markdown tokenizer: the events that `pulldown_cmark`
//! yields for a text, read into tokens that the parser works on.

use super::output::Alignment;
use pulldown_cmark::{CodeBlockKind, Event, Options, Parser, Tag, TagEnd};
use vstd::prelude::*;

verus! {

/// What the parser reads of one tokenizer event.
#[derive(Debug, PartialEq)]
pub enum Token {
    StartParagraph,
    EndParagraph,
    /// A heading begins; the field is its level.
    StartHeading(usize),
    EndHeading,
    StartBlockQuote,
    EndBlockQuote,
    /// A fenced code block begins; the field is its info string, which may be empty.
    StartFencedCode(String),
    StartIndentedCode,
    EndCodeBlock,
    /// A list begins; the field is the number of the first item of an ordered list.
    StartList(Option<u64>),
    EndList,
    StartItem,
    EndItem,
    /// A table begins; the field holds the alignment of each column.
    StartTable(Vec<Alignment>),
    EndTable,
    StartTableHead,
    EndTableHead,
    StartTableRow,
    EndTableRow,
    StartTableCell,
    EndTableCell,
    StartEmphasis,
    EndEmphasis,
    StartStrong,
    EndStrong,
    StartStrikethrough,
    EndStrikethrough,
    /// A link begins; the field is its destination.
    StartLink(String),
    EndLink,
    /// An image begins; the fields are its source and its title.
    StartImage(String, String),
    EndImage,
    Text(String),
    /// An inline code span.
    Code(String),
    SoftBreak,
    HardBreak,
    Rule,
    /// A task list marker; the field says whether the box is checked.
    TaskListMarker(bool),
    /// Any event that the parser does not read.
    Other,
}

/// `pulldown_cmark::Event`: one event of the tokenizer. The library carries
/// such a value from the tokenizer to the functions that read it into a
/// token, and never looks inside.
#[verifier::external_type_specification]
#[verifier::external_body]
pub struct ExEvent<'a>(Event<'a>);

/// The events that the parser of `pulldown_cmark` yields for `text` with the
/// given extensions switched on or off.
pub uninterp spec fn markdown_events(
    text: Seq<char>,
    tables: bool,
    strikethrough: bool,
    tasklists: bool,
) -> Seq<Event<'static>>;

/// The events that the offset iterator of `pulldown_cmark` yields for `text`
/// with no extension switched on, each with the byte offset at which its
/// source begins.
pub uninterp spec fn markdown_offset_events(text: Seq<char>) -> Seq<(Event<'static>, usize)>;

/// The token that stands for a tokenizer event: the same variant with the
/// fields that the parser reads, and `Token::Other` for every event that it
/// does not read.
pub uninterp spec fn event_token(event: Event<'static>) -> Token;

/// A text, a code span, a break, a rule or a task list marker.
pub open spec fn is_leaf(t: Token) -> bool {
    t is Text || t is Code || t is SoftBreak || t is HardBreak || t is Rule || t is TaskListMarker
}

/// The start of a paragraph, heading, block quote, code block, list or list item.
pub open spec fn is_block_start(t: Token) -> bool {
    t is StartParagraph || t is StartHeading || t is StartBlockQuote || t is StartFencedCode
        || t is StartIndentedCode || t is StartList || t is StartItem
}

/// The end of a paragraph, heading, block quote, code block, list or list item.
pub open spec fn is_block_end(t: Token) -> bool {
    t is EndParagraph || t is EndHeading || t is EndBlockQuote || t is EndCodeBlock || t is EndList
        || t is EndItem
}

/// The start or end of a part of a table, or the end of a table.
pub open spec fn is_table_part(t: Token) -> bool {
    t is EndTable || t is StartTableHead || t is EndTableHead || t is StartTableRow
        || t is EndTableRow || t is StartTableCell || t is EndTableCell
}

/// The start or end of an emphasis, a strong emphasis or a strikethrough.
pub open spec fn is_style(t: Token) -> bool {
    t is StartEmphasis || t is EndEmphasis || t is StartStrong || t is EndStrong
        || t is StartStrikethrough || t is EndStrikethrough
}

/// The start or end of a link or an image.
pub open spec fn is_link_part(t: Token) -> bool {
    t is StartLink || t is EndLink || t is StartImage || t is EndImage
}

/// Whether the level of the heading that a token starts is one of the six
/// that markdown has; any other token passes.
pub open spec fn level_in_range(t: Token) -> bool {
    t matches Token::StartHeading(level) ==> 1 <= level <= 6
}

/// `t` where `wanted` holds, nothing otherwise.
pub open spec fn only_if(wanted: bool, t: Token) -> Option<Token> {
    if wanted {
        Some(t)
    } else {
        None
    }
}

/// Runs `pulldown_cmark::Parser::new_ext` on `text`, with the options
/// `ENABLE_TABLES`, `ENABLE_STRIKETHROUGH` and `ENABLE_TASKLISTS` set as the
/// three flags say, and collects the events that the parser yields, each made
/// owned. The result depends on the arguments alone and is named
/// `markdown_events`.
#[verifier::external_body]
fn parse_events(text: &str, tables: bool, strikethrough: bool, tasklists: bool) -> (events: Vec<
    Event<'static>,
>)
    ensures
        events@ == markdown_events(text@, tables, strikethrough, tasklists),
{
    let mut options = Options::empty();
    options.set(Options::ENABLE_TABLES, tables);
    options.set(Options::ENABLE_STRIKETHROUGH, strikethrough);
    options.set(Options::ENABLE_TASKLISTS, tasklists);
    Parser::new_ext(text, options).map(|event| event.into_static()).collect()
}

/// Runs `pulldown_cmark::Parser::new` on `text` and collects what its offset
/// iterator yields: each event, made owned, with the start of its source
/// range. The result depends on the text alone and is named
/// `markdown_offset_events`.
#[verifier::external_body]
fn parse_offset_events(text: &str) -> (events: Vec<(Event<'static>, usize)>)
    ensures
        events@ == markdown_offset_events(text@),
{
    let events = Parser::new(text).into_offset_iter();
    events.map(|(event, range)| (event.into_static(), range.start)).collect()
}

/// Reads `Event::Text`, `Code`, `SoftBreak`, `HardBreak`, `Rule` and
/// `TaskListMarker` into the token of the same name, with the text or the
/// flag that the event holds; any other event gives nothing.
#[verifier::external_body]
fn leaf_token(event: &Event<'static>) -> (token: Option<Token>)
    ensures
        token == only_if(is_leaf(event_token(*event)), event_token(*event)),
{
    match event {
        Event::Text(text) => Some(Token::Text(text.to_string())),
        Event::Code(text) => Some(Token::Code(text.to_string())),
        Event::SoftBreak => Some(Token::SoftBreak),
        Event::HardBreak => Some(Token::HardBreak),
        Event::Rule => Some(Token::Rule),
        Event::TaskListMarker(checked) => Some(Token::TaskListMarker(*checked)),
        _ => None,
    }
}

/// Reads `Event::Start` of the tags `Paragraph`, `Heading`, `BlockQuote`,
/// `CodeBlock`, `List` and `Item` into the start token of the same name, with
/// the heading's level as a number, the info string of a fenced code block
/// and the first number of a list; any other event gives nothing. The level
/// of a heading is one of `H1 = 1` to `H6`, so the number is one of 1 to 6.
#[verifier::external_body]
fn block_start_token(event: &Event<'static>) -> (token: Option<Token>)
    ensures
        token == only_if(is_block_start(event_token(*event)), event_token(*event)),
        token matches Some(t) ==> level_in_range(t),
{
    match event {
        Event::Start(Tag::Paragraph) => Some(Token::StartParagraph),
        Event::Start(Tag::Heading { level, .. }) => Some(Token::StartHeading(*level as usize)),
        Event::Start(Tag::BlockQuote(_)) => Some(Token::StartBlockQuote),
        Event::Start(Tag::CodeBlock(CodeBlockKind::Fenced(info))) => Some(
            Token::StartFencedCode(info.to_string()),
        ),
        Event::Start(Tag::CodeBlock(CodeBlockKind::Indented)) => Some(Token::StartIndentedCode),
        Event::Start(Tag::List(first)) => Some(Token::StartList(*first)),
        Event::Start(Tag::Item) => Some(Token::StartItem),
        _ => None,
    }
}

/// Reads `Event::End` of the tags `Paragraph`, `Heading`, `BlockQuote`,
/// `CodeBlock`, `List` and `Item` into the end token of the same name; any
/// other event gives nothing.
#[verifier::external_body]
fn block_end_token(event: &Event<'static>) -> (token: Option<Token>)
    ensures
        token == only_if(is_block_end(event_token(*event)), event_token(*event)),
{
    match event {
        Event::End(TagEnd::Paragraph) => Some(Token::EndParagraph),
        Event::End(TagEnd::Heading(_)) => Some(Token::EndHeading),
        Event::End(TagEnd::BlockQuote(_)) => Some(Token::EndBlockQuote),
        Event::End(TagEnd::CodeBlock) => Some(Token::EndCodeBlock),
        Event::End(TagEnd::List(_)) => Some(Token::EndList),
        Event::End(TagEnd::Item) => Some(Token::EndItem),
        _ => None,
    }
}

/// Reads `Event::Start(Tag::Table(..))` into the alignments that it lists, one
/// for one; any other event gives nothing.
#[verifier::external_body]
fn table_start_token(event: &Event<'static>) -> (token: Option<Token>)
    ensures
        token == only_if(event_token(*event) is StartTable, event_token(*event)),
{
    match event {
        Event::Start(Tag::Table(columns)) => Some(Token::StartTable(columns.iter().map(|c| match c {
            pulldown_cmark::Alignment::None => Alignment::Unspecified,
            pulldown_cmark::Alignment::Left => Alignment::Left,
            pulldown_cmark::Alignment::Center => Alignment::Center,
            pulldown_cmark::Alignment::Right => Alignment::Right,
        }).collect())),
        _ => None,
    }
}

/// Reads `Event::End(TagEnd::Table)` and the start and end of `TableHead`,
/// `TableRow` and `TableCell` into the token of the same name; any other
/// event gives nothing.
#[verifier::external_body]
fn table_part_token(event: &Event<'static>) -> (token: Option<Token>)
    ensures
        token == only_if(is_table_part(event_token(*event)), event_token(*event)),
{
    match event {
        Event::End(TagEnd::Table) => Some(Token::EndTable),
        Event::Start(Tag::TableHead) => Some(Token::StartTableHead),
        Event::End(TagEnd::TableHead) => Some(Token::EndTableHead),
        Event::Start(Tag::TableRow) => Some(Token::StartTableRow),
        Event::End(TagEnd::TableRow) => Some(Token::EndTableRow),
        Event::Start(Tag::TableCell) => Some(Token::StartTableCell),
        Event::End(TagEnd::TableCell) => Some(Token::EndTableCell),
        _ => None,
    }
}

/// Reads the start and end of `Emphasis`, `Strong` and `Strikethrough` into
/// the token of the same name; any other event gives nothing.
#[verifier::external_body]
fn style_token(event: &Event<'static>) -> (token: Option<Token>)
    ensures
        token == only_if(is_style(event_token(*event)), event_token(*event)),
{
    match event {
        Event::Start(Tag::Emphasis) => Some(Token::StartEmphasis),
        Event::End(TagEnd::Emphasis) => Some(Token::EndEmphasis),
        Event::Start(Tag::Strong) => Some(Token::StartStrong),
        Event::End(TagEnd::Strong) => Some(Token::EndStrong),
        Event::Start(Tag::Strikethrough) => Some(Token::StartStrikethrough),
        Event::End(TagEnd::Strikethrough) => Some(Token::EndStrikethrough),
        _ => None,
    }
}

/// Reads the start and end of `Link` and `Image` into the token of the same
/// name, with the destination of a link, and the destination and title of an
/// image; any other event gives nothing.
#[verifier::external_body]
fn link_part_token(event: &Event<'static>) -> (token: Option<Token>)
    ensures
        token == only_if(is_link_part(event_token(*event)), event_token(*event)),
{
    match event {
        Event::Start(Tag::Link { dest_url, .. }) => Some(Token::StartLink(dest_url.to_string())),
        Event::End(TagEnd::Link) => Some(Token::EndLink),
        Event::Start(Tag::Image { dest_url, title, .. }) => Some(
            Token::StartImage(dest_url.to_string(), title.to_string()),
        ),
        Event::End(TagEnd::Image) => Some(Token::EndImage),
        _ => None,
    }
}

/// The token that stands for `event`.
fn token_of(event: &Event<'static>) -> (token: Token)
    ensures
        token == event_token(*event),
        level_in_range(token),
{
    if let Some(token) = leaf_token(event) {
        token
    } else if let Some(token) = block_start_token(event) {
        token
    } else if let Some(token) = block_end_token(event) {
        token
    } else if let Some(token) = table_start_token(event) {
        token
    } else if let Some(token) = table_part_token(event) {
        token
    } else if let Some(token) = style_token(event) {
        token
    } else if let Some(token) = link_part_token(event) {
        token
    } else {
        Token::Other
    }
}

/// The tokens of `text` with the given extensions switched on or off.
pub open spec fn markdown_tokens(
    text: Seq<char>,
    tables: bool,
    strikethrough: bool,
    tasklists: bool,
) -> Seq<Token> {
    let events = markdown_events(text, tables, strikethrough, tasklists);
    Seq::new(events.len(), |i: int| event_token(events[i]))
}

/// The tokens of `text` with no extension switched on, each with the byte
/// offset at which its source begins.
pub open spec fn markdown_offset_tokens(text: Seq<char>) -> Seq<(Token, usize)> {
    let events = markdown_offset_events(text);
    Seq::new(events.len(), |i: int| (event_token(events[i].0), events[i].1))
}

/// Whether every heading that the tokens start has a level from 1 to 6.
pub open spec fn levels_in_range(tokens: Seq<Token>) -> bool {
    forall|i: int| 0 <= i < tokens.len() ==> level_in_range(#[trigger] tokens[i])
}

/// Tokenizes `text` with the given extensions switched on or off.
pub fn tokenize(text: &str, tables: bool, strikethrough: bool, tasklists: bool) -> (tokens: Vec<
    Token,
>)
    ensures
        tokens@ == markdown_tokens(text@, tables, strikethrough, tasklists),
        levels_in_range(tokens@),
{
    let events = parse_events(text, tables, strikethrough, tasklists);
    let mut tokens: Vec<Token> = Vec::new();
    let mut i: usize = 0;
    while i < events.len()
        invariant
            i <= events@.len(),
            tokens@.len() == i,
            forall|j: int| 0 <= j < i ==> tokens@[j] == event_token(events@[j]),
            forall|j: int| 0 <= j < i ==> level_in_range(#[trigger] tokens@[j]),
        decreases events@.len() - i,
    {
        let token = token_of(&events[i]);
        tokens.push(token);
        i += 1;
    }
    assert(tokens@ =~= markdown_tokens(text@, tables, strikethrough, tasklists));
    tokens
}

/// Tokenizes `text` with no extension switched on, and keeps for each token
/// the byte offset at which its source begins.
pub fn tokenize_with_offsets(text: &str) -> (tokens: Vec<(Token, usize)>)
    ensures
        tokens@ == markdown_offset_tokens(text@),
{
    let events = parse_offset_events(text);
    let mut tokens: Vec<(Token, usize)> = Vec::new();
    let mut i: usize = 0;
    while i < events.len()
        invariant
            i <= events@.len(),
            tokens@.len() == i,
            forall|j: int| 0 <= j < i ==> tokens@[j] == (event_token(events@[j].0), events@[j].1),
        decreases events@.len() - i,
    {
        let token = token_of(&events[i].0);
        tokens.push((token, events[i].1));
        i += 1;
    }
    assert(tokens@ =~= markdown_offset_tokens(text@));
    tokens
}

} // verus!
