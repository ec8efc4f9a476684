//! Markdown parsing and document structure extraction.

pub mod builder;
pub mod content;
pub mod details;
pub mod document;
pub mod events;
pub mod links;
pub mod output;
pub mod slug;
pub mod state;
pub mod text;
pub mod utils;

pub use builder::build_json_output;
pub use document::{Document, Heading, HeadingNode};
pub use links::{extract_links, Link, LinkTarget};
pub use output::{Block, DocumentOutput, InlineElement, Section};

use document::{headings_view, HeadingView};
use events::{level_in_range, levels_in_range, markdown_tokens, tokenize, Token};
use text::{trim, trim_string};
use vstd::prelude::*;

verus! {

/// The state of the search for headings between two tokens.
pub struct HeadingScan {
    /// The level of the heading that is open and the text gathered for it.
    pub current: Option<(usize, Seq<char>)>,
    /// The headings found so far.
    pub headings: Seq<HeadingView>,
}

/// What one token does to the search: the start of a heading opens it, text
/// inside a heading joins its text, and the end of a heading emits it with
/// its text trimmed.
pub open spec fn heading_step(s: HeadingScan, token: Token) -> HeadingScan {
    match token {
        Token::StartHeading(level) => HeadingScan {
            current: Some((level, Seq::empty())),
            headings: s.headings,
        },
        Token::Text(text) => match s.current {
            Some((level, gathered)) => HeadingScan {
                current: Some((level, gathered + text@)),
                headings: s.headings,
            },
            None => s,
        },
        Token::EndHeading => match s.current {
            Some((level, gathered)) => HeadingScan {
                current: None,
                headings: s.headings.push(HeadingView { level: level, text: trim(gathered) }),
            },
            None => s,
        },
        _ => s,
    }
}

/// The search after the first `n` of `tokens`.
pub open spec fn heading_scan(tokens: Seq<Token>, n: nat) -> HeadingScan
    decreases n,
{
    if n == 0 || n > tokens.len() {
        HeadingScan { current: None, headings: Seq::empty() }
    } else {
        heading_step(heading_scan(tokens, (n - 1) as nat), tokens[n - 1])
    }
}

/// The headings that `tokens` hold, in order.
pub open spec fn token_headings(tokens: Seq<Token>) -> Seq<HeadingView> {
    heading_scan(tokens, tokens.len()).headings
}

/// Whether every heading has a level from 1 to 6.
pub open spec fn levels_from_one_to_six(headings: Seq<Heading>) -> bool {
    forall|i: int| 0 <= i < headings.len() ==> 1 <= (#[trigger] headings[i]).level <= 6
}

/// The headings that `tokens` hold, in order.
pub fn headings_from_tokens(tokens: &Vec<Token>) -> (headings: Vec<Heading>)
    ensures
        headings_view(headings@) == token_headings(tokens@),
        levels_in_range(tokens@) ==> levels_from_one_to_six(headings@),
{
    let mut headings: Vec<Heading> = Vec::new();
    let mut current: Option<(usize, String)> = None;
    assert(headings_view(headings@) =~= Seq::empty());
    let mut i: usize = 0;
    while i < tokens.len()
        invariant
            i <= tokens@.len(),
            heading_scan(tokens@, i as nat) == (HeadingScan {
                current: match current {
                    Some((level, text)) => Some((level, text@)),
                    None => None,
                },
                headings: headings_view(headings@),
            }),
            levels_in_range(tokens@) ==> levels_from_one_to_six(headings@) && (
            current matches Some((level, _)) ==> 1 <= level <= 6),
        decreases tokens@.len() - i,
    {
        assert(levels_in_range(tokens@) ==> level_in_range(tokens@[i as int]));
        match &tokens[i] {
            Token::StartHeading(level) => {
                current = Some((*level, String::new()));
            },
            Token::Text(text) => {
                current = match current {
                    Some((level, gathered)) => {
                        let mut gathered = gathered;
                        gathered.append(text.as_str());
                        Some((level, gathered))
                    },
                    None => None,
                };
            },
            Token::EndHeading => {
                current = match current {
                    Some((level, gathered)) => {
                        let ghost before = headings_view(headings@);
                        let heading = Heading { level, text: trim_string(gathered.as_str()) };
                        headings.push(heading);
                        assert(headings_view(headings@) =~= before.push(heading@));
                        None
                    },
                    None => None,
                };
            },
            _ => {},
        }
        i += 1;
    }
    headings
}

/// Parses markdown content: the document holds the content as it is, and
/// the headings that the tokenizer finds in it.
pub fn parse_markdown(content: &str) -> (document: Document)
    ensures
        document.content@ == content@,
        headings_view(document.headings@) == token_headings(
            markdown_tokens(content@, false, false, false),
        ),
        levels_from_one_to_six(document.headings@),
{
    let tokens = tokenize(content, false, false, false);
    let headings = headings_from_tokens(&tokens);
    Document::new(content.to_owned(), headings)
}

} // verus!
