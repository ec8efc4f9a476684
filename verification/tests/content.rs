use treemd::parser::content::{
    extract_details_blocks, parse_content, parse_content_within, process_event, reduce_tokens,
    ParserState,
};
use treemd::parser::events::{tokenize, tokenize_with_offsets, Token};
use treemd::parser::output::{Alignment, Block, InlineElement, ListItem};

#[test]
fn test_list_with_code_block() {
    let markdown = "1. Test1:\n   ```\n   test1\n   ```\n\n2. Test2:\n   test2";

    let blocks = parse_content(markdown, 0);

    assert_eq!(blocks.len(), 1);

    if let Block::List { ordered, items } = &blocks[0] {
        assert!(ordered, "Should be an ordered list");
        assert_eq!(items.len(), 2, "Should have 2 items");

        assert_eq!(items[0].content, "Test1:");
        assert_eq!(
            items[0].blocks.len(),
            1,
            "First item should have 1 nested block"
        );
        if let Block::Code { content, .. } = &items[0].blocks[0] {
            assert_eq!(content, "test1");
        } else {
            panic!("Expected Code block in first item");
        }

        assert!(items[1].content.contains("Test2:"));
        assert!(items[1].content.contains("test2"));
        assert!(
            items[1].blocks.is_empty(),
            "Second item should have no nested blocks"
        );
    } else {
        panic!("Expected List block");
    }
}

#[test]
fn test_list_starting_with_code_block() {
    let markdown = "1. ```\n   code only\n   ```";

    let blocks = parse_content(markdown, 0);
    assert_eq!(blocks.len(), 1);

    if let Block::List { items, .. } = &blocks[0] {
        assert_eq!(items.len(), 1);
        assert!(items[0].content.is_empty());
        assert_eq!(items[0].blocks.len(), 1);
    } else {
        panic!("Expected List block");
    }
}

#[test]
fn test_list_with_multiple_code_blocks() {
    let markdown = "1. First item:\n   ```rust\n   fn main() {}\n   ```\n   ```python\n   print(\"hello\")\n   ```";

    let blocks = parse_content(markdown, 0);
    assert_eq!(blocks.len(), 1);

    if let Block::List { items, .. } = &blocks[0] {
        assert_eq!(items.len(), 1);

        assert_eq!(items[0].content, "First item:");
        assert_eq!(items[0].blocks.len(), 2, "Should have 2 code blocks");

        if let Block::Code { language, .. } = &items[0].blocks[0] {
            assert_eq!(language.as_deref(), Some("rust"));
        }
        if let Block::Code { language, .. } = &items[0].blocks[1] {
            assert_eq!(language.as_deref(), Some("python"));
        }
    } else {
        panic!("Expected List block");
    }
}


fn text(value: &str) -> InlineElement {
    InlineElement::Text {
        value: value.to_string(),
    }
}

fn paragraph(content: &str, inline: Vec<InlineElement>) -> Block {
    Block::Paragraph {
        content: content.to_string(),
        inline,
    }
}

fn plain(content: &str) -> Block {
    paragraph(content, vec![text(content)])
}

#[test]
fn list_item_that_is_only_a_code_block() {
    let blocks = parse_content("1. ```\n   code only\n   ```", 0);
    assert_eq!(
        blocks,
        vec![Block::List {
            ordered: true,
            items: vec![ListItem {
                checked: None,
                content: String::new(),
                inline: Vec::new(),
                blocks: vec![Block::Code {
                    language: None,
                    content: "code only".to_string(),
                    start_line: 0,
                    end_line: 0,
                }],
            }],
        }]
    );
}

#[test]
fn empty_fragment_has_no_blocks() {
    assert!(parse_content("", 0).is_empty());
    assert!(parse_content("   \n\n", 3).is_empty());
}

#[test]
fn paragraph_with_styles() {
    assert_eq!(
        parse_content("Hello *world* and **more** and ~~gone~~ and `code`.", 0),
        vec![paragraph(
            "Hello world and more and gone and code.",
            vec![
                text("Hello "),
                InlineElement::Emphasis {
                    value: "world".to_string()
                },
                text(" and "),
                InlineElement::Strong {
                    value: "more".to_string()
                },
                text(" and "),
                InlineElement::Strikethrough {
                    value: "gone".to_string()
                },
                text(" and "),
                InlineElement::Code {
                    value: "code".to_string()
                },
                text("."),
            ]
        )]
    );
}

#[test]
fn breaks_inside_a_paragraph() {
    assert_eq!(
        parse_content("a\nb", 0),
        vec![paragraph("a b", vec![text("a"), text(" "), text("b")])]
    );
    assert_eq!(
        parse_content("a  \nb", 0),
        vec![paragraph("a\nb", vec![text("a"), text("\n"), text("b")])]
    );
}

#[test]
fn heading_block_leaves_code_spans_out() {
    assert_eq!(
        parse_content("## A **b** `c`", 0),
        vec![Block::Heading {
            level: 2,
            content: "A b ".to_string(),
            inline: vec![
                text("A "),
                InlineElement::Strong {
                    value: "b".to_string()
                },
                text(" "),
            ],
        }]
    );
}

#[test]
fn fenced_code_keeps_language_and_line() {
    assert_eq!(
        parse_content("```rust\nfn main() {}\n\n```", 7),
        vec![Block::Code {
            language: Some("rust".to_string()),
            content: "fn main() {}".to_string(),
            start_line: 7,
            end_line: 7,
        }]
    );
}

#[test]
fn indented_code_has_no_language() {
    assert_eq!(
        parse_content("    let x = 1;\n", 0),
        vec![Block::Code {
            language: None,
            content: "let x = 1;".to_string(),
            start_line: 0,
            end_line: 0,
        }]
    );
}

#[test]
fn rule_between_paragraphs() {
    assert_eq!(
        parse_content("above\n\n---\n\nbelow", 0),
        vec![plain("above"), Block::HorizontalRule, plain("below")]
    );
}

#[test]
fn block_quote_is_parsed_in_turn() {
    assert_eq!(
        parse_content("> quoted *text*", 4),
        vec![Block::Blockquote {
            content: "quoted text".to_string(),
            blocks: vec![plain("quoted text")],
        }]
    );
}

#[test]
fn block_quote_whose_text_is_markdown() {
    assert_eq!(
        parse_content("> \\# Title", 0),
        vec![Block::Blockquote {
            content: "# Title".to_string(),
            blocks: vec![Block::Heading {
                level: 1,
                content: "Title".to_string(),
                inline: vec![text("Title")],
            }],
        }]
    );
}

#[test]
fn table_with_alignments() {
    assert_eq!(
        parse_content("| A | B | C | D |\n|:--|--:|:-:|---|\n| 1 | *2* | 3 | 4 |\n| 5 | 6 | 7 | 8 |", 0),
        vec![Block::Table {
            headers: vec![
                "A".to_string(),
                "B".to_string(),
                "C".to_string(),
                "D".to_string()
            ],
            alignments: vec![
                Alignment::Left,
                Alignment::Right,
                Alignment::Center,
                Alignment::Unspecified
            ],
            rows: vec![
                vec![
                    "1".to_string(),
                    "2".to_string(),
                    "3".to_string(),
                    "4".to_string()
                ],
                vec![
                    "5".to_string(),
                    "6".to_string(),
                    "7".to_string(),
                    "8".to_string()
                ],
            ],
        }]
    );
}

#[test]
fn link_inside_a_paragraph() {
    assert_eq!(
        parse_content("See [docs](d.md).", 0),
        vec![paragraph(
            "See [docs](d.md).",
            vec![
                text("See "),
                InlineElement::Link {
                    text: "docs".to_string(),
                    url: "d.md".to_string(),
                    title: None
                },
                text("."),
            ]
        )]
    );
}

#[test]
fn badge_gives_one_link_with_the_outer_destination() {
    assert_eq!(
        parse_content("[![badge](img.png)](https://x.org)", 0),
        vec![paragraph(
            "[badge](https://x.org)",
            vec![InlineElement::Link {
                text: "badge".to_string(),
                url: "https://x.org".to_string(),
                title: None
            }]
        )]
    );
}

#[test]
fn image_inside_a_paragraph_is_an_inline_element() {
    assert_eq!(
        parse_content("![alt](src.png \"Title\") tail", 0),
        vec![paragraph(
            " tail",
            vec![
                InlineElement::Image {
                    alt: "alt".to_string(),
                    src: "src.png".to_string(),
                    title: Some("Title".to_string())
                },
                text(" tail"),
            ]
        )]
    );
}

#[test]
fn task_list_items_are_checked_or_not() {
    let blocks = parse_content("- [x] done\n- [ ] todo\n- plain", 0);
    assert_eq!(
        blocks,
        vec![Block::List {
            ordered: false,
            items: vec![
                ListItem {
                    checked: Some(true),
                    content: "done".to_string(),
                    inline: vec![text("done")],
                    blocks: Vec::new()
                },
                ListItem {
                    checked: Some(false),
                    content: "todo".to_string(),
                    inline: vec![text("todo")],
                    blocks: Vec::new()
                },
                ListItem {
                    checked: None,
                    content: "plain".to_string(),
                    inline: vec![text("plain")],
                    blocks: Vec::new()
                },
            ],
        }]
    );
}

#[test]
fn nested_list_becomes_indented_text() {
    let blocks = parse_content("- a\n  - b\n    - [x] c\n  - d\n- e", 0);
    assert_eq!(
        blocks,
        vec![Block::List {
            ordered: false,
            items: vec![
                ListItem {
                    checked: None,
                    content: "a\n  b\n    [x] c\n  d".to_string(),
                    inline: vec![text("a"), text("b"), text("c"), text("d")],
                    blocks: Vec::new()
                },
                ListItem {
                    checked: None,
                    content: "e".to_string(),
                    inline: vec![text("e")],
                    blocks: Vec::new()
                },
            ],
        }]
    );
}

#[test]
fn loose_list_item_takes_its_first_paragraph() {
    let blocks = parse_content("- first\n\n  second\n\n- third", 0);
    assert_eq!(
        blocks,
        vec![Block::List {
            ordered: false,
            items: vec![
                ListItem {
                    checked: None,
                    content: "first".to_string(),
                    inline: vec![text("first")],
                    blocks: vec![plain("second")]
                },
                ListItem {
                    checked: None,
                    content: "third".to_string(),
                    inline: vec![text("third")],
                    blocks: Vec::new()
                },
            ],
        }]
    );
}

#[test]
fn details_region_becomes_a_block_of_its_own() {
    let blocks = parse_content(
        "before\n\n<details>\n<summary> More </summary>\n\nHidden *text*\n\n</details>\n\nafter",
        0,
    );
    assert_eq!(
        blocks,
        vec![
            plain("before"),
            Block::Details {
                summary: "More".to_string(),
                content: "Hidden *text*".to_string(),
                blocks: vec![paragraph(
                    "Hidden text",
                    vec![
                        text("Hidden "),
                        InlineElement::Emphasis {
                            value: "text".to_string()
                        }
                    ]
                )],
            },
            plain("after"),
        ]
    );
}

#[test]
fn details_without_summary_or_body() {
    assert_eq!(
        parse_content("<details open></details>", 0),
        vec![Block::Details {
            summary: String::new(),
            content: String::new(),
            blocks: Vec::new(),
        }]
    );
}

#[test]
fn extract_details_replaces_each_region_by_a_placeholder() {
    let (processed, details) =
        extract_details_blocks("a<details>x</details>b<details><summary>s</summary>y</details>");
    assert_eq!(processed, "a\n[DETAILS_BLOCK_0]\nb\n[DETAILS_BLOCK_1]\n");
    assert_eq!(
        details,
        vec![
            Block::Details {
                summary: String::new(),
                content: "x".to_string(),
                blocks: vec![plain("x")],
            },
            Block::Details {
                summary: "s".to_string(),
                content: "y".to_string(),
                blocks: vec![plain("y")],
            },
        ]
    );
}

#[test]
fn extract_details_leaves_an_unterminated_region_as_it_is() {
    let (processed, details) = extract_details_blocks("x <details> never closed é");
    assert_eq!(processed, "x <details> never closed é");
    assert!(details.is_empty());
    let (processed, details) = extract_details_blocks("<details no end of tag");
    assert_eq!(processed, "<details no end of tag");
    assert!(details.is_empty());
}

#[test]
fn extract_details_numbers_many_regions_in_decimal() {
    let source = "<details>x</details>".repeat(12);
    let (processed, details) = extract_details_blocks(&source);
    assert_eq!(details.len(), 12);
    assert!(processed.ends_with("\n[DETAILS_BLOCK_10]\n\n[DETAILS_BLOCK_11]\n"));
}

#[test]
fn placeholder_written_by_hand_stands_for_the_region_of_its_number() {
    let blocks = parse_content(
        "<details>x</details>\n\n[DETAILS_BLOCK_0]\n\n[DETAILS_BLOCK_1]\n\n[DETAILS_BLOCK_]",
        0,
    );
    let details = Block::Details {
        summary: String::new(),
        content: "x".to_string(),
        blocks: vec![plain("x")],
    };
    assert_eq!(blocks.len(), 4);
    assert_eq!(blocks[0], details);
    assert_eq!(blocks[1], details);
    assert!(matches!(&blocks[2], Block::Paragraph { content, .. } if content == "[DETAILS_BLOCK_1]"));
    assert!(matches!(&blocks[3], Block::Paragraph { content, .. } if content == "[DETAILS_BLOCK_]"));
}

#[test]
fn only_the_exact_text_of_a_placeholder_stands_for_a_region() {
    for written in [
        "[DETAILS_BLOCK_+0]",
        "[DETAILS_BLOCK_00]",
        "[DETAILS_BLOCK_ 0]",
        "[DETAILS_BLOCK_0x]",
        "[DETAILS_BLOCK_0] x",
        "[DETAILS_BLOCK_99999999999999999999999999]",
    ] {
        let source = format!("<details>x</details>\n\n{}", written);
        let blocks = parse_content(&source, 0);
        assert_eq!(blocks.len(), 2);
        assert!(matches!(&blocks[0], Block::Details { .. }));
        assert!(matches!(&blocks[1], Block::Paragraph { content, .. } if content == written));
    }
    let source = format!("{}\n\n  [DETAILS_BLOCK_10]  ", "<details>x</details>".repeat(11));
    let blocks = parse_content(&source, 0);
    assert_eq!(blocks.len(), 12);
    assert!(blocks.iter().all(|block| matches!(block, Block::Details { .. })));
}

#[test]
fn tokenize_reads_events_into_tokens() {
    let tokens = tokenize("# T\n\n- [x] a *b*\n", true, true, true);
    assert_eq!(
        tokens,
        vec![
            Token::StartHeading(1),
            Token::Text("T".to_string()),
            Token::EndHeading,
            Token::StartList(None),
            Token::StartItem,
            Token::TaskListMarker(true),
            Token::Text("a ".to_string()),
            Token::StartEmphasis,
            Token::Text("b".to_string()),
            Token::EndEmphasis,
            Token::EndItem,
            Token::EndList,
        ]
    );
}

#[test]
fn tokenize_with_offsets_keeps_where_each_token_begins() {
    let tokens = tokenize_with_offsets("# T\n\n- a *b*\n");
    assert_eq!(
        tokens,
        vec![
            (Token::StartHeading(1), 0),
            (Token::Text("T".to_string()), 2),
            (Token::EndHeading, 0),
            (Token::StartList(None), 5),
            (Token::StartItem, 5),
            (Token::Text("a ".to_string()), 7),
            (Token::StartEmphasis, 9),
            (Token::Text("b".to_string()), 10),
            (Token::EndEmphasis, 9),
            (Token::EndItem, 5),
            (Token::EndList, 5),
        ]
    );
    let plain: Vec<Token> = tokenize("# T\n\n- a *b*\n", false, false, false);
    let kept: Vec<Token> = tokens.into_iter().map(|(token, _)| token).collect();
    assert_eq!(plain, kept);
}

#[test]
fn heading_levels_run_from_one_to_six() {
    let source = "# a\n## b\n### c\n#### d\n##### e\n###### f\n####### g\n\nh\n=\n\ni\n-\n";
    let tokens = tokenize(source, true, true, true);
    let levels: Vec<usize> = tokens
        .iter()
        .filter_map(|token| match token {
            Token::StartHeading(level) => Some(*level),
            _ => None,
        })
        .collect();
    assert_eq!(levels, vec![1, 2, 3, 4, 5, 6, 1, 2]);
    let blocks = parse_content(source, 0);
    let levels: Vec<usize> = blocks
        .iter()
        .filter_map(|block| match block {
            Block::Heading { level, .. } => Some(*level),
            _ => None,
        })
        .collect();
    assert_eq!(levels, vec![1, 2, 3, 4, 5, 6, 1, 2]);
}

#[test]
fn struck_through_heading_text_is_a_strikethrough_element() {
    assert_eq!(
        parse_content("# ~~gone~~", 0),
        vec![Block::Heading {
            level: 1,
            content: "gone".to_string(),
            inline: vec![InlineElement::Strikethrough {
                value: "gone".to_string()
            }],
        }]
    );
    let tokens = vec![
        Token::StartHeading(2),
        Token::StartStrikethrough,
        Token::Text("s".to_string()),
        Token::StartEmphasis,
        Token::Text("e".to_string()),
        Token::EndEmphasis,
        Token::EndStrikethrough,
        Token::Text("t".to_string()),
        Token::EndHeading,
    ];
    assert_eq!(
        reduce_tokens(&tokens, 0, 100),
        vec![Block::Heading {
            level: 2,
            content: "set".to_string(),
            inline: vec![
                InlineElement::Strikethrough {
                    value: "s".to_string()
                },
                InlineElement::Emphasis {
                    value: "e".to_string()
                },
                text("t"),
            ],
        }]
    );
}

#[test]
fn tokenize_without_extensions_reads_no_task_markers_or_tables() {
    let tokens = tokenize("- [x] a\n\n|a|\n|-|\n", false, false, false);
    assert!(tokens
        .iter()
        .all(|token| !matches!(token, Token::TaskListMarker(_) | Token::StartTable(_))));
    let tokens = tokenize("- [x] a\n\n|a|\n|-|\n", true, false, true);
    assert!(tokens
        .iter()
        .any(|token| matches!(token, Token::TaskListMarker(true))));
    assert!(tokens
        .iter()
        .any(|token| matches!(token, Token::StartTable(columns) if columns.len() == 1)));
}

#[test]
fn tokenize_reads_code_blocks_links_and_images() {
    let tokens = tokenize("```py\nx\n```\n\n    y\n\n[a](b) ![c](d \"e\") 1. x\n\n3. z\n\n<b>\n", false, false, false);
    let kinds: Vec<&Token> = tokens.iter().collect();
    assert!(kinds.contains(&&Token::StartFencedCode("py".to_string())));
    assert!(kinds.contains(&&Token::StartIndentedCode));
    assert!(kinds.contains(&&Token::EndCodeBlock));
    assert!(kinds.contains(&&Token::StartLink("b".to_string())));
    assert!(kinds.contains(&&Token::EndLink));
    assert!(kinds.contains(&&Token::StartImage("d".to_string(), "e".to_string())));
    assert!(kinds.contains(&&Token::EndImage));
    assert!(kinds.contains(&&Token::StartList(Some(3))));
    assert!(kinds.contains(&&Token::Other));
}

#[test]
fn image_outside_a_paragraph_is_a_block() {
    let tokens = vec![
        Token::StartImage("src.png".to_string(), String::new()),
        Token::Text("alt".to_string()),
        Token::EndImage,
    ];
    assert_eq!(
        reduce_tokens(&tokens, 0, 100),
        vec![Block::Image {
            alt: "alt".to_string(),
            src: "src.png".to_string(),
            title: None,
        }]
    );
}

#[test]
fn heading_without_text_is_not_emitted() {
    let tokens = vec![
        Token::StartParagraph,
        Token::Text("p".to_string()),
        Token::StartHeading(2),
        Token::EndHeading,
        Token::StartHeading(3),
        Token::StartStrong,
        Token::Text("h".to_string()),
        Token::EndStrong,
        Token::EndHeading,
    ];
    assert_eq!(
        reduce_tokens(&tokens, 0, 100),
        vec![
            plain("p"),
            Block::Heading {
                level: 3,
                content: "h".to_string(),
                inline: vec![InlineElement::Strong {
                    value: "h".to_string()
                }],
            }
        ]
    );
}

#[test]
fn inline_code_wins_over_strong_over_emphasis_over_strikethrough() {
    let tokens = vec![
        Token::StartParagraph,
        Token::StartStrikethrough,
        Token::Text("s".to_string()),
        Token::StartEmphasis,
        Token::Text("e".to_string()),
        Token::StartStrong,
        Token::Text("b".to_string()),
        Token::Code("c".to_string()),
        Token::Text("b".to_string()),
        Token::EndStrong,
        Token::EndEmphasis,
        Token::EndStrikethrough,
        Token::Text("".to_string()),
        Token::EndParagraph,
    ];
    assert_eq!(
        reduce_tokens(&tokens, 0, 100),
        vec![paragraph(
            "sebcb",
            vec![
                InlineElement::Strikethrough {
                    value: "s".to_string()
                },
                InlineElement::Emphasis {
                    value: "e".to_string()
                },
                InlineElement::Strong {
                    value: "b".to_string()
                },
                InlineElement::Code {
                    value: "c".to_string()
                },
                InlineElement::Strong {
                    value: "b".to_string()
                },
            ]
        )]
    );
}

#[test]
fn block_quote_is_parsed_while_budget_is_left() {
    let tokens = vec![
        Token::StartBlockQuote,
        Token::Text("quote".to_string()),
        Token::EndBlockQuote,
    ];
    assert_eq!(
        reduce_tokens(&tokens, 2, 1),
        vec![Block::Blockquote {
            content: "quote".to_string(),
            blocks: vec![plain("quote")],
        }]
    );
    assert_eq!(
        reduce_tokens(&tokens, 2, 0),
        vec![Block::Blockquote {
            content: "quote".to_string(),
            blocks: Vec::new(),
        }]
    );
}

#[test]
fn budget_counts_block_quotes_one_inside_another() {
    let inner = Block::Blockquote {
        content: "x".to_string(),
        blocks: vec![plain("x")],
    };
    let outer = Block::Blockquote {
        content: "> > x".to_string(),
        blocks: vec![inner],
    };
    assert_eq!(parse_content("> \\> \\> x", 0), vec![outer.clone()]);
    assert_eq!(parse_content_within("> \\> \\> x", 0, 2), vec![outer]);
    assert_eq!(
        parse_content_within("> \\> \\> x", 0, 1),
        vec![Block::Blockquote {
            content: "> > x".to_string(),
            blocks: vec![Block::Blockquote {
                content: "x".to_string(),
                blocks: Vec::new(),
            }],
        }]
    );
    assert_eq!(
        parse_content_within("<details>\n\n> q\n\n</details>", 0, 0),
        vec![Block::Details {
            summary: String::new(),
            content: "> q".to_string(),
            blocks: vec![Block::Blockquote {
                content: "q".to_string(),
                blocks: Vec::new(),
            }],
        }]
    );
}

#[test]
fn block_quote_that_gathers_as_much_text_as_the_fragment_is_parsed() {
    let source = format!(">\n\n{}", "<details></details>".repeat(1113));
    let blocks = parse_content(&source, 0);
    assert_eq!(blocks.len(), 1);
    match &blocks[0] {
        Block::Blockquote { content, blocks } => {
            assert!(content.starts_with("[DETAILS_BLOCK_0][DETAILS_BLOCK_1]"));
            assert!(content.ends_with("[DETAILS_BLOCK_1112]"));
            assert_eq!(content.chars().count(), 21150);
            assert_eq!(source.chars().count(), 21150);
            assert_eq!(blocks.len(), 1);
            assert_eq!(blocks, &parse_content(content, 0));
            assert!(matches!(&blocks[0], Block::Paragraph { content: inner, .. } if inner == content));
        }
        other => panic!("expected a block quote, found {:?}", other),
    }
}

#[test]
fn pending_blocks_are_emitted_at_the_end() {
    let tokens = vec![
        Token::StartParagraph,
        Token::Text("p".to_string()),
        Token::StartList(Some(1)),
        Token::StartItem,
        Token::EndItem,
        Token::StartTable(vec![Alignment::Left]),
        Token::StartTableHead,
        Token::StartTableCell,
        Token::Text("h".to_string()),
        Token::EndTableCell,
        Token::EndTableHead,
    ];
    let blocks = reduce_tokens(&tokens, 0, 100);
    assert_eq!(
        blocks,
        vec![
            Block::List {
                ordered: true,
                items: vec![ListItem {
                    checked: None,
                    content: String::new(),
                    inline: Vec::new(),
                    blocks: Vec::new()
                }]
            },
            Block::Table {
                headers: vec!["h".to_string()],
                alignments: vec![Alignment::Left],
                rows: Vec::new()
            },
        ]
    );
}

#[test]
fn process_event_changes_the_state_token_by_token() {
    let mut state = ParserState::new(9, 50);
    let mut blocks = Vec::new();
    process_event(&Token::StartFencedCode(String::new()), &mut state, &mut blocks);
    assert!(state.code.open);
    assert_eq!(state.code.language, None);
    assert_eq!(state.code.start_line, 9);
    process_event(&Token::Text("x \n".to_string()), &mut state, &mut blocks);
    assert_eq!(state.code.buffer, "x \n");
    process_event(&Token::StartList(None), &mut state, &mut blocks);
    process_event(&Token::StartList(Some(4)), &mut state, &mut blocks);
    assert_eq!(state.list.depth, 2);
    assert!(state.list.open);
    assert!(!state.list.ordered);
    process_event(&Token::EndList, &mut state, &mut blocks);
    process_event(&Token::EndList, &mut state, &mut blocks);
    process_event(&Token::EndList, &mut state, &mut blocks);
    assert_eq!(state.list.depth, 0);
    assert!(blocks.is_empty());
    process_event(&Token::EndCodeBlock, &mut state, &mut blocks);
    assert_eq!(
        blocks,
        vec![Block::Code {
            language: None,
            content: "x".to_string(),
            start_line: 9,
            end_line: 9
        }]
    );
    assert!(!state.code.open);
    assert_eq!(state.budget, 50);
}

#[test]
fn odd_fragments_are_parsed_without_failing() {
    for source in [
        "\u{0}",
        "> > > a\n> b\nc",
        "> \\> \\> nested *text*\n",
        "<details><summary>a</summary><details>b</details></details>",
        "<details>\n\n> <details>x</details>\n\n</details>",
        "[DETAILS_BLOCK_0]",
        "[DETAILS_BLOCK_99999999999999999999999999]",
        "- [ ] a\n  1. [x] b\n     ```\n     c\n     ```\n",
        "| a | b |\n|---|\n",
        "![a](b)",
        "*a **b ~~c `d` e~~ f** g*",
        "é😀\r\n\r\n\t\tcode",
    ] {
        let blocks = parse_content(source, 1);
        let again = parse_content(source, 1);
        assert_eq!(blocks, again);
    }
    assert!(parse_content("![a](b)", 0).is_empty());
    assert_eq!(
        parse_content("[DETAILS_BLOCK_0]", 0),
        vec![paragraph(
            "[DETAILS_BLOCK_0]",
            vec![text("["), text("DETAILS_BLOCK_0"), text("]")]
        )]
    );
}

#[test]
fn text_that_is_quoted_twice_is_parsed_twice() {
    assert_eq!(
        parse_content("> \\> inner", 0),
        vec![Block::Blockquote {
            content: "> inner".to_string(),
            blocks: vec![Block::Blockquote {
                content: "inner".to_string(),
                blocks: vec![plain("inner")],
            }],
        }]
    );
}

fn holds_content(block: &Block) -> bool {
    match block {
        Block::Heading { content, .. } => !content.is_empty(),
        Block::Paragraph { content, .. } => !content.is_empty(),
        Block::List { items, .. } => !items.is_empty(),
        Block::Blockquote { content, .. } => !content.is_empty(),
        Block::Table { headers, .. } => !headers.is_empty(),
        _ => true,
    }
}

#[test]
fn no_block_without_content_is_emitted() {
    for source in [
        "#\n\n##  \n\ntext\n\n>\n\n-\n\n| |\n|-|\n",
        "![a](b)\n\n[](c)\n\n****\n",
        "<details></details>\n\n- \n  - \n",
        "> \n> \n\n```\n```\n",
    ] {
        assert!(parse_content(source, 0).iter().all(holds_content));
    }
    let tokens = vec![
        Token::StartParagraph,
        Token::EndParagraph,
        Token::StartHeading(1),
        Token::EndHeading,
        Token::StartBlockQuote,
        Token::EndBlockQuote,
        Token::StartList(None),
        Token::EndList,
        Token::StartTable(Vec::new()),
        Token::EndTable,
        Token::StartParagraph,
        Token::Text(String::new()),
        Token::Rule,
    ];
    assert_eq!(reduce_tokens(&tokens, 0, 10), vec![Block::HorizontalRule]);
}
