use treemd::parser::builder::{
    build_section, count_words, extract_section_content, find_next_heading, get_heading_level,
};
use treemd::parser::document::{Document, Heading, HeadingNode};
use treemd::parser::output::{Block, InlineElement, Position};
use treemd::parser::{build_json_output, parse_markdown};

fn heading(level: usize, text: &str) -> Heading {
    Heading {
        level,
        text: text.to_string(),
    }
}

fn chars(text: &str) -> Vec<char> {
    text.chars().collect()
}

fn plain(content: &str) -> Block {
    Block::Paragraph {
        content: content.to_string(),
        inline: vec![InlineElement::Text {
            value: content.to_string(),
        }],
    }
}

const SAMPLE: &str = "# Title\nIntro\n\n## Section 1\nMore content\n\n### Subsection\nDetails\n\n## Section 2\nEnd";

#[test]
fn exported_tree_of_a_small_document() {
    let doc = parse_markdown(SAMPLE);
    let output = build_json_output(&doc, Some("notes/file.md"));
    let metadata = &output.document.metadata;
    assert_eq!(metadata.source.as_deref(), Some("notes/file.md"));
    assert_eq!(metadata.heading_count, 4);
    assert_eq!(metadata.max_depth, 3);
    assert_eq!(metadata.word_count, 15);

    let sections = &output.document.sections;
    assert_eq!(sections.len(), 1);
    let title = &sections[0];
    assert_eq!(title.id, "title");
    assert_eq!(title.slug, "title");
    assert_eq!(title.title, "Title");
    assert_eq!(title.level, 1);
    assert_eq!(title.position, Position { line: 2, offset: 8 });
    assert_eq!(title.content.raw, &SAMPLE[8..]);
    assert_eq!(title.children.len(), 2);

    let first = &title.children[0];
    assert_eq!(first.id, "section-1");
    assert_eq!(first.title, "Section 1");
    assert_eq!(first.level, 2);
    assert_eq!(first.position, Position { line: 5, offset: 28 });
    assert_eq!(first.content.raw, "More content\n\n### Subsection\nDetails");
    assert_eq!(first.children.len(), 1);
    assert_eq!(first.children[0].title, "Subsection");
    assert_eq!(first.children[0].position, Position { line: 8, offset: 57 });
    assert_eq!(first.children[0].content.raw, "Details");
    assert_eq!(first.children[0].content.blocks, vec![plain("Details")]);
    assert!(first.children[0].children.is_empty());

    let second = &title.children[1];
    assert_eq!(second.title, "Section 2");
    assert_eq!(second.position, Position { line: 11, offset: 79 });
    assert_eq!(second.content.raw, "End");
    assert_eq!(second.content.blocks, vec![plain("End")]);
    assert!(second.children.is_empty());
}

#[test]
fn empty_document_has_no_words_and_no_depth() {
    let doc = parse_markdown("");
    let output = build_json_output(&doc, None);
    assert_eq!(output.document.metadata.source, None);
    assert_eq!(output.document.metadata.heading_count, 0);
    assert_eq!(output.document.metadata.max_depth, 0);
    assert_eq!(output.document.metadata.word_count, 0);
    assert!(output.document.sections.is_empty());
}

#[test]
fn document_without_headings_has_no_depth() {
    let doc = parse_markdown("just  some\ttext\n");
    let output = build_json_output(&doc, None);
    assert_eq!(output.document.metadata.max_depth, 0);
    assert_eq!(output.document.metadata.word_count, 3);
    assert!(output.document.sections.is_empty());
}

#[test]
fn heading_that_is_not_found_gives_an_empty_section() {
    let doc = parse_markdown("## **Bold**\ntext\n");
    assert_eq!(doc.headings, vec![heading(2, "Bold")]);
    let output = build_json_output(&doc, None);
    let section = &output.document.sections[0];
    assert_eq!(section.title, "Bold");
    assert_eq!(section.content.raw, "");
    assert_eq!(section.position, Position { line: 0, offset: 0 });
    assert!(section.content.blocks.is_empty());
}

#[test]
fn repeated_heading_is_found_at_its_first_place() {
    let source = "## Same\none\n## Same\ntwo\n";
    let found = extract_section_content(&heading(2, "Same"), source);
    assert_eq!(found, ("one".to_string(), 8, 2));
    let doc = parse_markdown(source);
    let output = build_json_output(&doc, None);
    assert_eq!(output.document.sections.len(), 2);
    assert_eq!(output.document.sections[0].content.raw, "one");
    assert_eq!(output.document.sections[1].content.raw, "one");
}

#[test]
fn marker_inside_fenced_code_does_not_end_a_section() {
    let source = "# A\n```\n# not a heading\n```\nafter\n# B\nlast\n";
    assert_eq!(
        extract_section_content(&heading(1, "A"), source),
        ("```\n# not a heading\n```\nafter".to_string(), 4, 2)
    );
    assert_eq!(
        extract_section_content(&heading(1, "B"), source),
        ("last".to_string(), 38, 7)
    );
}

#[test]
fn section_ends_at_a_heading_of_the_same_or_a_smaller_level() {
    let source = "x\n## A\na\n### B\nb\n## C\nc\n# D\nd";
    assert_eq!(
        extract_section_content(&heading(2, "A"), source),
        ("a\n### B\nb".to_string(), 7, 3)
    );
    assert_eq!(
        extract_section_content(&heading(3, "B"), source),
        ("b".to_string(), 15, 5)
    );
    assert_eq!(
        extract_section_content(&heading(2, "C"), source),
        ("c".to_string(), 22, 7)
    );
    assert_eq!(
        extract_section_content(&heading(1, "D"), source),
        ("d".to_string(), 28, 9)
    );
}

#[test]
fn heading_on_the_last_line_has_an_empty_section_at_its_own_place() {
    assert_eq!(
        extract_section_content(&heading(1, "Only"), "text\n# Only"),
        (String::new(), 5, 3)
    );
}

#[test]
fn section_offsets_count_bytes_and_lines_end_at_newlines() {
    let source = "é\r\n# A\r\ntext\r\n# B\r\nmore";
    assert_eq!(
        extract_section_content(&heading(1, "A"), source),
        ("text".to_string(), 9, 3)
    );
    assert_eq!(
        extract_section_content(&heading(1, "B"), source),
        ("more".to_string(), 20, 5)
    );
}

#[test]
fn heading_found_inside_a_line_counts_that_line() {
    assert_eq!(
        extract_section_content(&heading(1, "A"), "see # A\nbody"),
        ("body".to_string(), 8, 3)
    );
}

#[test]
fn next_heading_is_the_first_line_with_a_level_that_is_not_greater() {
    assert_eq!(find_next_heading(&chars("a\n## x\n# y"), 1), 7);
    assert_eq!(find_next_heading(&chars("a\n## x\n# y"), 2), 2);
    assert_eq!(find_next_heading(&chars("a\n### x\n"), 2), 8);
    assert_eq!(find_next_heading(&chars(""), 2), 0);
    assert_eq!(find_next_heading(&chars("# x"), 1), 0);
    assert_eq!(find_next_heading(&chars("```\n# x\n```\n# y"), 6), 12);
    assert_eq!(find_next_heading(&chars("  ```rust\n# x"), 6), 13);
    assert_eq!(find_next_heading(&chars("#\r\n# x"), 6), 3);
    assert_eq!(find_next_heading(&chars("######## deep\n"), 8), 0);
    assert_eq!(find_next_heading(&chars("######## deep\n"), 7), 14);
}

#[test]
fn marker_level_has_no_upper_bound() {
    assert_eq!(get_heading_level("# Title"), Some(1));
    assert_eq!(get_heading_level("####### Seven"), Some(7));
    assert_eq!(get_heading_level("#NoSpace"), None);
    assert_eq!(get_heading_level("plain"), None);
}

#[test]
fn words_are_runs_without_whitespace() {
    assert_eq!(count_words(""), 0);
    assert_eq!(count_words(" \n\t "), 0);
    assert_eq!(count_words("one"), 1);
    assert_eq!(count_words("  one  two\nthree\u{a0}four "), 4);
}

#[test]
fn depth_is_the_height_of_the_tree() {
    let doc = Document::new(
        String::new(),
        vec![heading(1, "a"), heading(1, "b"), heading(2, "c"), heading(5, "d"), heading(2, "e")],
    );
    let output = build_json_output(&doc, None);
    assert_eq!(output.document.metadata.max_depth, 3);
    assert_eq!(output.document.metadata.heading_count, 5);
    assert_eq!(output.document.sections.len(), 2);
}

#[test]
fn section_of_a_node_has_the_sections_of_its_children() {
    let node = HeadingNode {
        heading: heading(1, "Top Level!"),
        children: vec![HeadingNode {
            heading: heading(2, "Child"),
            children: Vec::new(),
        }],
    };
    let section = build_section(&node, "# Top Level!\nintro\n## Child\n- item\n");
    assert_eq!(section.id, "top-level");
    assert_eq!(section.slug, "top-level");
    assert_eq!(section.content.raw, "intro\n## Child\n- item");
    assert_eq!(section.children.len(), 1);
    assert_eq!(section.children[0].id, "child");
    assert_eq!(section.children[0].position, Position { line: 4, offset: 28 });
    assert!(matches!(
        &section.children[0].content.blocks[..],
        [Block::List { ordered: false, items }] if items.len() == 1 && items[0].content == "item"
    ));
}

#[test]
fn odd_documents_are_taken_as_they_are() {
    for source in [
        "",
        "\n",
        "#",
        "# ",
        "#\r\n",
        "####### seven\n",
        "# é😀\r\n\r\n> quote\r\n> > deeper\r\n\r\n```\r\n# no\r\n",
        "> \\> \\> nested *text*\n",
        "<details><summary>a</summary><details>b</details></details>",
        "<details",
        "[[a]] [b](c) [[d|e]] ![i](j) [![k](l)](m)",
        "- a\n  - b\n    - c\n      - d\n\n1. x\n\n   y\n",
        "| a |\n|---|\n| [[x]] |\n",
        "Setext\n======\n\nSecond\n------\n",
        "\u{0} \u{a0}\u{2028}# odd\n",
    ] {
        let doc = parse_markdown(source);
        assert_eq!(doc.content, source);
        let output = build_json_output(&doc, None);
        assert_eq!(output.document.metadata.heading_count, doc.headings.len());
        assert_eq!(
            output.document.metadata.word_count,
            source.split_whitespace().count()
        );
        let tree = doc.build_tree();
        assert_eq!(output.document.sections.len(), tree.len());
        for (section, node) in output.document.sections.iter().zip(tree.iter()) {
            assert_eq!(section.title, node.heading.text);
            assert_eq!(section.children.len(), node.children.len());
            assert!(section.position.offset <= source.len());
            assert!(source.is_char_boundary(section.position.offset));
        }
    }
}
