use treemd::parser::document::{Document, Heading, HeadingNode};
use treemd::parser::events::Token;
use treemd::parser::{headings_from_tokens, parse_markdown};

fn heading(level: usize, text: &str) -> Heading {
    Heading {
        level,
        text: text.to_string(),
    }
}

fn preorder(forest: &[HeadingNode], out: &mut Vec<(usize, String)>) {
    for node in forest {
        out.push((node.heading.level, node.heading.text.clone()));
        preorder(&node.children, out);
    }
}

fn nested(forest: &[HeadingNode]) -> bool {
    forest.iter().all(|node| {
        node.children
            .iter()
            .all(|child| child.heading.level > node.heading.level)
            && nested(&node.children)
    })
}

#[test]
fn test_parse_headings() {
    let md = "# Title\nSome content\n\n## Section 1\nMore content\n\n### Subsection\nDetails\n\n## Section 2\nEnd";

    let doc = parse_markdown(md);
    assert_eq!(doc.headings.len(), 4);
    assert_eq!(doc.headings[0].level, 1);
    assert_eq!(doc.headings[0].text, "Title");
    assert_eq!(doc.headings[1].level, 2);
    assert_eq!(doc.headings[1].text, "Section 1");
}

#[test]
fn parse_markdown_keeps_content_verbatim() {
    let md = "# A\r\n\r\ntext  \n";
    let doc = parse_markdown(md);
    assert_eq!(doc.content, md);
    assert_eq!(doc.headings, vec![heading(1, "A")]);
}

#[test]
fn heading_text_has_inline_markers_stripped() {
    let doc = parse_markdown("## **Bold** and *soft*\n");
    assert_eq!(doc.headings, vec![heading(2, "Bold and soft")]);
}

#[test]
fn heading_text_leaves_code_spans_out_and_is_trimmed() {
    let doc = parse_markdown("# `code` title\n");
    assert_eq!(doc.headings, vec![heading(1, "title")]);
}

#[test]
fn headings_from_tokens_reads_only_text_inside_headings() {
    let tokens = vec![
        Token::Text("before".to_string()),
        Token::StartHeading(3),
        Token::Text("  One ".to_string()),
        Token::Code("skipped".to_string()),
        Token::Text("two  ".to_string()),
        Token::EndHeading,
        Token::EndHeading,
        Token::Text("after".to_string()),
    ];
    assert_eq!(headings_from_tokens(&tokens), vec![heading(3, "One two")]);
}

#[test]
fn build_tree_nests_deeper_headings() {
    let doc = Document::new(
        String::new(),
        vec![
            heading(1, "Title"),
            heading(2, "Section 1"),
            heading(3, "Subsection"),
            heading(2, "Section 2"),
        ],
    );
    let tree = doc.build_tree();
    assert_eq!(tree.len(), 1);
    assert_eq!(tree[0].heading.text, "Title");
    assert_eq!(tree[0].children.len(), 2);
    assert_eq!(tree[0].children[0].heading.text, "Section 1");
    assert_eq!(tree[0].children[0].children.len(), 1);
    assert_eq!(tree[0].children[0].children[0].heading.text, "Subsection");
    assert_eq!(tree[0].children[1].heading.text, "Section 2");
    assert!(tree[0].children[1].children.is_empty());
}

#[test]
fn build_tree_keeps_equal_levels_as_siblings() {
    let doc = Document::new(
        String::new(),
        vec![heading(2, "a"), heading(2, "b"), heading(1, "c"), heading(1, "d")],
    );
    let tree = doc.build_tree();
    assert_eq!(tree.len(), 4);
    assert!(tree.iter().all(|node| node.children.is_empty()));
}

#[test]
fn build_tree_attaches_to_nearest_smaller_level() {
    let doc = Document::new(
        String::new(),
        vec![
            heading(1, "a"),
            heading(3, "b"),
            heading(2, "c"),
            heading(4, "d"),
            heading(3, "e"),
        ],
    );
    let tree = doc.build_tree();
    assert_eq!(tree.len(), 1);
    let a = &tree[0];
    assert_eq!(a.children.len(), 2);
    assert_eq!(a.children[0].heading.text, "b");
    assert!(a.children[0].children.is_empty());
    let c = &a.children[1];
    assert_eq!(c.heading.text, "c");
    assert_eq!(c.children.len(), 2);
    assert_eq!(c.children[0].heading.text, "d");
    assert_eq!(c.children[1].heading.text, "e");
}

#[test]
fn build_tree_of_nothing_is_empty() {
    let doc = Document::new("no headings".to_string(), Vec::new());
    assert!(doc.build_tree().is_empty());
}

#[test]
fn build_tree_is_nested_and_flattens_to_the_headings() {
    let levels = [3, 1, 2, 2, 6, 4, 5, 1, 1, 3, 2, 0, 7, 7, 1];
    let headings: Vec<Heading> = levels
        .iter()
        .enumerate()
        .map(|(i, level)| heading(*level, &format!("h{}", i)))
        .collect();
    let doc = Document::new(String::new(), headings);
    let tree = doc.build_tree();
    assert!(nested(&tree));
    let mut flat = Vec::new();
    preorder(&tree, &mut flat);
    let expected: Vec<(usize, String)> = doc
        .headings
        .iter()
        .map(|h| (h.level, h.text.clone()))
        .collect();
    assert_eq!(flat, expected);
}

#[test]
fn headings_of_a_document_have_levels_from_one_to_six() {
    let doc = parse_markdown("# a\n\n###### f\n\n####### seven\n\nSetext\n------\n");
    let levels: Vec<usize> = doc.headings.iter().map(|heading| heading.level).collect();
    assert_eq!(levels, vec![1, 6, 2]);
}
