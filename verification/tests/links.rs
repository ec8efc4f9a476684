use std::path::PathBuf;
use treemd::parser::events::Token;
use treemd::parser::links::{
    extract_links, extract_wikilinks, links_from_tokens, parse_link_target, Link, LinkTarget,
};

#[test]
fn test_extract_anchor_link() {
    let md = "See [Installation](#installation) for details.";
    let links = extract_links(md);

    assert_eq!(links.len(), 1);
    assert_eq!(links[0].text, "Installation");
    assert_eq!(
        links[0].target,
        LinkTarget::Anchor("installation".to_string())
    );
}

#[test]
fn test_extract_relative_file_link() {
    let md = "Check [API docs](./docs/api.md) for more.";
    let links = extract_links(md);

    assert_eq!(links.len(), 1);
    assert_eq!(links[0].text, "API docs");
    match &links[0].target {
        LinkTarget::RelativeFile { path, anchor } => {
            assert_eq!(PathBuf::from(path), PathBuf::from("./docs/api.md"));
            assert_eq!(anchor, &None);
        }
        _ => panic!("Expected RelativeFile link"),
    }
}

#[test]
fn test_extract_relative_file_link_with_anchor() {
    let md = "See [usage guide](../guide.md#usage) here.";
    let links = extract_links(md);

    assert_eq!(links.len(), 1);
    assert_eq!(links[0].text, "usage guide");
    match &links[0].target {
        LinkTarget::RelativeFile { path, anchor } => {
            assert_eq!(PathBuf::from(path), PathBuf::from("../guide.md"));
            assert_eq!(anchor, &Some("usage".to_string()));
        }
        _ => panic!("Expected RelativeFile link"),
    }
}

#[test]
fn test_extract_external_link() {
    let md = "Visit [GitHub](https://github.com) now.";
    let links = extract_links(md);

    assert_eq!(links.len(), 1);
    assert_eq!(links[0].text, "GitHub");
    assert_eq!(
        links[0].target,
        LinkTarget::External("https://github.com".to_string())
    );
}

#[test]
fn test_extract_wikilink_simple() {
    let md = "See [[README]] for info.";
    let links = extract_links(md);

    assert_eq!(links.len(), 1);
    assert_eq!(links[0].text, "README");
    match &links[0].target {
        LinkTarget::WikiLink { target, alias } => {
            assert_eq!(target, "README");
            assert_eq!(alias, &None);
        }
        _ => panic!("Expected WikiLink"),
    }
}

#[test]
fn test_extract_wikilink_with_alias() {
    let md = "Check [[README.md|readme file]] here.";
    let links = extract_links(md);

    assert_eq!(links.len(), 1);
    assert_eq!(links[0].text, "readme file");
    match &links[0].target {
        LinkTarget::WikiLink { target, alias } => {
            assert_eq!(target, "README.md");
            assert_eq!(alias, &Some("readme file".to_string()));
        }
        _ => panic!("Expected WikiLink"),
    }
}

#[test]
fn test_extract_multiple_links() {
    let md = "\n# Documentation\n\nSee [Installation](#installation) first.\nThen check [API docs](./api.md) and [[contributing]].\nVisit [GitHub](https://github.com/user/repo) for source.\n";
    let links = extract_links(md);

    assert_eq!(links.len(), 4);

    assert_eq!(links[0].text, "Installation");
    assert!(matches!(links[0].target, LinkTarget::Anchor(_)));

    assert_eq!(links[1].text, "API docs");
    assert!(matches!(links[1].target, LinkTarget::RelativeFile { .. }));

    assert_eq!(links[2].text, "GitHub");
    assert!(matches!(links[2].target, LinkTarget::External(_)));

    assert_eq!(links[3].text, "contributing");
    assert!(matches!(links[3].target, LinkTarget::WikiLink { .. }));
}

#[test]
fn test_empty_content() {
    let md = "";
    let links = extract_links(md);
    assert_eq!(links.len(), 0);
}

#[test]
fn test_no_links() {
    let md = "This is just plain text with no links.";
    let links = extract_links(md);
    assert_eq!(links.len(), 0);
}

#[test]
fn test_malformed_wikilink() {
    let md = "This has [[incomplete wikilink";
    let links = extract_links(md);
    assert_eq!(links.len(), 0);
}

#[test]
fn standard_links_come_before_wikilinks() {
    let links = extract_links("See [Installation](#installation) first. Then [[contributing]].");
    assert_eq!(links.len(), 2);
    assert_eq!(
        links[0].target,
        LinkTarget::Anchor("installation".to_string())
    );
    assert_eq!(
        links[1].target,
        LinkTarget::WikiLink {
            target: "contributing".to_string(),
            alias: None
        }
    );
}

#[test]
fn standard_links_come_first_whatever_their_place() {
    let links = extract_links("First [[wiki]], then [text](#anchor).");
    assert_eq!(links.len(), 2);
    assert_eq!(links[0].text, "text");
    assert_eq!(links[0].offset, 21);
    assert_eq!(links[0].target, LinkTarget::Anchor("anchor".to_string()));
    assert_eq!(links[1].text, "wiki");
    assert_eq!(links[1].offset, 6);
}

#[test]
fn unterminated_wikilink_gives_no_link() {
    assert!(extract_links("[[incomplete").is_empty());
    let mut links = Vec::new();
    extract_wikilinks("[[incomplete", &mut links);
    assert!(links.is_empty());
}

#[test]
fn unterminated_wikilink_ends_the_search_for_wikilinks() {
    let mut links = Vec::new();
    extract_wikilinks("[[a]] [[b] [c]", &mut links);
    assert_eq!(links.len(), 1);
    assert_eq!(links[0].text, "a");
}

#[test]
fn wikilinks_are_appended_to_the_links_given() {
    let mut links = extract_links("[x](y)");
    extract_wikilinks("[[a]]", &mut links);
    assert_eq!(links.len(), 2);
    assert_eq!(links[0].text, "x");
    assert_eq!(links[1].text, "a");
}

#[test]
fn empty_wikilink_gives_no_link_and_the_search_goes_on() {
    let mut links = Vec::new();
    extract_wikilinks("[[]] and [[ spaced | shown ]]", &mut links);
    assert_eq!(links.len(), 1);
    assert_eq!(links[0].text, "shown");
    assert_eq!(links[0].offset, 9);
    assert_eq!(
        links[0].target,
        LinkTarget::WikiLink {
            target: "spaced".to_string(),
            alias: Some("shown".to_string())
        }
    );
}

#[test]
fn wikilink_splits_at_the_first_bar_and_ends_at_the_first_close() {
    let mut links = Vec::new();
    extract_wikilinks("[[a|b|c]] [[[x]y]]]", &mut links);
    assert_eq!(links.len(), 2);
    assert_eq!(
        links[0].target,
        LinkTarget::WikiLink {
            target: "a".to_string(),
            alias: Some("b|c".to_string())
        }
    );
    assert_eq!(links[0].text, "b|c");
    assert_eq!(links[1].text, "[x]y");
    assert_eq!(links[1].offset, 10);
}

#[test]
fn wikilink_offset_counts_bytes() {
    let mut links = Vec::new();
    extract_wikilinks("é€😀[[x]]", &mut links);
    assert_eq!(links.len(), 1);
    assert_eq!(links[0].offset, 9);
}

#[test]
fn link_targets_are_classified_in_order() {
    assert_eq!(parse_link_target("#"), LinkTarget::Anchor(String::new()));
    assert_eq!(
        parse_link_target("#a#b"),
        LinkTarget::Anchor("a#b".to_string())
    );
    assert_eq!(
        parse_link_target("http://x.org/#top"),
        LinkTarget::External("http://x.org/#top".to_string())
    );
    assert_eq!(
        parse_link_target("https://x.org"),
        LinkTarget::External("https://x.org".to_string())
    );
    assert_eq!(
        parse_link_target("HTTP://x.org"),
        LinkTarget::RelativeFile {
            path: "HTTP://x.org".to_string(),
            anchor: None
        }
    );
    assert_eq!(
        parse_link_target("../guide.md#usage"),
        LinkTarget::RelativeFile {
            path: "../guide.md".to_string(),
            anchor: Some("usage".to_string())
        }
    );
    assert_eq!(
        parse_link_target("a#b#c"),
        LinkTarget::RelativeFile {
            path: "a".to_string(),
            anchor: Some("b#c".to_string())
        }
    );
    assert_eq!(
        parse_link_target(""),
        LinkTarget::RelativeFile {
            path: String::new(),
            anchor: None
        }
    );
}

#[test]
fn relative_link_with_anchor_in_a_document() {
    let links = extract_links("[x](../guide.md#usage)");
    assert_eq!(links.len(), 1);
    assert_eq!(links[0].offset, 0);
    assert_eq!(
        links[0].target,
        LinkTarget::RelativeFile {
            path: "../guide.md".to_string(),
            anchor: Some("usage".to_string())
        }
    );
}

#[test]
fn link_target_as_str_writes_each_kind() {
    assert_eq!(LinkTarget::Anchor("top".to_string()).as_str(), "#top");
    assert_eq!(
        LinkTarget::RelativeFile {
            path: "a/b.md".to_string(),
            anchor: None
        }
        .as_str(),
        "a/b.md"
    );
    assert_eq!(
        LinkTarget::RelativeFile {
            path: "a/b.md".to_string(),
            anchor: Some("c".to_string())
        }
        .as_str(),
        "a/b.md#c"
    );
    assert_eq!(
        LinkTarget::WikiLink {
            target: "page".to_string(),
            alias: None
        }
        .as_str(),
        "[[page]]"
    );
    assert_eq!(
        LinkTarget::WikiLink {
            target: "page".to_string(),
            alias: Some("shown".to_string())
        }
        .as_str(),
        "[[page|shown]]"
    );
    assert_eq!(
        LinkTarget::External("https://x.org".to_string()).as_str(),
        "https://x.org"
    );
}

#[test]
fn link_new_keeps_its_arguments() {
    let link = Link::new("t".to_string(), LinkTarget::Anchor("a".to_string()), 7);
    assert_eq!(link.text, "t");
    assert_eq!(link.target, LinkTarget::Anchor("a".to_string()));
    assert_eq!(link.offset, 7);
    assert_eq!(link.clone(), link);
}

#[test]
fn links_from_tokens_reads_text_inside_links_only() {
    let tokens = vec![
        (Token::Text("out".to_string()), 0),
        (Token::EndLink, 3),
        (Token::StartLink("#a".to_string()), 4),
        (Token::Text("in".to_string()), 5),
        (Token::Code("code".to_string()), 7),
        (Token::StartEmphasis, 13),
        (Token::Text("side".to_string()), 14),
        (Token::EndEmphasis, 18),
        (Token::EndLink, 19),
        (Token::StartLink("http://b".to_string()), 30),
        (Token::EndLink, 31),
    ];
    let links = links_from_tokens(&tokens);
    assert_eq!(links.len(), 2);
    assert_eq!(links[0].text, "inside");
    assert_eq!(links[0].offset, 4);
    assert_eq!(links[0].target, LinkTarget::Anchor("a".to_string()));
    assert_eq!(links[1].text, "");
    assert_eq!(links[1].offset, 30);
    assert_eq!(links[1].target, LinkTarget::External("http://b".to_string()));
}

#[test]
fn text_of_a_link_that_is_never_closed_joins_the_next_link() {
    let tokens = vec![
        (Token::StartLink("first".to_string()), 1),
        (Token::Text("a".to_string()), 2),
        (Token::StartLink("second".to_string()), 3),
        (Token::Text("b".to_string()), 4),
        (Token::EndLink, 5),
    ];
    let links = links_from_tokens(&tokens);
    assert_eq!(links.len(), 1);
    assert_eq!(links[0].text, "ab");
    assert_eq!(links[0].offset, 3);
    assert_eq!(
        links[0].target,
        LinkTarget::RelativeFile {
            path: "second".to_string(),
            anchor: None
        }
    );
}
