use treemd::parser::utils::{get_heading_level, strip_markdown_inline};

#[test]
fn test_strip_markdown_inline() {
    assert_eq!(strip_markdown_inline("**bold**"), "bold");
    assert_eq!(strip_markdown_inline("*italic*"), "italic");
    assert_eq!(strip_markdown_inline("`code`"), "code");
    assert_eq!(strip_markdown_inline("~~strike~~"), "strike");
    assert_eq!(
        strip_markdown_inline("**turbocli-parser** (850 LOC)"),
        "turbocli-parser (850 LOC)"
    );
}

#[test]
fn test_get_heading_level() {
    assert_eq!(get_heading_level("# Title"), Some(1));
    assert_eq!(get_heading_level("## Section"), Some(2));
    assert_eq!(get_heading_level("### Subsection"), Some(3));
    assert_eq!(get_heading_level("#### Level 4"), Some(4));
    assert_eq!(get_heading_level("##### Level 5"), Some(5));
    assert_eq!(get_heading_level("###### Level 6"), Some(6));

    assert_eq!(get_heading_level("not a heading"), None);
    assert_eq!(get_heading_level("#NoSpace"), None);
    assert_eq!(get_heading_level("####### Too many"), None);
    assert_eq!(get_heading_level("  ## Indented"), Some(2));
}

#[test]
fn heading_level_of_the_named_lines() {
    assert_eq!(get_heading_level("# Title"), Some(1));
    assert_eq!(get_heading_level("###### Six"), Some(6));
    assert_eq!(get_heading_level("####### Seven"), None);
    assert_eq!(get_heading_level("#NoSpace"), None);
}

#[test]
fn heading_level_needs_a_marker_and_whitespace_behind_it() {
    assert_eq!(get_heading_level(""), None);
    assert_eq!(get_heading_level("   "), None);
    assert_eq!(get_heading_level("#"), None);
    assert_eq!(get_heading_level("##"), None);
    assert_eq!(get_heading_level("#\tTab"), Some(1));
    assert_eq!(get_heading_level("\t ### x"), Some(3));
    assert_eq!(get_heading_level("# "), Some(1));
    assert_eq!(get_heading_level("text # not"), None);
}

#[test]
fn strip_removes_every_star_and_backtick_and_pairs_of_tildes() {
    assert_eq!(strip_markdown_inline(""), "");
    assert_eq!(strip_markdown_inline("plain"), "plain");
    assert_eq!(strip_markdown_inline("***x***"), "x");
    assert_eq!(strip_markdown_inline("a*b**c`d"), "abcd");
    assert_eq!(strip_markdown_inline("~a~"), "~a~");
    assert_eq!(strip_markdown_inline("~~~a"), "~a");
    assert_eq!(strip_markdown_inline("~~~~a"), "a");
    assert_eq!(strip_markdown_inline("~*~`~x"), "~x");
}
