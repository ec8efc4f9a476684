use treemd::parser::content::slugify;

#[test]
fn slugify_lowercases_and_drops_punctuation() {
    assert_eq!(slugify("Hello, World!"), "hello-world");
}

#[test]
fn slugify_collapses_separators() {
    assert_eq!(slugify("a   b--c"), "a-b-c");
}

#[test]
fn slugify_strips_separators_at_both_ends() {
    assert_eq!(slugify("  --Getting Started-- "), "getting-started");
}

#[test]
fn slugify_of_nothing_left_is_empty() {
    assert_eq!(slugify(""), "");
    assert_eq!(slugify("!?"), "");
    assert_eq!(slugify(" - "), "");
}

#[test]
fn slugify_keeps_letters_and_digits_of_any_script() {
    assert_eq!(slugify("Ünïcode Ärger 42"), "ünïcode-ärger-42");
    assert_eq!(slugify("日本語 テスト"), "日本語-テスト");
}

#[test]
fn slugify_treats_tabs_and_newlines_as_separators() {
    assert_eq!(slugify("a\tb\nc"), "a-b-c");
}

#[test]
fn slugify_is_idempotent_on_examples() {
    for text in [
        "Hello, World!",
        "a   b--c",
        "  --Getting Started-- ",
        "Ünïcode Ärger 42",
        "ΑΣ ΟΔΟΣ",
        "İstanbul",
        "",
    ] {
        let once = slugify(text);
        assert_eq!(slugify(&once), once);
    }
}
