use std::borrow::Cow;

use introbot::markdown::escape;
use introbot::text::ends_with;
use introbot::util::escape_discord_markdown;

#[test]
fn underscore_gets_a_backslash() {
    assert_eq!(escape_discord_markdown("_"), "\\_");
}

#[test]
fn every_formatting_character_is_escaped() {
    assert_eq!(escape_discord_markdown("\\*_~`|>"), "\\\\\\*\\_\\~\\`\\|\\>");
    assert_eq!(escape_discord_markdown("> a_b"), "\\> a\\_b");
}

#[test]
fn masked_links_are_shown_as_text() {
    assert_eq!(escape_discord_markdown("[a](http://b.c)"), "\\[a](http://b.c)");
    assert_eq!(escape_discord_markdown("see [a_b](https://c)!"), "see \\[a\\_b](https://c)!");
}

#[test]
fn headings_small_text_and_lists_are_shown_as_text() {
    assert_eq!(escape_discord_markdown("# big\n-# small"), "\\# big\n\\-\\# small");
    assert_eq!(escape_discord_markdown("- a\n+ b\n* c"), "\\- a\n\\+ b\n\\* c");
}

#[test]
fn numbered_lists_are_shown_as_text() {
    assert_eq!(escape_discord_markdown("1. a\n  23. b"), "1\\. a\n  23\\. b");
    assert_eq!(escape_discord_markdown("pi is 3.14. 1 . a1."), "pi is 3.14. 1 . a1.");
    assert_eq!(escape_discord_markdown(". 1 2."), ". 1 2.");
}

#[test]
fn ordinary_text_is_left_alone() {
    let plain = vec![
        "a-b",
        "3.14",
        "[note] 3.14",
        "my-site.org/a+b#c",
        "#tag",
        "#### four",
        "-5 + 3",
        "a - b # c + d",
        "-",
        "1.",
        "a[0](b",
        "[x] (y)",
        "[",
    ];
    for text in plain {
        assert_eq!(escape_discord_markdown(text), text);
    }
}

#[test]
fn brackets_that_open_a_link_are_escaped() {
    assert_eq!(escape_discord_markdown("[note] a [b](c)"), "[note] a \\[b](c)");
    assert_eq!(escape_discord_markdown("[a [x] b](c)"), "\\[a \\[x] b](c)");
    assert_eq!(escape_discord_markdown("[a] b](c)"), "\\[a] b](c)");
}

#[test]
fn headings_have_up_to_three_signs() {
    assert_eq!(escape_discord_markdown("## a\n  ### b"), "\\## a\n  \\### b");
}

#[test]
fn parts_are_escaped_by_themselves() {
    let whole = escape_discord_markdown("3.14_x");
    assert_eq!(whole, escape_discord_markdown("3") + &escape_discord_markdown(".14_x"));
    assert_eq!(whole, "3.14\\_x");
}

#[test]
fn other_characters_are_kept() {
    assert_eq!(escape_discord_markdown(""), "");
    assert_eq!(escape_discord_markdown("héllo <wörld> 🎉"), "héllo <wörld\\> 🎉");
}

#[test]
fn links_go_in_brackets() {
    assert_eq!(escape("see http://a.b/c_d* now"), "see <http://a.b/c_d*> now");
    assert_eq!(escape("https://x"), "<https://x>");
    assert_eq!(escape("https://x\u{2003}_"), "<https://x>\u{2003}\\_");
}

#[test]
fn formatting_characters_get_a_backslash() {
    assert_eq!(escape("_`*~|"), "\\_\\`\\*\\~\\|");
    assert_eq!(escape("é*ü_ö"), "é\\*ü\\_ö");
}

#[test]
fn incomplete_links_are_text() {
    assert_eq!(escape("http:// _"), "http:// \\_");
    assert_eq!(escape("https://"), "https://");
    assert_eq!(escape("httpss://x_y"), "httpss://x\\_y");
    assert_eq!(escape("ahttp://x_y"), "a<http://x_y>");
    assert_eq!(escape("HTTP://x_y"), "HTTP://x\\_y");
}

#[test]
fn backslashes_and_quotes_are_kept() {
    assert_eq!(escape("\\ > <"), "\\ > <");
    assert_eq!(escape("\\*"), "\\\\*");
}

#[test]
fn text_without_anything_to_escape_is_borrowed() {
    assert!(matches!(escape("nothing to see"), Cow::Borrowed("nothing to see")));
    assert!(matches!(escape(""), Cow::Borrowed("")));
    assert!(matches!(escape("a_b"), Cow::Owned(_)));
}

#[test]
fn several_links_and_characters() {
    assert_eq!(
        escape("*hi* http://a http://b_ ~~ñ~~ https://c|"),
        "\\*hi\\* <http://a> <http://b_> \\~\\~ñ\\~\\~ <https://c|>"
    );
}

#[test]
fn suffixes_are_compared_by_character() {
    assert!(ends_with("@bot !usage", "usage"));
    assert!(ends_with("usage", "usage"));
    assert!(ends_with("", ""));
    assert!(!ends_with("sage", "usage"));
    assert!(!ends_with("usage ", "usage"));
    assert!(!ends_with("USAGE", "usage"));
    assert!(ends_with("añb", "ñb"));
}
