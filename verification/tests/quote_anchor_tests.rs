use zelland::quote_anchor::{find_in_markdown, insert_inline_marker, strip_inline_markdown};
use zelland::store::strip_comments_section;

fn chars(s: &str) -> Vec<char> {
    s.chars().collect()
}

fn slice(raw: &str, start: usize, end: usize) -> String {
    raw.chars().skip(start).take(end - start).collect()
}

#[test]
fn test_find_plain_text() {
    let raw = "Some plain text here.";
    let (start, end) = find_in_markdown(&chars(raw), &chars("plain text")).unwrap();
    assert_eq!(slice(raw, start, end), "plain text");
}

#[test]
fn test_find_strips_bold() {
    let raw = "- **Hardware**: 64x32 RGB LED matrix display";
    let quote = "Hardware: 64x32 RGB LED matrix display";
    let (start, end) = find_in_markdown(&chars(raw), &chars(quote)).unwrap();
    assert!(slice(raw, start, end).contains("Hardware"));
    assert!(start < end);
}

#[test]
fn test_find_whitespace_normalised() {
    let raw = "foo\nbar baz";
    let quote = "foo bar";
    let (start, end) = find_in_markdown(&chars(raw), &chars(quote)).unwrap();
    assert!(start < end);
    assert!(slice(raw, start, end).starts_with("foo"));
}

#[test]
fn test_find_not_in_comments_section() {
    let raw = "# Title\n\nBody content.\n\n---\n\n## Comments\n\n### x\n\n> `Body content.`\n";
    let body = strip_comments_section(raw);
    assert!(find_in_markdown(&chars(&body), &chars("Body content.")).is_some());
}

#[test]
fn test_find_returns_none_for_missing() {
    let raw = "Some text here.";
    assert!(find_in_markdown(&chars(raw), &chars("not present")).is_none());
}

// --- further cases ---

#[test]
fn strip_keeps_map_of_positions() {
    let (s, m) = strip_inline_markdown(&chars("a**b**_c\nd"));
    assert_eq!(s.iter().collect::<String>(), "abc d");
    assert_eq!(m, vec![0, 3, 7, 8, 9]);
}

#[test]
fn find_absorbs_adjacent_markers() {
    let raw = "x **bold** y";
    let (start, end) = find_in_markdown(&chars(raw), &chars("bold")).unwrap();
    assert_eq!((start, end), (2, 10));
}

#[test]
fn find_with_extra_spaces_in_text() {
    let raw = "alpha   beta";
    let (start, end) = find_in_markdown(&chars(raw), &chars("alpha beta")).unwrap();
    assert_eq!((start, end), (0, 12));
}

#[test]
fn inline_marker_replaces_quote() {
    let content = "Intro **important** text.\n";
    let out = insert_inline_marker(content, "important", "a1").unwrap();
    assert_eq!(out, "Intro (important)[#a1] text.\n");
}

#[test]
fn inline_marker_absent_quote() {
    assert!(insert_inline_marker("abc", "zzz", "a1").is_none());
}

#[test]
fn blank_quote_is_not_found() {
    assert!(find_in_markdown(&chars("abc"), &chars("  ")).is_none());
}
