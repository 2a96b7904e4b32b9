use zelland::sessions::{
    readme_excerpt, record_session_entry, session_readme_path, sessions_file, strip_inline_md,
    RecentSessionEntry,
};

#[test]
fn test_readme_excerpt_basic() {
    let md = "# My Project\n\nThis is the first paragraph.\n\nSecond paragraph.";
    assert_eq!(readme_excerpt(md).as_deref(), Some("This is the first paragraph."));
}

#[test]
fn test_readme_excerpt_no_heading() {
    let md = "Just a plain paragraph.\n\nAnother one.";
    assert_eq!(readme_excerpt(md).as_deref(), Some("Just a plain paragraph."));
}

#[test]
fn test_readme_excerpt_strips_links() {
    let md = "A [link](https://example.com) in text.";
    assert_eq!(readme_excerpt(md).as_deref(), Some("A link in text."));
}

#[test]
fn test_readme_excerpt_strips_bold() {
    let md = "Some **bold** and *italic* text.";
    assert_eq!(readme_excerpt(md).as_deref(), Some("Some bold and italic text."));
}

#[test]
fn test_readme_excerpt_empty() {
    assert_eq!(readme_excerpt("# Only a heading\n\n"), None);
}

#[test]
fn test_readme_excerpt_truncates() {
    let long = "word ".repeat(60); // 300 chars
    let md = format!("# Title\n\n{}", long);
    let result = readme_excerpt(&md).unwrap();
    assert!(result.chars().count() <= 201); // 200 + ellipsis
    assert!(result.ends_with('…'));
}

#[test]
fn readme_excerpt_joins_lines_of_a_paragraph() {
    let md = "---\n  first line  \nsecond line\n\nlater";
    assert_eq!(readme_excerpt(md).as_deref(), Some("first line second line"));
    assert_eq!(readme_excerpt("Title\n===\nbody").as_deref(), Some("Title"));
}

#[test]
fn readme_excerpt_cut_is_exactly_200_chars_plus_ellipsis() {
    let text: String = std::iter::repeat('x').take(250).collect();
    let result = readme_excerpt(&text).unwrap();
    assert_eq!(result.chars().count(), 201);
    assert_eq!(result, format!("{}…", "x".repeat(200)));
    let exact: String = "y".repeat(200);
    assert_eq!(readme_excerpt(&exact).unwrap(), exact);
}

#[test]
fn readme_excerpt_none_when_only_markers() {
    assert_eq!(readme_excerpt("**__``**"), None);
}

#[test]
fn strip_inline_md_cases() {
    assert_eq!(strip_inline_md("an [unclosed link"), "an [unclosed link");
    assert_eq!(strip_inline_md("[a](b"), "a");
    assert_eq!(strip_inline_md("[a] rest"), "a rest");
    assert_eq!(strip_inline_md("`code` __u__ _i_"), "code u i");
    assert_eq!(strip_inline_md("  *x*  "), "x");
}

fn entry(name: &str, at: &str) -> RecentSessionEntry {
    RecentSessionEntry { session_name: name.into(), connected_at: at.into(), readme_excerpt: None }
}

#[test]
fn record_session_moves_entry_to_front() {
    let entries = vec![entry("a", "1"), entry("b", "2"), entry("c", "3")];
    let out = record_session_entry(entries, entry("b", "9"));
    let names: Vec<&str> = out.iter().map(|e| e.session_name.as_str()).collect();
    assert_eq!(names, vec!["b", "a", "c"]);
    assert_eq!(out[0].connected_at, "9");
}

#[test]
fn record_session_keeps_ten() {
    let entries: Vec<RecentSessionEntry> = (0..12).map(|i| entry(&format!("s{}", i), "t")).collect();
    let out = record_session_entry(entries, entry("new", "now"));
    assert_eq!(out.len(), 10);
    assert_eq!(out[0].session_name, "new");
    assert_eq!(out[9].session_name, "s8");
}

#[test]
fn session_paths() {
    assert_eq!(sessions_file("/home/u/code"), "/home/u/code/.zelland/recent_sessions.json");
    assert_eq!(session_readme_path("/home/u/code", "proj"), "/home/u/code/proj/README.md");
}
