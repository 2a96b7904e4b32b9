use zelland::annotations::Comment;
use zelland::store::{
    code_ann_id, ensure_codeblock_anchor, parse_markdown_comments, reify_markdown_comments,
    strip_comments_section, Annotation,
};

fn make_comment(author: &str, ts: &str, body: &str) -> Comment {
    Comment {
        author: author.to_string(),
        timestamp: ts.to_string(),
        body: body.to_string(),
    }
}

#[test]
fn test_markdown_comments_roundtrip() {
    let initial_content = "# Title\n\nSome content here.\n";

    let anns = vec![Annotation::regular(
        "ann1".to_string(),
        "Some content here.".to_string(),
        vec![
            make_comment("njr", "2026-02-11T09:00:00Z", "First comment"),
            make_comment("bot", "2026-02-12T09:00:00Z", "Second comment"),
        ],
    )];

    let content = reify_markdown_comments(initial_content, &anns);
    assert!(content.contains("## Comments"), "missing ## Comments header");
    assert!(content.contains("### ann1"), "missing ### ann1");
    assert!(content.contains("> `Some content here.`"), "missing backtick-wrapped blockquote");
    assert!(content.contains("- 2026-02-11T09:00:00Z njr: First comment"));
    assert!(content.contains("---"), "missing --- separator");

    let parsed = parse_markdown_comments(&content);
    assert_eq!(parsed.len(), 1);
    assert_eq!(parsed[0].id, "ann1");
    assert_eq!(parsed[0].quote, "Some content here.");
    assert_eq!(parsed[0].thread.len(), 2);
    assert_eq!(parsed[0].thread[0].author, "njr");
    assert_eq!(parsed[0].thread[1].body, "Second comment");
    assert!(parsed[0].code_range.is_none());
    assert!(parsed[0].codeblock_handle.is_none());
}

#[test]
fn test_reify_overwrites_existing_comments() {
    let content = "# Title\n\nContent\n\n# Comments\n\n## old\n- 2026-01-01T00:00:00Z anon: old\n";
    let new_anns = vec![Annotation::regular(
        "new".to_string(),
        "some quote".to_string(),
        vec![make_comment("user", "2026-02-23T00:00:00Z", "new comment")],
    )];
    let final_content = reify_markdown_comments(content, &new_anns);
    assert!(!final_content.contains("## old"), "old annotation should be gone");
    assert!(final_content.contains("### new"), "new annotation should be present");
    assert!(final_content.contains("> `some quote`"), "backtick-wrapped quote should be present");
}

#[test]
fn test_reify_strips_old_format_separator() {
    let content = "# Title\n\nBody text.\n\n---\n\n## Comments\n\n### x1\n\n> `old quote`\n\n- 2026-01-01T00:00:00Z user: msg\n";
    let updated_anns = vec![Annotation::regular(
        "x1".to_string(),
        "new quote".to_string(),
        vec![make_comment("user", "2026-01-02T00:00:00Z", "updated")],
    )];
    let result = reify_markdown_comments(content, &updated_anns);
    assert!(result.contains("Body text."));
    assert_eq!(result.matches("---").count(), 1, "only one --- separator expected");
    assert!(!result.contains("> `old quote`"));
    assert!(result.contains("> `new quote`"));
}

#[test]
fn test_parse_old_format_backwards_compat() {
    let content = "# Title\n\n# Comments\n\n## abc123\n\n- 2026-01-01T00:00:00Z alice: hello\n";
    let parsed = parse_markdown_comments(content);
    assert_eq!(parsed.len(), 1);
    assert_eq!(parsed[0].id, "abc123");
    assert_eq!(parsed[0].quote, "", "old format has no quote");
    assert_eq!(parsed[0].thread.len(), 1);
    assert_eq!(parsed[0].thread[0].author, "alice");
}

#[test]
fn test_code_block_annotation_roundtrip() {
    let content = "# Title\n\n```python\ndef foo():\n    pass\n```\n[comments](#cb1)\n";
    let anns = vec![Annotation::code(
        "c_cb1_0_0__0_7".to_string(),
        "def foo".to_string(),
        vec![make_comment("user", "2026-02-23T00:00:00Z", "looks good")],
        "0:0->0:7".to_string(),
        "cb1".to_string(),
    )];
    let result = reify_markdown_comments(content, &anns);
    assert!(result.contains("### cb1"), "missing ### cb1");
    assert!(result.contains("#### 0:0->0:7"), "missing #### range");
    assert!(result.contains("> `def foo`"), "missing code quote");
    assert!(result.contains("- 2026-02-23T00:00:00Z user: looks good"));

    let parsed = parse_markdown_comments(&result);
    assert_eq!(parsed.len(), 1);
    assert_eq!(parsed[0].codeblock_handle.as_deref(), Some("cb1"));
    assert_eq!(parsed[0].code_range.as_deref(), Some("0:0->0:7"));
    assert_eq!(parsed[0].quote, "def foo");
    assert_eq!(parsed[0].thread[0].body, "looks good");
}

#[test]
fn test_code_block_multiple_annotations_same_block() {
    let content = "# Body\n";
    let anns = vec![
        Annotation::code(
            "c_cb1_0_0__0_5".to_string(),
            "def foo".to_string(),
            vec![make_comment("alice", "2026-01-01T00:00:00Z", "first")],
            "0:0->0:5".to_string(),
            "cb1".to_string(),
        ),
        Annotation::code(
            "c_cb1_1_4__1_9".to_string(),
            "    pass".to_string(),
            vec![make_comment("bob", "2026-01-02T00:00:00Z", "second")],
            "1:4->1:9".to_string(),
            "cb1".to_string(),
        ),
    ];
    let result = reify_markdown_comments(content, &anns);
    assert_eq!(result.matches("### cb1").count(), 1, "should be one ### cb1 header");
    assert!(result.contains("#### 0:0->0:5"));
    assert!(result.contains("#### 1:4->1:9"));

    let parsed = parse_markdown_comments(&result);
    assert_eq!(parsed.len(), 2);
    assert!(parsed.iter().all(|a| a.codeblock_handle.as_deref() == Some("cb1")));
}

#[test]
fn test_ensure_codeblock_anchor_inserts() {
    let content = "# Title\n\n```python\ndef foo():\n    pass\n```\nSome text after.\n";
    let prefix = "def foo():";
    let (new_content, handle) = ensure_codeblock_anchor(content, prefix, "cb99").unwrap();
    assert_eq!(handle, "cb99");
    assert!(new_content.contains("[comments](#cb99)"));
    let anchor_pos = new_content.find("[comments](#cb99)").unwrap();
    let text_pos = new_content.find("Some text after.").unwrap();
    assert!(anchor_pos < text_pos);
}

#[test]
fn test_ensure_codeblock_anchor_reuses_existing() {
    let content = "# Title\n\n```python\ndef foo():\n    pass\n```\n[comments](#existing)\nSome text.\n";
    let prefix = "def foo():";
    let (returned_content, handle) = ensure_codeblock_anchor(content, prefix, "new_handle").unwrap();
    assert_eq!(handle, "existing");
    assert_eq!(returned_content, content);
    assert!(!returned_content.contains("[comments](#new_handle)"));
}

#[test]
fn test_ensure_codeblock_anchor_not_found() {
    let content = "# Title\n\nNo code here.\n";
    assert!(ensure_codeblock_anchor(content, "def foo():", "cb1").is_none());
}

#[test]
fn test_ensure_codeblock_anchor_empty_prefix() {
    let content = "# Title\n\n```\nsome code\n```\n";
    assert!(ensure_codeblock_anchor(content, "", "cb1").is_none());
}

#[test]
fn test_find_fenced_block_skips_wrong_blocks() {
    let content = "```python\nprint('hello')\n```\n\n```rust\nfn main() {}\n```\n";
    let prefix = "fn main()";
    let (new_content, handle) = ensure_codeblock_anchor(content, prefix, "cbrust").unwrap();
    assert_eq!(handle, "cbrust");
    let python_end = new_content.find("print('hello')").unwrap() + "print('hello')".len();
    let anchor_pos = new_content.find("[comments](#cbrust)").unwrap();
    assert!(anchor_pos > python_end, "anchor should be after the python block");
}

// --- further cases ---

#[test]
fn code_ann_id_replaces_non_alphanumerics() {
    assert_eq!(code_ann_id("cb1", "0:0->0:7"), "c_cb1_0_0__0_7");
    assert_eq!(code_ann_id("a-b", "1:4->1:9"), "c_a_b_1_4__1_9");
}

#[test]
fn strip_comments_section_takes_earliest_pattern() {
    assert_eq!(strip_comments_section("Body\n---\n\n## Comments\nx"), "Body");
    assert_eq!(strip_comments_section("Body\n# Comments\nx"), "Body");
    assert_eq!(strip_comments_section("No section"), "No section");
}

#[test]
fn reify_without_annotations_only_trims_body() {
    assert_eq!(reify_markdown_comments("# T\n\nBody\n\n\n", &[]), "# T\n\nBody");
}

#[test]
fn reify_exact_text_of_one_annotation() {
    let anns = vec![Annotation::regular(
        "a".to_string(),
        "".to_string(),
        vec![make_comment("u", "t", "b")],
    )];
    assert_eq!(
        reify_markdown_comments("Body\n", &anns),
        "Body\n\n---\n\n## Comments\n\n### a\n\n- t u: b\n"
    );
}

#[test]
fn reify_sorts_code_ranges_within_group() {
    let anns = vec![
        Annotation::code("x".into(), "".into(), vec![], "2:0->2:1".into(), "h".into()),
        Annotation::code("y".into(), "".into(), vec![], "1:0->1:1".into(), "h".into()),
    ];
    let out = reify_markdown_comments("B", &anns);
    assert_eq!(out, "B\n\n---\n\n## Comments\n\n### h\n\n#### 1:0->1:1\n\n\n#### 2:0->2:1\n\n");
}

#[test]
fn parse_ignores_lines_before_comments_section() {
    let content = "### not-a-section\n- 2026 a: b\n## Comments\n### id1\n> ``q``\n- ts bob: hi there \n";
    let parsed = parse_markdown_comments(content);
    assert_eq!(parsed.len(), 1);
    assert_eq!(parsed[0].id, "id1");
    assert_eq!(parsed[0].quote, "q");
    assert_eq!(parsed[0].thread[0].body, "hi there");
}

#[test]
fn parse_code_section_derives_ids() {
    let content = "## Comments\n### cb\n#### 0:0->0:1\n- t a: x\n#### 1:0->1:2\n- t b: y\n";
    let parsed = parse_markdown_comments(content);
    assert_eq!(parsed.len(), 2);
    assert_eq!(parsed[0].id, "c_cb_0_0__0_1");
    assert_eq!(parsed[1].id, "c_cb_1_0__1_2");
    assert_eq!(parsed[1].thread[0].author, "b");
}

#[test]
fn anchor_inserted_after_tilde_fence() {
    let content = "~~~\ncode\n~~~\nafter\n";
    let (c, h) = ensure_codeblock_anchor(content, "code", "h1").unwrap();
    assert_eq!(h, "h1");
    assert_eq!(c, "~~~\ncode\n~~~\n[comments](#h1)\nafter\n");
}

#[test]
fn test_ensure_codeblock_anchor_after_final_fence() {
    let (c, h) = ensure_codeblock_anchor("```\nx\n```", "x", "h").unwrap();
    assert_eq!(h, "h");
    assert_eq!(c, "```\nx\n```\n[comments](#h)\n");
    // A second call finds the anchor it inserted and changes nothing.
    assert_eq!(ensure_codeblock_anchor(&c, "x", "other"), Some((c.clone(), "h".to_string())));
}

#[test]
fn strip_comments_section_cuts_at_earliest_heading() {
    let content = "Intro\n## Comments\nlater\n---\n# Comments\nend";
    let r = strip_comments_section(content);
    assert_eq!(r, "Intro");
    assert!(content.starts_with(&r));
    assert!(content[r.len()..].starts_with("\n## Comments"));
    assert_eq!(strip_comments_section(&r), r);
}

#[test]
fn ensure_codeblock_anchor_second_call_changes_nothing() {
    let content = "Text\n\n```rust\nfn main() {}\n```\nMore\n";
    let (c1, h1) = ensure_codeblock_anchor(content, "fn main", "blk").unwrap();
    assert_eq!(c1, "Text\n\n```rust\nfn main() {}\n```\n[comments](#blk)\nMore\n");
    assert_eq!(h1, "blk");
    assert_eq!(
        ensure_codeblock_anchor(&c1, "fn main", "another"),
        Some((c1.clone(), "blk".to_string()))
    );
}
