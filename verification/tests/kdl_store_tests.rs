use zelland::kdl_store::{
    append_annotation, kdl_quote, parse_annotations, parse_anns, serialize_annotations,
    serialize_anns, upsert_annotation, Ann, Annotation, Comment, Selector, StoreError,
};
use zelland::paths::{ann_kdl_path, join_relative_path, loro_cache_path};

fn legacy(id: &str, user: &str, ts: i64, hash: &str, target: &str, body: &str) -> Annotation {
    Annotation {
        id: id.into(),
        user: user.into(),
        timestamp: ts,
        context_hash: hash.into(),
        target_text: target.into(),
        body: body.into(),
    }
}

fn comment(id: &str, author: &str, created: &str, body: &str) -> Comment {
    Comment { id: id.into(), author: author.into(), created: created.into(), body: body.into() }
}

#[test]
fn test_kdl_roundtrip() {
    let expected = vec![
        legacy("ann-1", "alice", 123456789, "sha256:abc", "Hello", "World"),
        legacy("ann-2", "bob", 987654321, "sha256:def", "Foo", "Bar"),
    ];
    let text = serialize_annotations(&expected);
    let actual = parse_annotations(&text).unwrap();

    assert_eq!(actual.len(), 2);
    assert_eq!(actual[0].id, "ann-1");
    assert_eq!(actual[0].user, "alice");
    assert_eq!(actual[0].timestamp, 123456789);
    assert_eq!(actual[0].context_hash, "sha256:abc");
    assert_eq!(actual[0].target_text, "Hello");
    assert_eq!(actual[0].body, "World");

    assert_eq!(actual[1].id, "ann-2");
    assert_eq!(actual[1].body, "Bar");
}

#[test]
fn test_append_upsert_existing() {
    let original = vec![legacy("ann-1", "alice", 100, "hash1", "Hello", "World")];
    let text = serialize_annotations(&original);

    let updated = legacy("ann-1", "alice", 200, "hash1", "Hello Updated", "World Updated");
    let new_text = append_annotation(Some(&text), updated).unwrap();

    let anns = parse_annotations(&new_text).unwrap();
    assert_eq!(anns.len(), 1);
    assert_eq!(anns[0].body, "World Updated");
    assert_eq!(anns[0].target_text, "Hello Updated");
}

#[test]
fn test_append_new() {
    let original = vec![legacy("ann-1", "", 0, "", "Hello", "World")];
    let text = serialize_annotations(&original);

    let new_ann = legacy("ann-2", "", 0, "", "New", "Note");
    let new_text = append_annotation(Some(&text), new_ann).unwrap();

    let anns = parse_annotations(&new_text).unwrap();
    assert_eq!(anns.len(), 2);
    assert_eq!(anns[1].id, "ann-2");
    assert_eq!(anns[1].body, "Note");
}

#[test]
fn test_append_to_nonexistent_creates_file() {
    let ann = legacy("first", "", 0, "", "Target", "Body");
    let text = append_annotation(None, ann).unwrap();

    let anns = parse_annotations(&text).unwrap();
    assert_eq!(anns.len(), 1);
    assert_eq!(anns[0].id, "first");
}

#[test]
fn test_body_with_special_chars() {
    let ann = vec![legacy("ann-special", "", 0, "", "text with \"quotes\"", "body with \\backslash")];
    let text = serialize_annotations(&ann);

    let loaded = parse_annotations(&text).unwrap();
    assert_eq!(loaded[0].target_text, "text with \"quotes\"");
    assert_eq!(loaded[0].body, "body with \\backslash");
}

#[test]
fn test_ann_kdl_roundtrip() {
    let expected = vec![
        Ann {
            id: "k8f2a".into(),
            selector: Selector {
                quote: "ESP32-S3".into(),
                prefix: "architecture of the ".into(),
                suffix: " microcontroller".into(),
            },
            thread: vec![
                comment("c001", "njr", "2026-02-10T14:30:00Z", "Should we verify the power draw?"),
                comment(
                    "c002",
                    "alice",
                    "2026-02-10T15:12:00Z",
                    "Yes - measured at **45uA** in deep sleep.",
                ),
            ],
        },
        Ann {
            id: "m3x9p".into(),
            selector: Selector {
                quote: "userspace packet loop".into(),
                prefix: "Implement ".into(),
                suffix: " in `src-tauri".into(),
            },
            thread: vec![comment("c003", "njr", "2026-02-11T09:00:00Z", "This is done - see `network.rs`.")],
        },
    ];

    let text = serialize_anns(&expected);
    let actual = parse_anns(&text).unwrap();

    assert_eq!(actual.len(), 2);
    assert_eq!(actual[0].id, "k8f2a");
    assert_eq!(actual[0].selector.quote, "ESP32-S3");
    assert_eq!(actual[0].selector.prefix, "architecture of the ");
    assert_eq!(actual[0].selector.suffix, " microcontroller");
    assert_eq!(actual[0].thread.len(), 2);
    assert_eq!(actual[0].thread[0].id, "c001");
    assert_eq!(actual[0].thread[0].author, "njr");
    assert_eq!(actual[0].thread[0].body, "Should we verify the power draw?");
    assert_eq!(actual[0].thread[1].id, "c002");
    assert_eq!(actual[0].thread[1].body, "Yes - measured at **45uA** in deep sleep.");

    assert_eq!(actual[1].id, "m3x9p");
    assert_eq!(actual[1].thread.len(), 1);
    assert_eq!(actual, expected);
}

#[test]
fn test_ann_kdl_special_chars() {
    let expected = vec![Ann {
        id: "sp1".into(),
        selector: Selector {
            quote: "text with \"quotes\"".into(),
            prefix: "before\\".into(),
            suffix: "after".into(),
        },
        thread: vec![comment("c1", "user", "2026-01-01T00:00:00Z", "body with \\backslash and \"quotes\"")],
    }];

    let text = serialize_anns(&expected);
    let actual = parse_anns(&text).unwrap();

    assert_eq!(actual[0].selector.quote, "text with \"quotes\"");
    assert_eq!(actual[0].selector.prefix, "before\\");
    assert_eq!(actual[0].thread[0].body, "body with \\backslash and \"quotes\"");
}

#[test]
fn test_ann_kdl_empty_thread() {
    let expected = vec![Ann {
        id: "e1".into(),
        selector: Selector { quote: "some text".into(), prefix: "".into(), suffix: "".into() },
        thread: Vec::new(),
    }];

    let text = serialize_anns(&expected);
    let actual = parse_anns(&text).unwrap();

    assert_eq!(actual.len(), 1);
    assert_eq!(actual[0].id, "e1");
    assert!(actual[0].thread.is_empty());
}

#[test]
fn test_ann_kdl_path_derivation() {
    assert_eq!(ann_kdl_path("README.md"), "README.ann.kdl");
    assert_eq!(ann_kdl_path("docs/notes.txt"), "docs/notes.ann.kdl");
    assert_eq!(ann_kdl_path("/absolute/path/file.md"), "/absolute/path/file.ann.kdl");
}

#[test]
fn kdl_quote_escapes_backslash_and_quote() {
    assert_eq!(kdl_quote("plain"), "\"plain\"");
    assert_eq!(kdl_quote("a\"b\\c"), "\"a\\\"b\\\\c\"");
    assert_eq!(kdl_quote(""), "\"\"");
}

#[test]
fn serialize_annotations_exact_text() {
    let text = serialize_annotations(&[legacy("a", "u", -42, "h", "t", "b")]);
    assert_eq!(
        text,
        "annotation id=\"a\" user=\"u\" timestamp=-42 {\n    context_hash \"h\"\n    target_text \"t\"\n    body \"b\"\n}\n"
    );
}

#[test]
fn serialize_anns_exact_text() {
    let text = serialize_anns(&[Ann {
        id: "x".into(),
        selector: Selector { quote: "q".into(), prefix: "p".into(), suffix: "s".into() },
        thread: vec![comment("c", "a", "t", "b")],
    }]);
    assert_eq!(
        text,
        "ann \"x\" {\n    selector {\n        quote \"q\"\n        prefix \"p\"\n        suffix \"s\"\n    }\n    thread {\n        comment id=\"c\" author=\"a\" created=\"t\" {\n            body \"b\"\n        }\n    }\n}\n"
    );
}

#[test]
fn timestamp_extremes_roundtrip() {
    let anns = vec![legacy("min", "", i64::MIN, "", "", ""), legacy("max", "", i64::MAX, "", "", "")];
    let parsed = parse_annotations(&serialize_annotations(&anns)).unwrap();
    assert_eq!(parsed, anns);
}

#[test]
fn parse_anns_skips_other_nodes_and_blockless_anns() {
    let text = "other \"x\"\nann \"no-block\"\nann \"kept\" {\n    thread {\n        note \"skip\"\n        comment id=\"c1\" id=\"c2\" author=\"a\"\n    }\n}\n";
    let anns = parse_anns(text).unwrap();
    assert_eq!(anns.len(), 1);
    assert_eq!(anns[0].id, "kept");
    assert_eq!(anns[0].selector, Selector { quote: "".into(), prefix: "".into(), suffix: "".into() });
    assert_eq!(anns[0].thread, vec![comment("c2", "a", "", "")]);
}

#[test]
fn parse_annotations_reads_defaults() {
    let anns = parse_annotations("annotation\nannotation id=\"x\" timestamp=\"late\"\n").unwrap();
    assert_eq!(anns, vec![legacy("", "", 0, "", "", ""), legacy("x", "", 0, "", "", "")]);
}

#[test]
fn parse_invalid_kdl_is_error() {
    assert!(matches!(parse_anns("ann { unclosed"), Err(StoreError::Kdl(_))));
    assert!(matches!(parse_annotations("this is not { valid kdl"), Err(StoreError::Kdl(_))));
    assert!(matches!(append_annotation(Some("{"), legacy("a", "", 0, "", "", "")), Err(StoreError::Kdl(_))));
}

#[test]
fn upsert_replaces_first_match_only() {
    let mut anns = vec![
        legacy("a", "1", 0, "", "", ""),
        legacy("b", "2", 0, "", "", ""),
        legacy("a", "3", 0, "", "", ""),
    ];
    upsert_annotation(&mut anns, legacy("a", "new", 5, "", "", ""));
    assert_eq!(anns.len(), 3);
    assert_eq!(anns[0].user, "new");
    assert_eq!(anns[2].user, "3");
    upsert_annotation(&mut anns, legacy("c", "x", 0, "", "", ""));
    assert_eq!(anns.len(), 4);
    assert_eq!(anns[3].id, "c");
}

#[test]
fn loro_cache_path_is_hidden_sibling() {
    assert_eq!(loro_cache_path("docs/README.md"), "docs/.README.md.zelland");
    assert_eq!(loro_cache_path("a.md"), ".a.md.zelland");
}

#[test]
fn join_relative_inserts_one_separator() {
    assert_eq!(join_relative_path("/home/u", "code"), "/home/u/code");
    assert_eq!(join_relative_path("/home/u/", "code"), "/home/u/code");
    assert_eq!(join_relative_path("", "code"), "code");
}

fn str_arg(v: &str) -> zelland::kdl_tree::KdlEntryModel {
    zelland::kdl_tree::KdlEntryModel { name: None, string: Some(v.to_string()), integer: None }
}

fn str_prop(k: &str, v: &str) -> zelland::kdl_tree::KdlEntryModel {
    zelland::kdl_tree::KdlEntryModel {
        name: Some(k.to_string()),
        string: Some(v.to_string()),
        integer: None,
    }
}

fn value_node(name: &str, v: &str) -> zelland::kdl_tree::KdlNodeModel {
    zelland::kdl_tree::KdlNodeModel { name: name.to_string(), entries: vec![str_arg(v)], children: None }
}

fn block_node(
    name: &str,
    entries: Vec<zelland::kdl_tree::KdlEntryModel>,
    children: Vec<zelland::kdl_tree::KdlNodeModel>,
) -> zelland::kdl_tree::KdlNodeModel {
    zelland::kdl_tree::KdlNodeModel { name: name.to_string(), entries, children: Some(children) }
}

#[test]
fn ann_tree_in_written_shape_reads_back() {
    let comment = block_node(
        "comment",
        vec![str_prop("id", "c1"), str_prop("author", "ann"), str_prop("created", "2026")],
        vec![value_node("body", "hello")],
    );
    let node = block_node(
        "ann",
        vec![str_arg("a1")],
        vec![
            block_node(
                "selector",
                vec![],
                vec![value_node("quote", "q"), value_node("prefix", "p"), value_node("suffix", "s")],
            ),
            block_node("thread", vec![], vec![comment]),
        ],
    );
    let anns = zelland::kdl_store::anns_from_nodes(&[node]);
    assert_eq!(anns.len(), 1);
    assert_eq!(anns[0].id, "a1");
    assert_eq!(anns[0].selector, Selector { quote: "q".into(), prefix: "p".into(), suffix: "s".into() });
    assert_eq!(anns[0].thread.len(), 1);
    assert_eq!(anns[0].thread[0].author, "ann");
    assert_eq!(anns[0].thread[0].body, "hello");
}

#[test]
fn annotation_tree_in_written_shape_reads_back() {
    let node = block_node(
        "annotation",
        vec![
            str_prop("id", "x"),
            str_prop("user", "u"),
            zelland::kdl_tree::KdlEntryModel {
                name: Some("timestamp".to_string()),
                string: None,
                integer: Some(-5),
            },
        ],
        vec![value_node("context_hash", "h"), value_node("target_text", "t"), value_node("body", "b")],
    );
    let anns = zelland::kdl_store::annotations_from_nodes(&[node]);
    assert_eq!(anns.len(), 1);
    assert_eq!(anns[0].id, "x");
    assert_eq!(anns[0].user, "u");
    assert_eq!(anns[0].timestamp, -5);
    assert_eq!(anns[0].context_hash, "h");
    assert_eq!(anns[0].target_text, "t");
    assert_eq!(anns[0].body, "b");
}
