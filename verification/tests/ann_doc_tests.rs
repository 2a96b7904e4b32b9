use zelland::ann_doc::{extract_anns, AnnotationDoc};
use zelland::store::parse_markdown_comments;

#[test]
fn test_loro_reload_from_disk() {
    let initial_content = "# Title\n\n---\n\n## Comments\n\n### ann1\n\n> some quoted text\n\n- 2026-02-11T09:00:00Z njr: First\n";
    let mut doc = AnnotationDoc::new();
    doc.populate(&parse_markdown_comments(initial_content));
    let initial = doc.states();
    assert_eq!(initial.len(), 1);
    assert_eq!(initial[0].thread[0].body, "First");
    assert_eq!(initial[0].quote, "some quoted text");

    let updated_content = "# Title\n\n---\n\n## Comments\n\n### ann1\n\n> some quoted text\n\n- 2026-02-11T09:00:00Z njr: First\n\n### ann2\n\n> different quote\n\n- 2026-02-12T10:00:00Z bot: External\n";
    doc.merge_from_file(&parse_markdown_comments(updated_content));
    let states = doc.states();
    assert_eq!(states.len(), 2);
    assert_eq!(states[0].id, "ann1");
    assert_eq!(states[0].thread[0].body, "First");
    assert_eq!(states[0].quote, "some quoted text");
    assert_eq!(states[1].id, "ann2");
    assert_eq!(states[1].thread[0].body, "External");
    assert_eq!(states[1].quote, "different quote");
}

#[test]
fn add_comment_delete_and_sorting() {
    let mut doc = AnnotationDoc::new();
    doc.add_annotation("b".into(), "q".into(), "al".into(), "one".into(), "t1".into(), None, None);
    doc.add_annotation("a".into(), "".into(), "bo".into(), "x".into(), "t0".into(), Some("1:0->1:4".into()), Some("cb".into()));
    doc.add_comment("b", "cy".into(), "two".into(), "t2".into());
    let states = doc.states();
    assert_eq!(states.iter().map(|s| s.id.as_str()).collect::<Vec<_>>(), vec!["a", "b"]);
    assert_eq!(states[0].code_range.as_deref(), Some("1:0->1:4"));
    assert_eq!(states[0].codeblock_handle.as_deref(), Some("cb"));
    assert_eq!(states[1].thread.iter().map(|c| c.body.as_str()).collect::<Vec<_>>(), vec!["one", "two"]);
    assert_eq!(states[1].thread[1].timestamp, "t2");
    doc.delete_annotation("b");
    let states = doc.states();
    assert_eq!(states.len(), 1);
    assert_eq!(states[0].id, "a");
    let anns = extract_anns(&doc);
    assert_eq!(anns.len(), 1);
    assert_eq!(anns[0].code_range.as_deref(), Some("1:0->1:4"));
}

#[test]
fn comment_on_loaded_thread_is_appended() {
    let content = "# T\n\n---\n\n## Comments\n\n### x\n\n- t1 a: first\n- t2 b: second\n";
    let mut doc = AnnotationDoc::new();
    doc.populate(&parse_markdown_comments(content));
    assert_eq!(doc.states()[0].thread.len(), 2);
    doc.add_comment("x", "c".into(), "third".into(), "t3".into());
    let states = doc.states();
    assert_eq!(
        states[0].thread.iter().map(|c| c.body.as_str()).collect::<Vec<_>>(),
        vec!["first", "second", "third"]
    );
    doc.add_comment("x", "d".into(), "fourth".into(), "t4".into());
    assert_eq!(doc.states()[0].thread.len(), 4);
    assert_eq!(doc.states()[0].thread[3].body, "fourth");
}

#[test]
fn comment_on_unknown_annotation_creates_thread() {
    let mut doc = AnnotationDoc::new();
    doc.add_comment("new", "a".into(), "hello".into(), "t".into());
    let states = doc.states();
    assert_eq!(states.len(), 1);
    assert_eq!(states[0].quote, "");
    assert_eq!(states[0].thread[0].body, "hello");
}
