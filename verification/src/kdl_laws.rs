//! What the readers of the KDL sidecars make of a tree in the shape that the
//! writers lay out: each node reads back as the annotation it was written for.

use vstd::prelude::*;
use crate::kdl_tree::{
    KdlEntryModel, KdlNodeModel, doc_get, node_prop, entry_is_prop, opt_str, child_string,
    prop_string, prop_integer,
};
use crate::kdl_store::{
    CommentView, SelectorView, AnnView, AnnotationView, or_empty, first_string,
    selector_of, comment_of, comments_of, thread_of, ann_of, anns_of, annotation_of,
    annotations_of,
};

verus! {

// ---------------------------------------------------------------------------
// The shapes the writers lay out
// ---------------------------------------------------------------------------

/// `e` is a positional argument holding the string `v`.
pub open spec fn is_string_arg(e: KdlEntryModel, v: Seq<char>) -> bool {
    e.name is None && opt_str(e.string) == Some(v)
}

/// `e` is the property `key` holding the string `v`.
pub open spec fn is_string_prop(e: KdlEntryModel, key: Seq<char>, v: Seq<char>) -> bool {
    entry_is_prop(e, key) && opt_str(e.string) == Some(v)
}

/// `n` is a node `name "v"` without a block.
pub open spec fn is_value_node(n: KdlNodeModel, name: Seq<char>, v: Seq<char>) -> bool {
    &&& n.name@ == name
    &&& n.entries@.len() == 1
    &&& is_string_arg(n.entries@[0], v)
    &&& n.children is None
}

/// `n` is `comment id=".." author=".." created=".." { body ".." }` for `c`.
pub open spec fn is_comment_node(n: KdlNodeModel, c: CommentView) -> bool {
    &&& n.name@ == "comment"@
    &&& n.entries@.len() == 3
    &&& is_string_prop(n.entries@[0], "id"@, c.id)
    &&& is_string_prop(n.entries@[1], "author"@, c.author)
    &&& is_string_prop(n.entries@[2], "created"@, c.created)
    &&& n.children matches Some(b) && b@.len() == 1 && is_value_node(b@[0], "body"@, c.body)
}

/// `n` is `thread { comment .. }` with one comment node for each comment of `t`.
pub open spec fn is_thread_node(n: KdlNodeModel, t: Seq<CommentView>) -> bool {
    &&& n.name@ == "thread"@
    &&& n.children matches Some(b) && b@.len() == t.len() && forall|i: int|
        0 <= i < t.len() ==> is_comment_node(#[trigger] b@[i], t[i])
}

/// `n` is `selector { quote ".."  prefix ".."  suffix ".." }` for `sel`.
pub open spec fn is_selector_node(n: KdlNodeModel, sel: SelectorView) -> bool {
    &&& n.name@ == "selector"@
    &&& n.children matches Some(b) && b@.len() == 3 && is_value_node(b@[0], "quote"@, sel.quote)
        && is_value_node(b@[1], "prefix"@, sel.prefix) && is_value_node(
        b@[2],
        "suffix"@,
        sel.suffix,
    )
}

/// `n` is `ann "id" { selector { .. } thread { .. } }` for `a`, as
/// `serialize_anns` lays it out.
pub open spec fn is_ann_node(n: KdlNodeModel, a: AnnView) -> bool {
    &&& n.name@ == "ann"@
    &&& n.entries@.len() == 1
    &&& is_string_arg(n.entries@[0], a.id)
    &&& n.children matches Some(b) && b@.len() == 2 && is_selector_node(b@[0], a.selector)
        && is_thread_node(b@[1], a.thread)
}

/// `n` is `annotation id=".." user=".." timestamp=N { context_hash ..
/// target_text ..  body .. }` for `a`, as `serialize_annotations` lays it out.
pub open spec fn is_annotation_node(n: KdlNodeModel, a: AnnotationView) -> bool {
    &&& n.name@ == "annotation"@
    &&& n.entries@.len() == 3
    &&& is_string_prop(n.entries@[0], "id"@, a.id)
    &&& is_string_prop(n.entries@[1], "user"@, a.user)
    &&& entry_is_prop(n.entries@[2], "timestamp"@)
    &&& n.entries@[2].integer == Some(a.timestamp as i128)
    &&& n.children matches Some(b) && b@.len() == 3 && is_value_node(
        b@[0],
        "context_hash"@,
        a.context_hash,
    ) && is_value_node(b@[1], "target_text"@, a.target_text) && is_value_node(
        b@[2],
        "body"@,
        a.body,
    )
}

/// `c` may stand unescaped in a single-line quoted KDL v2 string: it is not
/// a line break (`'\r'`, `'\n'`, U+000B, U+000C, U+0085, U+2028, U+2029)
/// and not one of the code points that KDL v2 refuses in a document (the
/// control characters other than tab, U+007F, the direction controls and
/// U+FEFF).
pub open spec fn kdl_string_char(c: char) -> bool {
    &&& (c == '\t' || c >= ' ')
    &&& c != '\u{7F}'
    &&& c != '\u{85}'
    &&& !('\u{200E}' <= c && c <= '\u{200F}')
    &&& !('\u{2028}' <= c && c <= '\u{202E}')
    &&& !('\u{2066}' <= c && c <= '\u{2069}')
    &&& c != '\u{FEFF}'
}

/// Every character of `s` may stand in a single-line quoted KDL string.
pub open spec fn kdl_string(s: Seq<char>) -> bool {
    forall|i: int| 0 <= i < s.len() ==> kdl_string_char(#[trigger] s[i])
}

/// The strings of a comment can be written on one line each.
pub open spec fn comment_kdl_safe(c: CommentView) -> bool {
    kdl_string(c.id) && kdl_string(c.author) && kdl_string(c.created) && kdl_string(c.body)
}

/// The strings of an annotation with a selector can be written on one line each.
pub open spec fn ann_kdl_safe(a: AnnView) -> bool {
    &&& kdl_string(a.id)
    &&& kdl_string(a.selector.quote)
    &&& kdl_string(a.selector.prefix)
    &&& kdl_string(a.selector.suffix)
    &&& forall|i: int| 0 <= i < a.thread.len() ==> comment_kdl_safe(#[trigger] a.thread[i])
}

/// The strings of a legacy annotation can be written on one line each.
pub open spec fn annotation_kdl_safe(a: AnnotationView) -> bool {
    &&& kdl_string(a.id)
    &&& kdl_string(a.user)
    &&& kdl_string(a.context_hash)
    &&& kdl_string(a.target_text)
    &&& kdl_string(a.body)
}

/// Every annotation of `s` can be written with its strings on one line each.
pub open spec fn anns_kdl_safe(s: Seq<AnnView>) -> bool {
    forall|i: int| 0 <= i < s.len() ==> ann_kdl_safe(#[trigger] s[i])
}

/// Every legacy annotation of `s` can be written with its strings on one line each.
pub open spec fn annotations_kdl_safe(s: Seq<AnnotationView>) -> bool {
    forall|i: int| 0 <= i < s.len() ==> annotation_kdl_safe(#[trigger] s[i])
}

/// `nodes` are the `ann` nodes laid out for `s`, one each and in order.
pub open spec fn ann_nodes(nodes: Seq<KdlNodeModel>, s: Seq<AnnView>) -> bool {
    nodes.len() == s.len() && forall|i: int| 0 <= i < s.len() ==> is_ann_node(#[trigger] nodes[i], s[i])
}

/// `nodes` are the `annotation` nodes laid out for `s`, one each and in order.
pub open spec fn annotation_nodes(nodes: Seq<KdlNodeModel>, s: Seq<AnnotationView>) -> bool {
    nodes.len() == s.len() && forall|i: int|
        0 <= i < s.len() ==> is_annotation_node(#[trigger] nodes[i], s[i])
}

// ---------------------------------------------------------------------------
// Reading them back
// ---------------------------------------------------------------------------

proof fn lemma_names_differ()
    ensures
        "id"@ != "author"@,
        "id"@ != "created"@,
        "author"@ != "created"@,
        "id"@ != "user"@,
        "id"@ != "timestamp"@,
        "user"@ != "timestamp"@,
        "quote"@ != "prefix"@,
        "quote"@ != "suffix"@,
        "prefix"@ != "suffix"@,
        "selector"@ != "thread"@,
        "context_hash"@ != "target_text"@,
        "context_hash"@ != "body"@,
        "target_text"@ != "body"@,
{
    reveal_strlit("id");
    reveal_strlit("author");
    reveal_strlit("created");
    reveal_strlit("user");
    reveal_strlit("timestamp");
    reveal_strlit("quote");
    reveal_strlit("prefix");
    reveal_strlit("suffix");
    reveal_strlit("selector");
    reveal_strlit("thread");
    reveal_strlit("context_hash");
    reveal_strlit("target_text");
    reveal_strlit("body");
    assert("id"@.len() == 2);
    assert("author"@.len() == 6);
    assert("created"@.len() == 7);
    assert("user"@.len() == 4);
    assert("timestamp"@.len() == 9);
    assert("quote"@.len() == 5);
    assert("prefix"@.len() == 6);
    assert("suffix"@.len() == 6);
    assert("selector"@.len() == 8);
    assert("thread"@.len() == 6);
    assert("context_hash"@.len() == 12);
    assert("target_text"@.len() == 11);
    assert("body"@.len() == 4);
    assert("prefix"@[0] != "suffix"@[0]);
}

proof fn lemma_value_node_read(nodes: Seq<KdlNodeModel>, i: int, name: Seq<char>, v: Seq<char>)
    requires
        0 <= i < nodes.len(),
        is_value_node(nodes[i], name, v),
        forall|j: int| 0 <= j < i ==> (#[trigger] nodes[j]).name@ != name,
    ensures
        or_empty(child_string(nodes, name)) == v,
    decreases i,
{
    if i > 0 {
        assert(nodes[0].name@ != name);
        assert forall|j: int| 0 <= j < i - 1 implies (#[trigger] nodes.drop_first()[j]).name@
            != name by {
            assert(nodes.drop_first()[j] == nodes[j + 1]);
        }
        assert(nodes.drop_first()[i - 1] == nodes[i]);
        lemma_value_node_read(nodes.drop_first(), i - 1, name, v);
        assert(doc_get(nodes, name) == doc_get(nodes.drop_first(), name));
    }
}

proof fn lemma_comment_read(n: KdlNodeModel, c: CommentView)
    requires
        is_comment_node(n, c),
    ensures
        comment_of(n) == c,
{
    lemma_names_differ();
    reveal_with_fuel(node_prop, 4);
    let e = n.entries@;
    assert(e.drop_last().last() == e[1]);
    assert(e.drop_last().drop_last().last() == e[0]);
    assert(prop_string(e, "id"@) == Some(c.id));
    assert(prop_string(e, "author"@) == Some(c.author));
    assert(prop_string(e, "created"@) == Some(c.created));
    let b = n.children->0;
    lemma_value_node_read(b@, 0, "body"@, c.body);
}

proof fn lemma_comments_read(nodes: Seq<KdlNodeModel>, t: Seq<CommentView>)
    requires
        nodes.len() == t.len(),
        forall|i: int| 0 <= i < t.len() ==> is_comment_node(#[trigger] nodes[i], t[i]),
    ensures
        comments_of(nodes) == t,
    decreases nodes.len(),
{
    if nodes.len() > 0 {
        let k = nodes.len() - 1;
        assert forall|i: int| 0 <= i < t.drop_last().len() implies is_comment_node(
            #[trigger] nodes.drop_last()[i],
            t.drop_last()[i],
        ) by {
            assert(nodes.drop_last()[i] == nodes[i]);
            assert(is_comment_node(nodes[i], t[i]));
        }
        lemma_comments_read(nodes.drop_last(), t.drop_last());
        assert(is_comment_node(nodes[k], t[k]));
        reveal_strlit("comment");
        lemma_comment_read(nodes.last(), t.last());
        assert(t.drop_last().push(t.last()) =~= t);
    }
}

proof fn lemma_ann_read(n: KdlNodeModel, a: AnnView)
    requires
        is_ann_node(n, a),
    ensures
        ann_of(n, n.children->0@) == a,
{
    lemma_names_differ();
    let b = n.children->0@;
    let sel = b[0];
    let th = b[1];
    assert(doc_get(b, "selector"@) == Some(sel));
    assert(doc_get(b.drop_first(), "thread"@) == Some(th));
    assert(doc_get(b, "thread"@) == Some(th));
    let sc = sel.children->0@;
    lemma_value_node_read(sc, 0, "quote"@, a.selector.quote);
    lemma_value_node_read(sc, 1, "prefix"@, a.selector.prefix);
    lemma_value_node_read(sc, 2, "suffix"@, a.selector.suffix);
    assert(selector_of(b) == a.selector);
    let tc = th.children->0@;
    lemma_comments_read(tc, a.thread);
    assert(thread_of(b) == a.thread);
    assert(first_string(n) == a.id);
}

/// A list of `ann` nodes in the shape that `serialize_anns` lays out for the
/// annotations `s`, one node each and in order, reads back as `s`.
pub proof fn law_ann_nodes_read_back(nodes: Seq<KdlNodeModel>, s: Seq<AnnView>)
    requires
        nodes.len() == s.len(),
        forall|i: int| 0 <= i < s.len() ==> is_ann_node(#[trigger] nodes[i], s[i]),
    ensures
        anns_of(nodes) == s,
    decreases nodes.len(),
{
    if nodes.len() > 0 {
        let k = nodes.len() - 1;
        assert forall|i: int| 0 <= i < s.drop_last().len() implies is_ann_node(
            #[trigger] nodes.drop_last()[i],
            s.drop_last()[i],
        ) by {
            assert(nodes.drop_last()[i] == nodes[i]);
            assert(is_ann_node(nodes[i], s[i]));
        }
        law_ann_nodes_read_back(nodes.drop_last(), s.drop_last());
        assert(is_ann_node(nodes[k], s[k]));
        reveal_strlit("ann");
        lemma_ann_read(nodes.last(), s.last());
        assert(s.drop_last().push(s.last()) =~= s);
    }
}

proof fn lemma_annotation_read(n: KdlNodeModel, a: AnnotationView)
    requires
        is_annotation_node(n, a),
    ensures
        annotation_of(n) == a,
{
    lemma_names_differ();
    reveal_with_fuel(node_prop, 4);
    let e = n.entries@;
    assert(e.drop_last().last() == e[1]);
    assert(e.drop_last().drop_last().last() == e[0]);
    assert(prop_string(e, "id"@) == Some(a.id));
    assert(prop_string(e, "user"@) == Some(a.user));
    assert(prop_integer(e, "timestamp"@) == Some(a.timestamp as i128));
    let b = n.children->0@;
    lemma_value_node_read(b, 0, "context_hash"@, a.context_hash);
    lemma_value_node_read(b, 1, "target_text"@, a.target_text);
    lemma_value_node_read(b, 2, "body"@, a.body);
}

/// A list of `annotation` nodes in the shape that `serialize_annotations`
/// lays out for the annotations `s`, one node each and in order, reads back
/// as `s`.
pub proof fn law_annotation_nodes_read_back(nodes: Seq<KdlNodeModel>, s: Seq<AnnotationView>)
    requires
        nodes.len() == s.len(),
        forall|i: int| 0 <= i < s.len() ==> is_annotation_node(#[trigger] nodes[i], s[i]),
    ensures
        annotations_of(nodes) == s,
    decreases nodes.len(),
{
    if nodes.len() > 0 {
        let k = nodes.len() - 1;
        assert forall|i: int| 0 <= i < s.drop_last().len() implies is_annotation_node(
            #[trigger] nodes.drop_last()[i],
            s.drop_last()[i],
        ) by {
            assert(nodes.drop_last()[i] == nodes[i]);
            assert(is_annotation_node(nodes[i], s[i]));
        }
        law_annotation_nodes_read_back(nodes.drop_last(), s.drop_last());
        assert(is_annotation_node(nodes[k], s[k]));
        reveal_strlit("annotation");
        lemma_annotation_read(nodes.last(), s.last());
        assert(s.drop_last().push(s.last()) =~= s);
    }
}

} // verus!
