//! The KDL sidecar formats: `.ann.kdl` files holding annotations with a text
//! selector and a comment thread, and the legacy annotation files that
//! other tools still read and write.

use vstd::prelude::*;
use crate::text::{str_chars, chars_to_string, push_str, signed_decimal, push_signed_decimal};
use crate::kdl_tree::{
    KdlNodeModel, kdl_parse_model, parse_kdl, doc_get, child_string, prop_string, prop_integer,
    doc_get_index, get_child_string, get_prop_string, get_prop_integer, str_eq,
};
use crate::kdl_laws::{
    anns_kdl_safe, annotations_kdl_safe, law_ann_nodes_read_back, law_annotation_nodes_read_back,
};

verus! {

// ---------------------------------------------------------------------------
// Types
// ---------------------------------------------------------------------------

/// A comment in an annotation thread.
#[derive(Debug, Clone, PartialEq)]
pub struct Comment {
    pub id: String,
    pub author: String,
    pub created: String,
    pub body: String,
}

/// Text selector for anchoring an annotation to document content.
#[derive(Debug, Clone, PartialEq)]
pub struct Selector {
    pub quote: String,
    pub prefix: String,
    pub suffix: String,
}

/// A rich annotation with selector and threaded comments, stored in
/// `.ann.kdl` sidecar files.
#[derive(Debug, Clone, PartialEq)]
pub struct Ann {
    pub id: String,
    pub selector: Selector,
    pub thread: Vec<Comment>,
}

/// A legacy annotation: who wrote it and when, the text it targets (with a
/// hash of its context), and the comment.
#[derive(Debug, Clone, PartialEq)]
pub struct Annotation {
    pub id: String,
    pub user: String,
    pub timestamp: i64,
    pub context_hash: String,
    pub target_text: String,
    pub body: String,
}

/// Why a sidecar file could not be read.
#[derive(Debug)]
pub enum StoreError {
    /// The file could not be read or written; the message says why.
    Io(String),
    /// The file is not a KDL document.
    Kdl(kdl::KdlError),
}

/// Why an annotation document could not be loaded or saved.
#[derive(Debug)]
pub enum DocError {
    /// The sidecar file failed.
    Store(StoreError),
    /// The collaborative document refused an update; the message says why.
    Yrs(String),
}

pub struct CommentView {
    pub id: Seq<char>,
    pub author: Seq<char>,
    pub created: Seq<char>,
    pub body: Seq<char>,
}

pub struct SelectorView {
    pub quote: Seq<char>,
    pub prefix: Seq<char>,
    pub suffix: Seq<char>,
}

pub struct AnnView {
    pub id: Seq<char>,
    pub selector: SelectorView,
    pub thread: Seq<CommentView>,
}

pub struct AnnotationView {
    pub id: Seq<char>,
    pub user: Seq<char>,
    pub timestamp: i64,
    pub context_hash: Seq<char>,
    pub target_text: Seq<char>,
    pub body: Seq<char>,
}

impl View for Comment {
    type V = CommentView;

    open spec fn view(&self) -> CommentView {
        CommentView { id: self.id@, author: self.author@, created: self.created@, body: self.body@ }
    }
}

impl View for Selector {
    type V = SelectorView;

    open spec fn view(&self) -> SelectorView {
        SelectorView { quote: self.quote@, prefix: self.prefix@, suffix: self.suffix@ }
    }
}

/// The views of a thread of comments.
pub open spec fn thread_views(t: Seq<Comment>) -> Seq<CommentView> {
    t.map_values(|c: Comment| c@)
}

impl View for Ann {
    type V = AnnView;

    open spec fn view(&self) -> AnnView {
        AnnView { id: self.id@, selector: self.selector@, thread: thread_views(self.thread@) }
    }
}

impl View for Annotation {
    type V = AnnotationView;

    open spec fn view(&self) -> AnnotationView {
        AnnotationView {
            id: self.id@,
            user: self.user@,
            timestamp: self.timestamp,
            context_hash: self.context_hash@,
            target_text: self.target_text@,
            body: self.body@,
        }
    }
}

/// The views of a list of annotations.
pub open spec fn ann_views(v: Seq<Ann>) -> Seq<AnnView> {
    v.map_values(|a: Ann| a@)
}

/// The views of a list of legacy annotations.
pub open spec fn annotation_views(v: Seq<Annotation>) -> Seq<AnnotationView> {
    v.map_values(|a: Annotation| a@)
}

proof fn lemma_thread_views_push(v: Seq<Comment>, c: Comment)
    ensures
        thread_views(v.push(c)) == thread_views(v).push(c@),
{
    assert(thread_views(v.push(c)) =~= thread_views(v).push(c@));
}

proof fn lemma_ann_views_push(v: Seq<Ann>, a: Ann)
    ensures
        ann_views(v.push(a)) == ann_views(v).push(a@),
{
    assert(ann_views(v.push(a)) =~= ann_views(v).push(a@));
}

proof fn lemma_annotation_views_push(v: Seq<Annotation>, a: Annotation)
    ensures
        annotation_views(v.push(a)) == annotation_views(v).push(a@),
{
    assert(annotation_views(v.push(a)) =~= annotation_views(v).push(a@));
}

// ---------------------------------------------------------------------------
// Writing
// ---------------------------------------------------------------------------

/// `c` as it stands inside a quoted KDL string.
pub open spec fn escape_char(c: char) -> Seq<char> {
    if c == '\\' {
        seq!['\\', '\\']
    } else if c == '"' {
        seq!['\\', '"']
    } else {
        seq![c]
    }
}

/// `s` with each backslash and double quote escaped by a backslash.
pub open spec fn escape(s: Seq<char>) -> Seq<char>
    decreases s.len(),
{
    if s.len() == 0 {
        Seq::empty()
    } else {
        escape(s.drop_last()) + escape_char(s.last())
    }
}

/// `s` as a quoted KDL string.
pub open spec fn quoted(s: Seq<char>) -> Seq<char> {
    seq!['"'] + escape(s) + seq!['"']
}

fn push_quoted(out: &mut Vec<char>, s: &str)
    ensures
        final(out)@ == old(out)@ + quoted(s@),
{
    let chars = str_chars(s);
    out.push('"');
    let mut i: usize = 0;
    while i < chars.len()
        invariant
            i <= chars@.len(),
            chars@ == s@,
            out@ == old(out)@ + seq!['"'] + escape(chars@.take(i as int)),
        decreases chars@.len() - i,
    {
        let c = chars[i];
        assert(chars@.take(i + 1).drop_last() =~= chars@.take(i as int));
        if c == '\\' {
            out.push('\\');
            out.push('\\');
        } else if c == '"' {
            out.push('\\');
            out.push('"');
        } else {
            out.push(c);
        }
        assert(out@ =~= old(out)@ + seq!['"'] + escape(chars@.take(i + 1)));
        i = i + 1;
    }
    out.push('"');
    assert(chars@.take(chars@.len() as int) =~= chars@);
    assert(out@ =~= old(out)@ + quoted(s@));
}

/// `s` as a quoted KDL string: backslashes and double quotes escaped.
pub fn kdl_quote(s: &str) -> (r: String)
    ensures
        r@ == quoted(s@),
{
    let mut out: Vec<char> = Vec::new();
    push_quoted(&mut out, s);
    assert(out@ =~= quoted(s@));
    chars_to_string(&out)
}

/// The `.ann.kdl` text of one comment of a thread.
pub open spec fn comment_text(c: CommentView) -> Seq<char> {
    "        comment id="@ + quoted(c.id) + " author="@ + quoted(c.author) + " created="@ + quoted(
        c.created,
    ) + " {\n"@ + "            body "@ + quoted(c.body) + "\n"@ + "        }\n"@
}

/// The `.ann.kdl` text of the comments of a thread, in order.
pub open spec fn thread_text(t: Seq<CommentView>) -> Seq<char>
    decreases t.len(),
{
    if t.len() == 0 {
        Seq::empty()
    } else {
        thread_text(t.drop_last()) + comment_text(t.last())
    }
}

/// The `.ann.kdl` text of one annotation.
pub open spec fn ann_text(a: AnnView) -> Seq<char> {
    "ann "@ + quoted(a.id) + " {\n"@ + "    selector {\n"@ + "        quote "@ + quoted(
        a.selector.quote,
    ) + "\n"@ + "        prefix "@ + quoted(a.selector.prefix) + "\n"@ + "        suffix "@
        + quoted(a.selector.suffix) + "\n"@ + "    }\n"@ + "    thread {\n"@ + thread_text(a.thread)
        + "    }\n"@ + "}\n"@
}

/// The `.ann.kdl` text of a list of annotations, in order.
pub open spec fn anns_text(s: Seq<AnnView>) -> Seq<char>
    decreases s.len(),
{
    if s.len() == 0 {
        Seq::empty()
    } else {
        anns_text(s.drop_last()) + ann_text(s.last())
    }
}

/// The legacy KDL text of one annotation.
pub open spec fn annotation_text(a: AnnotationView) -> Seq<char> {
    "annotation id="@ + quoted(a.id) + " user="@ + quoted(a.user) + " timestamp="@
        + signed_decimal(a.timestamp as int) + " {\n"@ + "    context_hash "@ + quoted(
        a.context_hash,
    ) + "\n"@ + "    target_text "@ + quoted(a.target_text) + "\n"@ + "    body "@ + quoted(a.body)
        + "\n"@ + "}\n"@
}

/// The legacy KDL text of a list of annotations, in order.
pub open spec fn annotations_text(s: Seq<AnnotationView>) -> Seq<char>
    decreases s.len(),
{
    if s.len() == 0 {
        Seq::empty()
    } else {
        annotations_text(s.drop_last()) + annotation_text(s.last())
    }
}

fn push_comment(out: &mut Vec<char>, c: &Comment)
    ensures
        final(out)@ == old(out)@ + comment_text(c@),
{
    push_str(out, "        comment id=");
    push_quoted(out, c.id.as_str());
    push_str(out, " author=");
    push_quoted(out, c.author.as_str());
    push_str(out, " created=");
    push_quoted(out, c.created.as_str());
    push_str(out, " {\n");
    push_str(out, "            body ");
    push_quoted(out, c.body.as_str());
    push_str(out, "\n");
    push_str(out, "        }\n");
    assert(out@ =~= old(out)@ + comment_text(c@));
}

fn push_ann(out: &mut Vec<char>, a: &Ann)
    ensures
        final(out)@ == old(out)@ + ann_text(a@),
{
    push_str(out, "ann ");
    push_quoted(out, a.id.as_str());
    push_str(out, " {\n");
    push_str(out, "    selector {\n");
    push_str(out, "        quote ");
    push_quoted(out, a.selector.quote.as_str());
    push_str(out, "\n");
    push_str(out, "        prefix ");
    push_quoted(out, a.selector.prefix.as_str());
    push_str(out, "\n");
    push_str(out, "        suffix ");
    push_quoted(out, a.selector.suffix.as_str());
    push_str(out, "\n");
    push_str(out, "    }\n");
    push_str(out, "    thread {\n");
    let ghost mid = out@;
    let mut i: usize = 0;
    while i < a.thread.len()
        invariant
            i <= a.thread@.len(),
            out@ == mid + thread_text(thread_views(a.thread@.take(i as int))),
        decreases a.thread@.len() - i,
    {
        proof {
            assert(a.thread@.take(i + 1) =~= a.thread@.take(i as int).push(a.thread@[i as int]));
            lemma_thread_views_push(a.thread@.take(i as int), a.thread@[i as int]);
            assert(thread_views(a.thread@.take(i + 1)).drop_last() =~= thread_views(
                a.thread@.take(i as int),
            ));
        }
        push_comment(out, &a.thread[i]);
        assert(out@ =~= mid + thread_text(thread_views(a.thread@.take(i + 1))));
        i = i + 1;
    }
    assert(a.thread@.take(a.thread@.len() as int) =~= a.thread@);
    push_str(out, "    }\n");
    push_str(out, "}\n");
    assert(out@ =~= old(out)@ + ann_text(a@));
}

/// The `.ann.kdl` text of `anns`.
pub fn serialize_anns(anns: &[Ann]) -> (r: String)
    ensures
        r@ == anns_text(ann_views(anns@)),
{
    let mut out: Vec<char> = Vec::new();
    let mut i: usize = 0;
    while i < anns.len()
        invariant
            i <= anns@.len(),
            out@ == anns_text(ann_views(anns@.take(i as int))),
        decreases anns@.len() - i,
    {
        proof {
            assert(anns@.take(i + 1) =~= anns@.take(i as int).push(anns@[i as int]));
            lemma_ann_views_push(anns@.take(i as int), anns@[i as int]);
            assert(ann_views(anns@.take(i + 1)).drop_last() =~= ann_views(anns@.take(i as int)));
        }
        push_ann(&mut out, &anns[i]);
        i = i + 1;
    }
    assert(anns@.take(anns@.len() as int) =~= anns@);
    chars_to_string(&out)
}

fn push_annotation(out: &mut Vec<char>, a: &Annotation)
    ensures
        final(out)@ == old(out)@ + annotation_text(a@),
{
    push_str(out, "annotation id=");
    push_quoted(out, a.id.as_str());
    push_str(out, " user=");
    push_quoted(out, a.user.as_str());
    push_str(out, " timestamp=");
    push_signed_decimal(out, a.timestamp);
    push_str(out, " {\n");
    push_str(out, "    context_hash ");
    push_quoted(out, a.context_hash.as_str());
    push_str(out, "\n");
    push_str(out, "    target_text ");
    push_quoted(out, a.target_text.as_str());
    push_str(out, "\n");
    push_str(out, "    body ");
    push_quoted(out, a.body.as_str());
    push_str(out, "\n");
    push_str(out, "}\n");
    assert(out@ =~= old(out)@ + annotation_text(a@));
}

/// The legacy KDL text of `annotations`.
pub fn serialize_annotations(annotations: &[Annotation]) -> (r: String)
    ensures
        r@ == annotations_text(annotation_views(annotations@)),
{
    let mut out: Vec<char> = Vec::new();
    let mut i: usize = 0;
    while i < annotations.len()
        invariant
            i <= annotations@.len(),
            out@ == annotations_text(annotation_views(annotations@.take(i as int))),
        decreases annotations@.len() - i,
    {
        proof {
            assert(annotations@.take(i + 1) =~= annotations@.take(i as int).push(
                annotations@[i as int],
            ));
            lemma_annotation_views_push(annotations@.take(i as int), annotations@[i as int]);
            assert(annotation_views(annotations@.take(i + 1)).drop_last() =~= annotation_views(
                annotations@.take(i as int),
            ));
        }
        push_annotation(&mut out, &annotations[i]);
        i = i + 1;
    }
    assert(annotations@.take(annotations@.len() as int) =~= annotations@);
    chars_to_string(&out)
}

// ---------------------------------------------------------------------------
// Reading
// ---------------------------------------------------------------------------

/// `o`, or the empty string where it is `None`.
pub open spec fn or_empty(o: Option<Seq<char>>) -> Seq<char> {
    match o {
        Some(s) => s,
        None => Seq::empty(),
    }
}

/// The string value of the first entry of a node, or the empty string.
pub open spec fn first_string(n: KdlNodeModel) -> Seq<char> {
    if n.entries@.len() > 0 {
        match n.entries@[0].string {
            Some(s) => s@,
            None => Seq::empty(),
        }
    } else {
        Seq::empty()
    }
}

/// The string value of the child `name` of a node's block, or the empty string.
pub open spec fn block_string(n: KdlNodeModel, name: Seq<char>) -> Seq<char> {
    match n.children {
        Some(c) => or_empty(child_string(c@, name)),
        None => Seq::empty(),
    }
}

/// The empty selector.
pub open spec fn empty_selector() -> SelectorView {
    SelectorView { quote: Seq::empty(), prefix: Seq::empty(), suffix: Seq::empty() }
}

/// The selector that the `selector` child of an annotation block describes.
pub open spec fn selector_of(block: Seq<KdlNodeModel>) -> SelectorView {
    match doc_get(block, "selector"@) {
        Some(s) => match s.children {
            Some(sc) => SelectorView {
                quote: or_empty(child_string(sc@, "quote"@)),
                prefix: or_empty(child_string(sc@, "prefix"@)),
                suffix: or_empty(child_string(sc@, "suffix"@)),
            },
            None => empty_selector(),
        },
        None => empty_selector(),
    }
}

/// The comment that a `comment` node describes.
pub open spec fn comment_of(n: KdlNodeModel) -> CommentView {
    CommentView {
        id: or_empty(prop_string(n.entries@, "id"@)),
        author: or_empty(prop_string(n.entries@, "author"@)),
        created: or_empty(prop_string(n.entries@, "created"@)),
        body: block_string(n, "body"@),
    }
}

/// The comments that the `comment` nodes among `nodes` describe, in order.
pub open spec fn comments_of(nodes: Seq<KdlNodeModel>) -> Seq<CommentView>
    decreases nodes.len(),
{
    if nodes.len() == 0 {
        Seq::empty()
    } else {
        let rest = comments_of(nodes.drop_last());
        if nodes.last().name@ == "comment"@ {
            rest.push(comment_of(nodes.last()))
        } else {
            rest
        }
    }
}

/// The thread that the `thread` child of an annotation block describes.
pub open spec fn thread_of(block: Seq<KdlNodeModel>) -> Seq<CommentView> {
    match doc_get(block, "thread"@) {
        Some(t) => match t.children {
            Some(tc) => comments_of(tc@),
            None => Seq::empty(),
        },
        None => Seq::empty(),
    }
}

/// The annotation that an `ann` node with a block describes.
pub open spec fn ann_of(n: KdlNodeModel, block: Seq<KdlNodeModel>) -> AnnView {
    AnnView { id: first_string(n), selector: selector_of(block), thread: thread_of(block) }
}

/// The annotations that the `ann` nodes with a block among `nodes` describe,
/// in order; other nodes are skipped.
pub open spec fn anns_of(nodes: Seq<KdlNodeModel>) -> Seq<AnnView>
    decreases nodes.len(),
{
    if nodes.len() == 0 {
        Seq::empty()
    } else {
        let rest = anns_of(nodes.drop_last());
        let n = nodes.last();
        if n.name@ == "ann"@ {
            match n.children {
                Some(block) => rest.push(ann_of(n, block@)),
                None => rest,
            }
        } else {
            rest
        }
    }
}

/// The legacy annotation that an `annotation` node describes.
pub open spec fn annotation_of(n: KdlNodeModel) -> AnnotationView {
    AnnotationView {
        id: or_empty(prop_string(n.entries@, "id"@)),
        user: or_empty(prop_string(n.entries@, "user"@)),
        timestamp: match prop_integer(n.entries@, "timestamp"@) {
            Some(v) => v as i64,
            None => 0,
        },
        context_hash: block_string(n, "context_hash"@),
        target_text: block_string(n, "target_text"@),
        body: block_string(n, "body"@),
    }
}

/// The legacy annotations that the `annotation` nodes among `nodes`
/// describe, in order; other nodes are skipped.
pub open spec fn annotations_of(nodes: Seq<KdlNodeModel>) -> Seq<AnnotationView>
    decreases nodes.len(),
{
    if nodes.len() == 0 {
        Seq::empty()
    } else {
        let rest = annotations_of(nodes.drop_last());
        if nodes.last().name@ == "annotation"@ {
            rest.push(annotation_of(nodes.last()))
        } else {
            rest
        }
    }
}

fn string_or_empty(o: Option<String>) -> (r: String)
    ensures
        r@ == or_empty(crate::kdl_tree::opt_str(o)),
{
    match o {
        Some(s) => s,
        None => String::new(),
    }
}

fn read_first_string(n: &KdlNodeModel) -> (r: String)
    ensures
        r@ == first_string(*n),
{
    if n.entries.len() > 0 {
        match &n.entries[0].string {
            Some(s) => s.clone(),
            None => String::new(),
        }
    } else {
        String::new()
    }
}

fn read_block_string(n: &KdlNodeModel, name: &str) -> (r: String)
    ensures
        r@ == block_string(*n, name@),
{
    match &n.children {
        Some(c) => string_or_empty(get_child_string(c.as_slice(), name)),
        None => String::new(),
    }
}

fn read_selector(block: &[KdlNodeModel]) -> (r: Selector)
    ensures
        r@ == selector_of(block@),
{
    match doc_get_index(block, "selector") {
        Some(i) => match &block[i].children {
            Some(sc) => Selector {
                quote: string_or_empty(get_child_string(sc.as_slice(), "quote")),
                prefix: string_or_empty(get_child_string(sc.as_slice(), "prefix")),
                suffix: string_or_empty(get_child_string(sc.as_slice(), "suffix")),
            },
            None => Selector { quote: String::new(), prefix: String::new(), suffix: String::new() },
        },
        None => Selector { quote: String::new(), prefix: String::new(), suffix: String::new() },
    }
}

fn read_comment(n: &KdlNodeModel) -> (r: Comment)
    ensures
        r@ == comment_of(*n),
{
    Comment {
        id: string_or_empty(get_prop_string(n.entries.as_slice(), "id")),
        author: string_or_empty(get_prop_string(n.entries.as_slice(), "author")),
        created: string_or_empty(get_prop_string(n.entries.as_slice(), "created")),
        body: read_block_string(n, "body"),
    }
}

fn read_comments(nodes: &[KdlNodeModel]) -> (r: Vec<Comment>)
    ensures
        thread_views(r@) == comments_of(nodes@),
{
    let mut out: Vec<Comment> = Vec::new();
    let mut i: usize = 0;
    while i < nodes.len()
        invariant
            i <= nodes@.len(),
            thread_views(out@) == comments_of(nodes@.take(i as int)),
        decreases nodes@.len() - i,
    {
        assert(nodes@.take(i + 1).drop_last() =~= nodes@.take(i as int));
        if str_eq(nodes[i].name.as_str(), "comment") {
            let c = read_comment(&nodes[i]);
            proof {
                lemma_thread_views_push(out@, c);
            }
            out.push(c);
        }
        i = i + 1;
    }
    assert(nodes@.take(nodes@.len() as int) =~= nodes@);
    out
}

fn read_thread(block: &[KdlNodeModel]) -> (r: Vec<Comment>)
    ensures
        thread_views(r@) == thread_of(block@),
{
    match doc_get_index(block, "thread") {
        Some(i) => match &block[i].children {
            Some(tc) => read_comments(tc.as_slice()),
            None => {
                let v: Vec<Comment> = Vec::new();
                assert(thread_views(v@) =~= Seq::<CommentView>::empty());
                v
            },
        },
        None => {
            let v: Vec<Comment> = Vec::new();
            assert(thread_views(v@) =~= Seq::<CommentView>::empty());
            v
        },
    }
}

/// The annotations that the `ann` nodes of a parsed `.ann.kdl` document
/// describe: the first argument is the id, the `selector` block gives the
/// quote, prefix and suffix, the `thread` block the comments. An `ann` node
/// without a block is skipped; a missing value reads as the empty string.
pub fn anns_from_nodes(nodes: &[KdlNodeModel]) -> (r: Vec<Ann>)
    ensures
        ann_views(r@) == anns_of(nodes@),
{
    let mut out: Vec<Ann> = Vec::new();
    let mut i: usize = 0;
    while i < nodes.len()
        invariant
            i <= nodes@.len(),
            ann_views(out@) == anns_of(nodes@.take(i as int)),
        decreases nodes@.len() - i,
    {
        assert(nodes@.take(i + 1).drop_last() =~= nodes@.take(i as int));
        let n = &nodes[i];
        if str_eq(n.name.as_str(), "ann") {
            match &n.children {
                Some(block) => {
                    let a = Ann {
                        id: read_first_string(n),
                        selector: read_selector(block.as_slice()),
                        thread: read_thread(block.as_slice()),
                    };
                    proof {
                        lemma_ann_views_push(out@, a);
                    }
                    out.push(a);
                },
                None => {},
            }
        }
        i = i + 1;
    }
    assert(nodes@.take(nodes@.len() as int) =~= nodes@);
    out
}

/// The legacy annotations that the `annotation` nodes of a parsed document
/// describe: `id`, `user` and `timestamp` properties, and `context_hash`,
/// `target_text` and `body` children. A missing string reads as empty, a
/// missing timestamp as 0; an integer timestamp is truncated to 64 bits.
pub fn annotations_from_nodes(nodes: &[KdlNodeModel]) -> (r: Vec<Annotation>)
    ensures
        annotation_views(r@) == annotations_of(nodes@),
{
    let mut out: Vec<Annotation> = Vec::new();
    let mut i: usize = 0;
    while i < nodes.len()
        invariant
            i <= nodes@.len(),
            annotation_views(out@) == annotations_of(nodes@.take(i as int)),
        decreases nodes@.len() - i,
    {
        assert(nodes@.take(i + 1).drop_last() =~= nodes@.take(i as int));
        let n = &nodes[i];
        if str_eq(n.name.as_str(), "annotation") {
            let timestamp: i64 = match get_prop_integer(n.entries.as_slice(), "timestamp") {
                Some(v) => v as i64,
                None => 0,
            };
            let a = Annotation {
                id: string_or_empty(get_prop_string(n.entries.as_slice(), "id")),
                user: string_or_empty(get_prop_string(n.entries.as_slice(), "user")),
                timestamp,
                context_hash: read_block_string(n, "context_hash"),
                target_text: read_block_string(n, "target_text"),
                body: read_block_string(n, "body"),
            };
            proof {
                lemma_annotation_views_push(out@, a);
            }
            out.push(a);
        }
        i = i + 1;
    }
    assert(nodes@.take(nodes@.len() as int) =~= nodes@);
    out
}

/// Parse the text of a `.ann.kdl` file. Text that `serialize_anns` wrote,
/// for annotations whose strings hold no line break and no code point that
/// KDL refuses, reads back as those annotations.
pub fn parse_anns(input: &str) -> (r: Result<Vec<Ann>, StoreError>)
    ensures
        match r {
            Ok(anns) => kdl_parse_model(input@) matches Some(nodes) && ann_views(anns@) == anns_of(
                nodes,
            ),
            Err(e) => kdl_parse_model(input@) is None && e is Kdl,
        },
        forall|s: Seq<AnnView>|
            #[trigger] anns_text(s) == input@ && anns_kdl_safe(s) ==> (r matches Ok(anns) && ann_views(
                anns@,
            ) == s),
{
    match parse_kdl(input) {
        Ok(nodes) => {
            let anns = anns_from_nodes(nodes.as_slice());
            assert forall|s: Seq<AnnView>|
                #[trigger] anns_text(s) == input@ && anns_kdl_safe(s) implies ann_views(anns@)
                    == s by {
                law_ann_nodes_read_back(nodes@, s);
            }
            Ok(anns)
        },
        Err(e) => Err(StoreError::Kdl(e)),
    }
}

/// Parse the text of a legacy annotation file. Text that
/// `serialize_annotations` wrote, for annotations whose strings hold no line
/// break and no code point that KDL refuses, reads back as those annotations.
pub fn parse_annotations(input: &str) -> (r: Result<Vec<Annotation>, StoreError>)
    ensures
        match r {
            Ok(anns) => kdl_parse_model(input@) matches Some(nodes) && annotation_views(anns@)
                == annotations_of(nodes),
            Err(e) => kdl_parse_model(input@) is None && e is Kdl,
        },
        forall|s: Seq<AnnotationView>|
            #[trigger] annotations_text(s) == input@ && annotations_kdl_safe(s) ==> (r matches Ok(anns)
                && annotation_views(anns@) == s),
{
    match parse_kdl(input) {
        Ok(nodes) => {
            let anns = annotations_from_nodes(nodes.as_slice());
            assert forall|s: Seq<AnnotationView>|
                #[trigger] annotations_text(s) == input@ && annotations_kdl_safe(s) implies annotation_views(
                    anns@,
                ) == s by {
                law_annotation_nodes_read_back(nodes@, s);
            }
            Ok(anns)
        },
        Err(e) => Err(StoreError::Kdl(e)),
    }
}

// ---------------------------------------------------------------------------
// Upsert
// ---------------------------------------------------------------------------

/// The index of the first annotation of `s` from `i` on whose id is `id`.
pub open spec fn find_id_from(s: Seq<AnnotationView>, id: Seq<char>, i: int) -> Option<int>
    decreases s.len() - i,
{
    if i < 0 || i >= s.len() {
        None
    } else if s[i].id == id {
        Some(i)
    } else {
        find_id_from(s, id, i + 1)
    }
}

/// `s` with `a` in place of the first annotation that has its id, or with
/// `a` appended where none has.
pub open spec fn upsert(s: Seq<AnnotationView>, a: AnnotationView) -> Seq<AnnotationView> {
    match find_id_from(s, a.id, 0) {
        Some(i) => s.update(i, a),
        None => s.push(a),
    }
}

proof fn lemma_find_id_from(s: Seq<AnnotationView>, id: Seq<char>, i: int)
    requires
        0 <= i,
    ensures
        match find_id_from(s, id, i) {
            Some(k) => i <= k < s.len() && s[k].id == id && forall|j: int|
                i <= j < k ==> s[j].id != id,
            None => forall|j: int| i <= j < s.len() ==> s[j].id != id,
        },
    decreases s.len() - i,
{
    if i < s.len() && s[i].id != id {
        lemma_find_id_from(s, id, i + 1);
    }
}

/// Replace the annotation of `anns` that has the id of `ann` by `ann`, or
/// append `ann` where none has that id.
pub fn upsert_annotation(anns: &mut Vec<Annotation>, ann: Annotation)
    ensures
        annotation_views(final(anns)@) == upsert(annotation_views(old(anns)@), ann@),
{
    let ghost before = annotation_views(anns@);
    let mut i: usize = 0;
    while i < anns.len()
        invariant
            i <= anns@.len(),
            anns@ == old(anns)@,
            before == annotation_views(anns@),
            find_id_from(before, ann@.id, 0) == find_id_from(before, ann@.id, i as int),
        decreases anns@.len() - i,
    {
        if anns[i].id == ann.id {
            let ghost a = ann@;
            anns.set(i, ann);
            assert(annotation_views(anns@) =~= before.update(i as int, a));
            return;
        }
        i = i + 1;
    }
    let ghost a = ann@;
    anns.push(ann);
    assert(annotation_views(anns@) =~= before.push(a));
}

/// The new text of a legacy annotation file after `ann` is upserted into it:
/// `existing` is the file's text, `None` where there is no file yet.
pub fn append_annotation(existing: Option<&str>, ann: Annotation) -> (r: Result<String, StoreError>)
    ensures
        match existing {
            None => r matches Ok(text) && text@ == annotations_text(seq![ann@]),
            Some(input) => match kdl_parse_model(input@) {
                Some(nodes) => r matches Ok(text) && text@ == annotations_text(
                    upsert(annotations_of(nodes), ann@),
                ),
                None => r matches Err(e) && e is Kdl,
            },
        },
{
    let mut anns: Vec<Annotation> = match existing {
        Some(input) => match parse_annotations(input) {
            Ok(a) => a,
            Err(e) => return Err(e),
        },
        None => {
            let v: Vec<Annotation> = Vec::new();
            assert(annotation_views(v@) =~= Seq::<AnnotationView>::empty());
            v
        },
    };
    let ghost a = ann@;
    upsert_annotation(&mut anns, ann);
    proof {
        if existing is None {
            assert(Seq::<AnnotationView>::empty().push(a) =~= seq![a]);
        }
    }
    Ok(serialize_annotations(anns.as_slice()))
}

/// Upserting is what a write then a read promise: afterwards the first
/// annotation with `a`'s id is `a` itself, and upserting `a` again changes
/// nothing.
pub proof fn law_upsert_reads_back(s: Seq<AnnotationView>, a: AnnotationView)
    ensures
        find_id_from(upsert(s, a), a.id, 0) matches Some(k) && upsert(s, a)[k] == a,
        upsert(upsert(s, a), a) == upsert(s, a),
{
    lemma_find_id_from(s, a.id, 0);
    let s1 = upsert(s, a);
    let k = match find_id_from(s, a.id, 0) {
        Some(i) => i,
        None => s.len() as int,
    };
    assert(s1[k] == a);
    assert forall|j: int| 0 <= j < k implies s1[j].id != a.id by {
        assert(s1[j] == s[j]);
    }
    lemma_find_id_from(s1, a.id, 0);
    match find_id_from(s1, a.id, 0) {
        Some(m) => {
            if m > k {
                assert(s1[k].id == a.id);
            }
        },
        None => {
            assert(s1[k].id == a.id);
        },
    }
    assert(find_id_from(s1, a.id, 0) == Some(k));
    assert(s1.update(k, a) =~= s1);
}

} // verus!
