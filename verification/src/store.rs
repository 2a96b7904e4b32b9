//! The Markdown comment store: annotations kept in a `## Comments` section at
//! the end of a Markdown file, and the `[comments](#handle)` anchors that tie
//! code-block annotations to their fenced block.

use vstd::prelude::*;
use crate::annotations::{Comment, CommentView, comment_views, lemma_comment_views_push};
use crate::text::{
    str_chars, chars_to_string, slice_range, push_str, find_vec, find, lemma_find_from_bounds, views,
    lines, lines_vec, trim, trim_vec, trim_char, trim_char_vec, trim_range, starts_with, has_prefix,
    find_char_from, find_char_vec_from, lemma_find_char_from_bounds, chars_eq, trim_end, push_all,
    skip_ws_back, trim_newlines_end, trim_start, skip_ws, push_range, lex_le, lex_le_exec, occurs_at,
};

verus! {

/// A single annotation: id, quote, thread, and optional code block metadata.
#[derive(Debug)]
pub struct Annotation {
    pub id: String,
    pub quote: String,
    pub thread: Vec<Comment>,
    /// For code block annotations: "startLine:startChar->endLine:endChar" (0-indexed codepoints).
    pub code_range: Option<String>,
    /// For code block annotations: the handle used in `[comments](#handle)` anchor.
    pub codeblock_handle: Option<String>,
}

/// The mathematical content of an [`Annotation`].
pub struct AnnotationView {
    pub id: Seq<char>,
    pub quote: Seq<char>,
    pub thread: Seq<CommentView>,
    pub code_range: Option<Seq<char>>,
    pub codeblock_handle: Option<Seq<char>>,
}

pub open spec fn opt_view(o: Option<String>) -> Option<Seq<char>> {
    match o {
        Some(s) => Some(s@),
        None => None,
    }
}

impl View for Annotation {
    type V = AnnotationView;

    open spec fn view(&self) -> AnnotationView {
        AnnotationView {
            id: self.id@,
            quote: self.quote@,
            thread: comment_views(self.thread@),
            code_range: opt_view(self.code_range),
            codeblock_handle: opt_view(self.codeblock_handle),
        }
    }
}

/// The views of a sequence of annotations.
pub open spec fn ann_views(v: Seq<Annotation>) -> Seq<AnnotationView> {
    v.map_values(|a: Annotation| a@)
}

pub proof fn lemma_ann_views_push(v: Seq<Annotation>, a: Annotation)
    ensures
        ann_views(v.push(a)) == ann_views(v).push(a@),
{
    assert(ann_views(v.push(a)) =~= ann_views(v).push(a@));
}

impl Annotation {
    pub fn regular(id: String, quote: String, thread: Vec<Comment>) -> (r: Self)
        ensures
            r.id == id,
            r.quote == quote,
            r.thread == thread,
            r.code_range is None,
            r.codeblock_handle is None,
    {
        Annotation { id, quote, thread, code_range: None, codeblock_handle: None }
    }

    pub fn code(
        id: String,
        quote: String,
        thread: Vec<Comment>,
        code_range: String,
        codeblock_handle: String,
    ) -> (r: Self)
        ensures
            r.id == id,
            r.quote == quote,
            r.thread == thread,
            r.code_range == Some(code_range),
            r.codeblock_handle == Some(codeblock_handle),
    {
        Annotation {
            id,
            quote,
            thread,
            code_range: Some(code_range),
            codeblock_handle: Some(codeblock_handle),
        }
    }

    pub fn is_code(&self) -> (b: bool)
        ensures
            b == self.codeblock_handle is Some,
    {
        self.codeblock_handle.is_some()
    }
}

// ---------------------------------------------------------------------------
// Deterministic ids of code block annotations
// ---------------------------------------------------------------------------

/// Whether `char::is_alphanumeric` holds of `c` (the Unicode `Alphabetic` or
/// `Numeric` property).
pub uninterp spec fn char_is_alphanumeric(c: char) -> bool;

/// `char::is_alphanumeric`. Its contract names the result, and says of
/// ASCII what the Unicode properties give there: the letters `a`-`z`, `A`-`Z`
/// and the digits `0`-`9` are alphanumeric, no other ASCII character is.
/// What it returns beyond ASCII is left to the name.
#[verifier::external_body]
fn is_alphanumeric(c: char) -> (b: bool)
    ensures
        b == char_is_alphanumeric(c),
        c < '\u{80}' ==> (b <==> (('a' <= c && c <= 'z') || ('A' <= c && c <= 'Z') || ('0' <= c
            && c <= '9'))),
{
    c.is_alphanumeric()
}

/// Whether `c` is alphanumeric: among ASCII characters the letters and the
/// digits; beyond ASCII, what `char::is_alphanumeric` says.
pub open spec fn id_char_kept(c: char) -> bool {
    ||| ('a' <= c && c <= 'z') || ('A' <= c && c <= 'Z') || ('0' <= c && c <= '9')
    ||| c >= '\u{80}' && char_is_alphanumeric(c)
}

/// `s` with every character that is not alphanumeric replaced by `'_'`.
pub open spec fn sanitize_id(s: Seq<char>) -> Seq<char> {
    s.map_values(|c: char| if id_char_kept(c) { c } else { '_' })
}

/// The id `c_<handle>_<range>` of a code block annotation, non-alphanumeric
/// characters replaced by `'_'`.
pub open spec fn spec_code_ann_id(handle: Seq<char>, range: Seq<char>) -> Seq<char> {
    "c_"@ + sanitize_id(handle) + "_"@ + sanitize_id(range)
}

fn push_sanitized(out: &mut Vec<char>, s: &[char])
    ensures
        final(out)@ == old(out)@ + sanitize_id(s@),
{
    let mut i: usize = 0;
    while i < s.len()
        invariant
            i <= s@.len(),
            out@ == old(out)@ + sanitize_id(s@.take(i as int)),
        decreases s@.len() - i,
    {
        let c = s[i];
        let d = if is_alphanumeric(c) {
            c
        } else {
            '_'
        };
        out.push(d);
        assert(sanitize_id(s@.take(i + 1)) =~= sanitize_id(s@.take(i as int)).push(d));
        i = i + 1;
    }
    assert(s@.take(s@.len() as int) =~= s@);
}

fn code_ann_id_chars(handle: &[char], range: &[char]) -> (r: Vec<char>)
    ensures
        r@ == spec_code_ann_id(handle@, range@),
{
    let mut out: Vec<char> = Vec::new();
    push_str(&mut out, "c_");
    push_sanitized(&mut out, handle);
    push_str(&mut out, "_");
    push_sanitized(&mut out, range);
    assert(out@ =~= spec_code_ann_id(handle@, range@));
    out
}

/// Deterministic ID for a code block annotation based on its (handle, range)
/// pair, so that the same code annotation read from the file twice gets the
/// same id.
pub fn code_ann_id(codeblock_handle: &str, code_range: &str) -> (r: String)
    ensures
        r@ == spec_code_ann_id(codeblock_handle@, code_range@),
{
    let h = str_chars(codeblock_handle);
    let g = str_chars(code_range);
    let v = code_ann_id_chars(&h, &g);
    chars_to_string(&v)
}

// ---------------------------------------------------------------------------
// The comments section
// ---------------------------------------------------------------------------

/// The texts that open a comments section, with any `---` separator before it.
pub open spec fn section_patterns() -> Seq<Seq<char>> {
    seq![
        "\n---\n\n## Comments"@,
        "\n---\n## Comments"@,
        "\n---\n\n# Comments"@,
        "\n---\n# Comments"@,
        "\n# Comments"@,
        "\n## Comments"@,
    ]
}

/// The earliest index at which one of `pats` occurs in `s`, or `s.len()`.
pub open spec fn earliest_occurrence(s: Seq<char>, pats: Seq<Seq<char>>) -> int
    decreases pats.len(),
{
    if pats.len() == 0 {
        s.len() as int
    } else {
        let rest = earliest_occurrence(s, pats.drop_last());
        match find(s, pats.last()) {
            Some(k) => if k < rest {
                k
            } else {
                rest
            },
            None => rest,
        }
    }
}

/// `content` up to where its comments section begins, including any preceding
/// `---` separator.
pub open spec fn spec_strip_comments_section(content: Seq<char>) -> Seq<char> {
    content.take(earliest_occurrence(content, section_patterns()))
}

proof fn lemma_earliest_bounds(s: Seq<char>, pats: Seq<Seq<char>>)
    ensures
        0 <= earliest_occurrence(s, pats) <= s.len(),
    decreases pats.len(),
{
    if pats.len() > 0 {
        lemma_earliest_bounds(s, pats.drop_last());
        lemma_find_from_bounds(s, pats.last(), 0);
    }
}

/// The index where the comments section of `content` begins, or its length.
pub(crate) fn comments_section_start(content: &[char]) -> (r: usize)
    ensures
        r == earliest_occurrence(content@, section_patterns()),
        r <= content@.len(),
{
    let pats: Vec<Vec<char>> = vec![
        str_chars("\n---\n\n## Comments"),
        str_chars("\n---\n## Comments"),
        str_chars("\n---\n\n# Comments"),
        str_chars("\n---\n# Comments"),
        str_chars("\n# Comments"),
        str_chars("\n## Comments"),
    ];
    assert(views(pats@) =~= section_patterns());
    let mut earliest = content.len();
    let mut i: usize = 0;
    assert(views(pats@).take(0) =~= Seq::<Seq<char>>::empty());
    while i < pats.len()
        invariant
            pats@.len() == 6,
            views(pats@) == section_patterns(),
            i <= pats@.len(),
            earliest == earliest_occurrence(content@, views(pats@).take(i as int)),
        decreases pats@.len() - i,
    {
        proof {
            let t = views(pats@).take(i + 1);
            assert(t.drop_last() =~= views(pats@).take(i as int));
            assert(t.last() == pats@[i as int]@);
            lemma_earliest_bounds(content@, views(pats@).take(i as int));
        }
        match find_vec(content, &pats[i]) {
            Some(pos) => {
                if pos < earliest {
                    earliest = pos;
                }
            },
            None => {},
        }
        i = i + 1;
    }
    assert(views(pats@).take(6) =~= views(pats@));
    proof {
        lemma_earliest_bounds(content@, section_patterns());
    }
    earliest
}

/// Find the earliest position in `content` where the comments section begins,
/// including any preceding "---" separator, and return what stands before it.
pub fn strip_comments_section(content: &str) -> (r: String)
    ensures
        r@ == spec_strip_comments_section(content@),
{
    let c = str_chars(content);
    let k = comments_section_start(&c);
    let v = slice_range(&c, 0, k);
    assert(v@ =~= spec_strip_comments_section(content@));
    chars_to_string(&v)
}


// ---------------------------------------------------------------------------
// Parsing the comments section
// ---------------------------------------------------------------------------

/// A comment line `- TIMESTAMP author: body`, as its parts.
pub open spec fn spec_parse_comment_line(line: Seq<char>) -> Option<CommentView> {
    if !starts_with(line, "- "@) {
        None
    } else {
        let content = line.skip("- "@.len() as int);
        match find_char_from(content, ' ', 0) {
            None => None,
            Some(sp) => {
                let remaining = content.skip(sp + 1);
                match find_char_from(remaining, ':', 0) {
                    None => None,
                    Some(colon) => Some(
                        CommentView {
                            author: remaining.take(colon),
                            timestamp: content.take(sp),
                            body: trim(remaining.skip(colon + 1)),
                        },
                    ),
                }
            },
        }
    }
}

/// The state of the line-by-line reading of a comments section.
pub struct ParseState {
    pub anns: Seq<AnnotationView>,
    pub in_section: bool,
    pub section_id: Option<Seq<char>>,
    pub is_code: bool,
    pub item_range: Option<Seq<char>>,
    pub quote: Seq<char>,
    pub comments: Seq<CommentView>,
}

pub open spec fn initial_parse_state() -> ParseState {
    ParseState {
        anns: Seq::empty(),
        in_section: false,
        section_id: None,
        is_code: false,
        item_range: None,
        quote: Seq::empty(),
        comments: Seq::empty(),
    }
}

/// `anns` with the item under construction appended, when there is one: a
/// regular annotation for a plain `###` section, a code annotation for a
/// `####` range of a code section.
pub open spec fn flush_anns(
    anns: Seq<AnnotationView>,
    section_id: Option<Seq<char>>,
    is_code: bool,
    item_range: Option<Seq<char>>,
    quote: Seq<char>,
    comments: Seq<CommentView>,
) -> Seq<AnnotationView> {
    match section_id {
        None => anns,
        Some(sid) => if is_code {
            match item_range {
                Some(range) => anns.push(
                    AnnotationView {
                        id: spec_code_ann_id(sid, range),
                        quote,
                        thread: comments,
                        code_range: Some(range),
                        codeblock_handle: Some(sid),
                    },
                ),
                None => anns,
            }
        } else {
            anns.push(
                AnnotationView {
                    id: sid,
                    quote,
                    thread: comments,
                    code_range: None,
                    codeblock_handle: None,
                },
            )
        },
    }
}

pub open spec fn flush_state(st: ParseState) -> Seq<AnnotationView> {
    flush_anns(st.anns, st.section_id, st.is_code, st.item_range, st.quote, st.comments)
}

/// Begin a new `###` (or old-format `##`) section named `id`.
pub open spec fn start_section(st: ParseState, id: Seq<char>) -> ParseState {
    ParseState {
        anns: flush_state(st),
        in_section: st.in_section,
        section_id: Some(id),
        is_code: false,
        item_range: None,
        quote: Seq::empty(),
        comments: Seq::empty(),
    }
}

/// Begin a `####` code range subsection named `range`.
pub open spec fn start_code_item(st: ParseState, range: Seq<char>) -> ParseState {
    let flushed = st.is_code && st.item_range is Some;
    ParseState {
        anns: if flushed {
            flush_anns(st.anns, st.section_id, true, st.item_range, st.quote, st.comments)
        } else {
            st.anns
        },
        in_section: st.in_section,
        section_id: st.section_id,
        is_code: true,
        item_range: Some(range),
        quote: if flushed {
            Seq::empty()
        } else {
            st.quote
        },
        comments: if flushed {
            Seq::empty()
        } else {
            st.comments
        },
    }
}

/// The effect of one line of the file.
pub open spec fn parse_step(st: ParseState, line: Seq<char>) -> ParseState {
    let t = trim(line);
    if t == "# Comments"@ || t == "## Comments"@ {
        ParseState { in_section: true, ..st }
    } else if !st.in_section {
        st
    } else if starts_with(t, "### "@) {
        start_section(st, t.skip("### "@.len() as int))
    } else if starts_with(t, "## "@) {
        start_section(st, t.skip("## "@.len() as int))
    } else if starts_with(t, "#### "@) {
        start_code_item(st, t.skip("#### "@.len() as int))
    } else if starts_with(t, "> "@) && st.section_id is Some {
        ParseState { quote: trim_char(trim(t.skip("> "@.len() as int)), '`'), ..st }
    } else if starts_with(t, "- "@) {
        match spec_parse_comment_line(t) {
            Some(c) => ParseState { comments: st.comments.push(c), ..st },
            None => st,
        }
    } else {
        st
    }
}

/// The state after reading `ls` in order.
pub open spec fn parse_lines(ls: Seq<Seq<char>>) -> ParseState
    decreases ls.len(),
{
    if ls.len() == 0 {
        initial_parse_state()
    } else {
        parse_step(parse_lines(ls.drop_last()), ls.last())
    }
}

/// The annotations that the comments section of `content` holds.
pub open spec fn spec_parse_markdown_comments(content: Seq<char>) -> Seq<AnnotationView> {
    flush_state(parse_lines(lines(content)))
}

/// Parse a comment line `- TIMESTAMP author: body`.
fn parse_comment_line(line: &[char]) -> (r: Option<Comment>)
    ensures
        match spec_parse_comment_line(line@) {
            Some(c) => r matches Some(x) && x@ == c,
            None => r is None,
        },
{
    let dash = str_chars("- ");
    if !has_prefix(line, &dash) {
        return None;
    }
    let content = slice_range(line, dash.len(), line.len());
    assert(content@ =~= line@.skip(dash@.len() as int));
    let sp = match find_char_vec_from(&content, ' ', 0) {
        Some(k) => k,
        None => return None,
    };
    proof {
        lemma_find_char_from_bounds(content@, ' ', 0);
    }
    let timestamp = slice_range(&content, 0, sp);
    let remaining = slice_range(&content, sp + 1, content.len());
    assert(remaining@ =~= content@.skip(sp + 1));
    let colon = match find_char_vec_from(&remaining, ':', 0) {
        Some(k) => k,
        None => return None,
    };
    proof {
        lemma_find_char_from_bounds(remaining@, ':', 0);
    }
    let author = slice_range(&remaining, 0, colon);
    let body = trim_range(&remaining, colon + 1, remaining.len());
    assert(timestamp@ =~= content@.take(sp as int));
    assert(author@ =~= remaining@.take(colon as int));
    assert(remaining@.subrange(colon + 1, remaining@.len() as int) =~= remaining@.skip(colon + 1));
    Some(
        Comment {
            author: chars_to_string(&author),
            timestamp: chars_to_string(&timestamp),
            body: chars_to_string(&body),
        },
    )
}

/// Append the item under construction to `anns`, as `flush_anns` says.
fn flush_annotation(
    anns: &mut Vec<Annotation>,
    section_id: &Option<Vec<char>>,
    section_is_code: bool,
    item_range: Option<Vec<char>>,
    quote: Vec<char>,
    comments: Vec<Comment>,
)
    ensures
        ann_views(final(anns)@) == flush_anns(
            ann_views(old(anns)@),
            match *section_id {
                Some(v) => Some(v@),
                None => None,
            },
            section_is_code,
            match item_range {
                Some(v) => Some(v@),
                None => None,
            },
            quote@,
            comment_views(comments@),
        ),
{
    let sid = match section_id {
        Some(v) => v,
        None => return,
    };
    if section_is_code {
        if let Some(range) = item_range {
            let id = code_ann_id_chars(sid, &range);
            let a = Annotation::code(
                chars_to_string(&id),
                chars_to_string(&quote),
                comments,
                chars_to_string(&range),
                chars_to_string(sid),
            );
            proof {
                lemma_ann_views_push(anns@, a);
            }
            anns.push(a);
        }
    } else {
        let a = Annotation::regular(chars_to_string(sid), chars_to_string(&quote), comments);
        proof {
            lemma_ann_views_push(anns@, a);
        }
        anns.push(a);
    }
}

pub open spec fn opt_chars(o: Option<Vec<char>>) -> Option<Seq<char>> {
    match o {
        Some(v) => Some(v@),
        None => None,
    }
}

/// Parse the `# Comments` / `## Comments` section of the Markdown text `content`.
///
/// Supports both regular annotations (`### ann_id` with direct quote/comments)
/// and code block annotations (`### codeblock_handle` with `#### range` subsections).
pub fn parse_markdown_comments(content: &str) -> (r: Vec<Annotation>)
    ensures
        ann_views(r@) == spec_parse_markdown_comments(content@),
{
    let text = str_chars(content);
    let all_lines = lines_vec(&text);
    let h1 = str_chars("# Comments");
    let h2 = str_chars("## Comments");
    let p3 = str_chars("### ");
    let p2 = str_chars("## ");
    let p4 = str_chars("#### ");
    let pq = str_chars("> ");
    let pd = str_chars("- ");

    let mut annotations: Vec<Annotation> = Vec::new();
    let mut in_comments_section = false;
    let mut current_section_id: Option<Vec<char>> = None;
    let mut current_section_is_code = false;
    let mut current_item_range: Option<Vec<char>> = None;
    let mut current_quote: Vec<char> = Vec::new();
    let mut current_comments: Vec<Comment> = Vec::new();

    let mut i: usize = 0;
    assert(views(all_lines@).take(0) =~= Seq::<Seq<char>>::empty());
    assert(ann_views(annotations@) =~= Seq::<AnnotationView>::empty());
    assert(comment_views(current_comments@) =~= Seq::<CommentView>::empty());
    while i < all_lines.len()
        invariant
            views(all_lines@) == lines(text@),
            text@ == content@,
            h1@ == "# Comments"@,
            h2@ == "## Comments"@,
            p3@ == "### "@,
            p2@ == "## "@,
            p4@ == "#### "@,
            pq@ == "> "@,
            pd@ == "- "@,
            i <= all_lines@.len(),
            ({
                let st = parse_lines(views(all_lines@).take(i as int));
                &&& ann_views(annotations@) == st.anns
                &&& in_comments_section == st.in_section
                &&& opt_chars(current_section_id) == st.section_id
                &&& current_section_is_code == st.is_code
                &&& opt_chars(current_item_range) == st.item_range
                &&& current_quote@ == st.quote
                &&& comment_views(current_comments@) == st.comments
            }),
        decreases all_lines@.len() - i,
    {
        let ghost ls = views(all_lines@).take(i + 1);
        assert(ls.drop_last() =~= views(all_lines@).take(i as int));
        assert(ls.last() == all_lines@[i as int]@);
        let trimmed = trim_vec(&all_lines[i]);
        if chars_eq(&trimmed, &h1) || chars_eq(&trimmed, &h2) {
            in_comments_section = true;
        } else if !in_comments_section {
        } else if has_prefix(&trimmed, &p3) {
            let id = slice_range(&trimmed, p3.len(), trimmed.len());
            assert(id@ =~= trimmed@.skip(p3@.len() as int));
            let q = current_quote;
            let cs = current_comments;
            let rg = current_item_range;
            flush_annotation(&mut annotations, &current_section_id, current_section_is_code, rg, q, cs);
            current_item_range = None;
            current_quote = Vec::new();
            current_comments = Vec::new();
            assert(comment_views(current_comments@) =~= Seq::<CommentView>::empty());
            current_section_id = Some(id);
            current_section_is_code = false;
        } else if has_prefix(&trimmed, &p2) {
            let id = slice_range(&trimmed, p2.len(), trimmed.len());
            assert(id@ =~= trimmed@.skip(p2@.len() as int));
            let q = current_quote;
            let cs = current_comments;
            let rg = current_item_range;
            flush_annotation(&mut annotations, &current_section_id, current_section_is_code, rg, q, cs);
            current_item_range = None;
            current_quote = Vec::new();
            current_comments = Vec::new();
            assert(comment_views(current_comments@) =~= Seq::<CommentView>::empty());
            current_section_id = Some(id);
            current_section_is_code = false;
        } else if has_prefix(&trimmed, &p4) {
            if current_section_is_code && current_item_range.is_some() {
                let q = current_quote;
                let cs = current_comments;
                let rg = current_item_range;
                flush_annotation(&mut annotations, &current_section_id, true, rg, q, cs);
                current_quote = Vec::new();
                current_comments = Vec::new();
                assert(comment_views(current_comments@) =~= Seq::<CommentView>::empty());
            }
            let range = slice_range(&trimmed, p4.len(), trimmed.len());
            assert(range@ =~= trimmed@.skip(p4@.len() as int));
            current_section_is_code = true;
            current_item_range = Some(range);
        } else if has_prefix(&trimmed, &pq) && current_section_id.is_some() {
            let raw = trim_range(&trimmed, pq.len(), trimmed.len());
            assert(trimmed@.subrange(pq@.len() as int, trimmed@.len() as int) =~= trimmed@.skip(
                pq@.len() as int,
            ));
            current_quote = trim_char_vec(&raw, '`');
        } else if has_prefix(&trimmed, &pd) {
            if let Some(comment) = parse_comment_line(&trimmed) {
                proof {
                    lemma_comment_views_push(current_comments@, comment);
                }
                current_comments.push(comment);
            }
        }
        i = i + 1;
    }
    assert(views(all_lines@).take(all_lines@.len() as int) =~= views(all_lines@));
    flush_annotation(
        &mut annotations,
        &current_section_id,
        current_section_is_code,
        current_item_range,
        current_quote,
        current_comments,
    );
    annotations
}


// ---------------------------------------------------------------------------
// Writing the comments section
// ---------------------------------------------------------------------------

/// The order of `Option<String>`: `None` first, then the strings in order.
pub open spec fn opt_le(a: Option<Seq<char>>, b: Option<Seq<char>>) -> bool {
    match (a, b) {
        (None, _) => true,
        (Some(_), None) => false,
        (Some(x), Some(y)) => lex_le(x, y),
    }
}

/// The first index from `j` on of an annotation of `t` whose code range comes
/// after that of `a`, or `t.len()`.
pub open spec fn insert_pos_from(t: Seq<AnnotationView>, a: AnnotationView, j: int) -> int
    decreases t.len() - j,
{
    if j < 0 || j >= t.len() {
        t.len() as int
    } else if opt_le(t[j].code_range, a.code_range) {
        insert_pos_from(t, a, j + 1)
    } else {
        j
    }
}

/// `s` stably sorted by code range (`slice::sort_by` on `code_range`): each
/// annotation, taken in order, goes after every earlier one whose range does not
/// come after its own.
pub open spec fn sort_by_range(s: Seq<AnnotationView>) -> Seq<AnnotationView>
    decreases s.len(),
{
    if s.len() == 0 {
        Seq::empty()
    } else {
        let t = sort_by_range(s.drop_last());
        t.insert(insert_pos_from(t, s.last(), 0), s.last())
    }
}

/// The index of the group keyed `h`, if any.
pub open spec fn group_index(groups: Seq<(Seq<char>, Seq<AnnotationView>)>, h: Seq<char>) -> Option<int>
    decreases groups.len(),
{
    if groups.len() == 0 {
        None
    } else {
        match group_index(groups.drop_last(), h) {
            Some(i) => Some(i),
            None => if groups.last().0 == h {
                Some(groups.len() - 1)
            } else {
                None
            },
        }
    }
}

/// The code annotations of `anns` grouped by handle, groups in the order of
/// their first member, members in their order in `anns`.
pub open spec fn code_groups(anns: Seq<AnnotationView>) -> Seq<(Seq<char>, Seq<AnnotationView>)>
    decreases anns.len(),
{
    if anns.len() == 0 {
        Seq::empty()
    } else {
        let g = code_groups(anns.drop_last());
        let a = anns.last();
        match a.codeblock_handle {
            None => g,
            Some(h) => match group_index(g, h) {
                Some(i) => g.update(i, (h, g[i].1.push(a))),
                None => g.push((h, seq![a])),
            },
        }
    }
}

pub open spec fn render_comment(c: CommentView) -> Seq<char> {
    "- "@ + c.timestamp + " "@ + c.author + ": "@ + c.body + "\n"@
}

pub open spec fn render_thread(t: Seq<CommentView>) -> Seq<char>
    decreases t.len(),
{
    if t.len() == 0 {
        Seq::empty()
    } else {
        render_thread(t.drop_last()) + render_comment(t.last())
    }
}

pub open spec fn render_quote(q: Seq<char>) -> Seq<char> {
    if q.len() == 0 {
        Seq::empty()
    } else {
        "> `"@ + q + "`\n\n"@
    }
}

pub open spec fn render_regular(a: AnnotationView) -> Seq<char> {
    "\n### "@ + a.id + "\n\n"@ + render_quote(a.quote) + render_thread(a.thread)
}

/// The regular annotations of `anns`, each as a `###` section, in order.
pub open spec fn render_regulars(anns: Seq<AnnotationView>) -> Seq<char>
    decreases anns.len(),
{
    if anns.len() == 0 {
        Seq::empty()
    } else {
        render_regulars(anns.drop_last()) + if anns.last().codeblock_handle is Some {
            Seq::empty()
        } else {
            render_regular(anns.last())
        }
    }
}

pub open spec fn range_text(r: Option<Seq<char>>) -> Seq<char> {
    match r {
        Some(x) => x,
        None => "0:0->0:0"@,
    }
}

pub open spec fn render_code_item(a: AnnotationView) -> Seq<char> {
    "\n#### "@ + range_text(a.code_range) + "\n\n"@ + render_quote(a.quote) + render_thread(a.thread)
}

pub open spec fn render_code_items(s: Seq<AnnotationView>) -> Seq<char>
    decreases s.len(),
{
    if s.len() == 0 {
        Seq::empty()
    } else {
        render_code_items(s.drop_last()) + render_code_item(s.last())
    }
}

pub open spec fn render_groups(gs: Seq<(Seq<char>, Seq<AnnotationView>)>) -> Seq<char>
    decreases gs.len(),
{
    if gs.len() == 0 {
        Seq::empty()
    } else {
        render_groups(gs.drop_last()) + "\n### "@ + gs.last().0 + "\n"@ + render_code_items(
            sort_by_range(gs.last().1),
        )
    }
}

/// The text of a file whose Markdown is `content` once its comments section holds
/// `anns`: the body without its old comments section and trailing whitespace,
/// then, when there are annotations, a `---` separator, the `## Comments`
/// heading, the regular annotations and the code block groups.
pub open spec fn spec_reify(content: Seq<char>, anns: Seq<AnnotationView>) -> Seq<char> {
    let body = trim_end(spec_strip_comments_section(content));
    if anns.len() == 0 {
        body
    } else {
        body + "\n\n---\n\n## Comments\n"@ + render_regulars(anns) + render_groups(code_groups(anns))
    }
}

fn opt_le_exec(a: &Option<String>, b: &Option<String>) -> (r: bool)
    ensures
        r == opt_le(opt_view(*a), opt_view(*b)),
{
    match (a, b) {
        (None, _) => true,
        (Some(_), None) => false,
        (Some(x), Some(y)) => {
            let xs = str_chars(x.as_str());
            let ys = str_chars(y.as_str());
            lex_le_exec(&xs, &ys)
        },
    }
}

/// The annotations of `anns` at the indices `idx`, in that order.
pub open spec fn pick(anns: Seq<AnnotationView>, idx: Seq<usize>) -> Seq<AnnotationView> {
    idx.map_values(|j: usize| anns[j as int])
}

/// Insert `j` into the index list `sorted` where `sort_by_range` puts it.
fn insert_by_range(anns: &[Annotation], sorted: &mut Vec<usize>, j: usize)
    requires
        j < anns@.len(),
        forall|k: int| 0 <= k < old(sorted)@.len() ==> old(sorted)@[k] < anns@.len(),
    ensures
        pick(ann_views(anns@), final(sorted)@) == pick(ann_views(anns@), old(sorted)@).insert(
            insert_pos_from(pick(ann_views(anns@), old(sorted)@), anns@[j as int]@, 0),
            anns@[j as int]@,
        ),
        forall|k: int| 0 <= k < final(sorted)@.len() ==> final(sorted)@[k] < anns@.len(),
{
    let ghost t = pick(ann_views(anns@), sorted@);
    let ghost a = anns@[j as int]@;
    let mut p: usize = 0;
    while p < sorted.len() && opt_le_exec(&anns[sorted[p]].code_range, &anns[j].code_range)
        invariant
            sorted@ == old(sorted)@,
            t == pick(ann_views(anns@), sorted@),
            a == anns@[j as int]@,
            j < anns@.len(),
            forall|k: int| 0 <= k < sorted@.len() ==> sorted@[k] < anns@.len(),
            p <= sorted@.len(),
            insert_pos_from(t, a, 0) == insert_pos_from(t, a, p as int),
        decreases sorted@.len() - p,
    {
        assert(t[p as int] == anns@[sorted@[p as int] as int]@);
        p = p + 1;
    }
    proof {
        if p < sorted@.len() {
            assert(t[p as int] == anns@[sorted@[p as int] as int]@);
        }
    }
    sorted.insert(p, j);
    assert(pick(ann_views(anns@), sorted@) =~= t.insert(p as int, a));
}

proof fn lemma_group_index_bounds(groups: Seq<(Seq<char>, Seq<AnnotationView>)>, h: Seq<char>)
    ensures
        group_index(groups, h) matches Some(i) ==> 0 <= i < groups.len() && groups[i].0 == h
            && forall|k: int| 0 <= k < i ==> groups[k].0 != h,
        group_index(groups, h) is None ==> forall|k: int| 0 <= k < groups.len() ==> groups[k].0 != h,
    decreases groups.len(),
{
    if groups.len() > 0 {
        lemma_group_index_bounds(groups.drop_last(), h);
        assert forall|k: int| 0 <= k < groups.len() - 1 implies groups.drop_last()[k] == groups[k] by {}
    }
}

/// The exec form of the groups: handle and indices into the annotations.
pub open spec fn groups_view(
    anns: Seq<AnnotationView>,
    gs: Seq<(Vec<char>, Vec<usize>)>,
) -> Seq<(Seq<char>, Seq<AnnotationView>)> {
    gs.map_values(|g: (Vec<char>, Vec<usize>)| (g.0@, pick(anns, g.1@)))
}

/// Group the code annotations by handle, as `code_groups` says.
fn group_code_annotations(annotations: &[Annotation]) -> (r: Vec<(Vec<char>, Vec<usize>)>)
    ensures
        groups_view(ann_views(annotations@), r@) == code_groups(ann_views(annotations@)),
        forall|g: int, k: int|
            0 <= g < r@.len() && 0 <= k < r@[g].1@.len() ==> r@[g].1@[k] < annotations@.len(),
{
    let ghost av = ann_views(annotations@);
    let mut groups: Vec<(Vec<char>, Vec<usize>)> = Vec::new();
    let mut i: usize = 0;
    assert(av.take(0) =~= Seq::<AnnotationView>::empty());
    assert(groups_view(av, groups@) =~= Seq::<(Seq<char>, Seq<AnnotationView>)>::empty());
    while i < annotations.len()
        invariant
            av == ann_views(annotations@),
            i <= annotations@.len(),
            groups_view(av, groups@) == code_groups(av.take(i as int)),
            forall|g: int, k: int|
                0 <= g < groups@.len() && 0 <= k < groups@[g].1@.len() ==> groups@[g].1@[k] < annotations@.len(),
        decreases annotations@.len() - i,
    {
        let ghost gv = groups_view(av, groups@);
        assert(av.take(i + 1).drop_last() =~= av.take(i as int));
        assert(av.take(i + 1).last() == annotations@[i as int]@);
        if let Some(h) = &annotations[i].codeblock_handle {
            let hc = str_chars(h.as_str());
            let mut g: usize = 0;
            while g < groups.len() && !chars_eq(&groups[g].0, &hc)
                invariant
                    g <= groups@.len(),
                    gv == groups_view(av, groups@),
                    forall|k: int| 0 <= k < g ==> gv[k].0 != hc@,
                decreases groups@.len() - g,
            {
                g = g + 1;
            }
            proof {
                lemma_group_index_bounds(gv, hc@);
                if g < groups@.len() {
                    if let Some(x) = group_index(gv, hc@) {
                        assert(x == g);
                    }
                }
            }
            if g < groups.len() {
                let ghost old_groups = groups@;
                let mut entry = (Vec::new(), Vec::new());
                std::mem::swap(&mut entry, &mut groups[g]);
                entry.1.push(i);
                groups.set(g, entry);
                proof {
                    assert(pick(av, old_groups[g as int].1@.push(i)) =~= pick(av, old_groups[g as int].1@).push(av[i as int]));
                    assert(groups_view(av, groups@) =~= gv.update(g as int, (hc@, gv[g as int].1.push(av[i as int]))));
                }
            } else {
                let mut members: Vec<usize> = Vec::new();
                members.push(i);
                let ghost old_groups = groups@;
                groups.push((hc, members));
                proof {
                    assert(pick(av, seq![i]) =~= seq![av[i as int]]);
                    assert(groups_view(av, groups@) =~= gv.push((h@, seq![av[i as int]])));
                }
            }
        }
        i = i + 1;
    }
    assert(av.take(annotations@.len() as int) =~= av);
    groups
}


fn push_string(out: &mut Vec<char>, s: &String)
    ensures
        final(out)@ == old(out)@ + s@,
{
    push_str(out, s.as_str());
}

fn render_thread_into(out: &mut Vec<char>, thread: &Vec<Comment>)
    ensures
        final(out)@ == old(out)@ + render_thread(comment_views(thread@)),
{
    let ghost tv = comment_views(thread@);
    let mut i: usize = 0;
    assert(tv.take(0) =~= Seq::<CommentView>::empty());
    assert(old(out)@ + Seq::<char>::empty() =~= old(out)@);
    while i < thread.len()
        invariant
            tv == comment_views(thread@),
            i <= thread@.len(),
            out@ == old(out)@ + render_thread(tv.take(i as int)),
        decreases thread@.len() - i,
    {
        let c = &thread[i];
        let ghost before = out@;
        push_str(out, "- ");
        push_string(out, &c.timestamp);
        push_str(out, " ");
        push_string(out, &c.author);
        push_str(out, ": ");
        push_string(out, &c.body);
        push_str(out, "\n");
        assert(tv.take(i + 1).drop_last() =~= tv.take(i as int));
        assert(tv.take(i + 1).last() == c@);
        assert(out@ =~= before + render_comment(c@));
        i = i + 1;
    }
    assert(tv.take(thread@.len() as int) =~= tv);
}

fn render_quote_into(out: &mut Vec<char>, quote: &String)
    ensures
        final(out)@ == old(out)@ + render_quote(quote@),
{
    let q = str_chars(quote.as_str());
    if q.len() == 0 {
        assert(old(out)@ + Seq::<char>::empty() =~= old(out)@);
    } else {
        push_str(out, "> `");
        push_all(out, &q);
        push_str(out, "`\n\n");
        assert(out@ =~= old(out)@ + render_quote(quote@));
    }
}

fn render_regulars_into(out: &mut Vec<char>, anns: &[Annotation])
    ensures
        final(out)@ == old(out)@ + render_regulars(ann_views(anns@)),
{
    let ghost av = ann_views(anns@);
    let mut i: usize = 0;
    assert(av.take(0) =~= Seq::<AnnotationView>::empty());
    assert(old(out)@ + Seq::<char>::empty() =~= old(out)@);
    while i < anns.len()
        invariant
            av == ann_views(anns@),
            i <= anns@.len(),
            out@ == old(out)@ + render_regulars(av.take(i as int)),
        decreases anns@.len() - i,
    {
        let a = &anns[i];
        let ghost before = out@;
        assert(av.take(i + 1).drop_last() =~= av.take(i as int));
        assert(av.take(i + 1).last() == a@);
        if a.is_code() {
            assert(before + Seq::<char>::empty() =~= before);
        } else {
            push_str(out, "\n### ");
            push_string(out, &a.id);
            push_str(out, "\n\n");
            render_quote_into(out, &a.quote);
            render_thread_into(out, &a.thread);
            assert(out@ =~= before + render_regular(a@));
        }
        assert(out@ =~= old(out)@ + render_regulars(av.take(i + 1)));
        i = i + 1;
    }
    assert(av.take(anns@.len() as int) =~= av);
}

fn render_code_items_into(out: &mut Vec<char>, anns: &[Annotation], idx: &Vec<usize>)
    requires
        forall|k: int| 0 <= k < idx@.len() ==> idx@[k] < anns@.len(),
    ensures
        final(out)@ == old(out)@ + render_code_items(pick(ann_views(anns@), idx@)),
{
    let ghost av = ann_views(anns@);
    let ghost pv = pick(av, idx@);
    let mut i: usize = 0;
    assert(pv.take(0) =~= Seq::<AnnotationView>::empty());
    assert(old(out)@ + Seq::<char>::empty() =~= old(out)@);
    while i < idx.len()
        invariant
            av == ann_views(anns@),
            pv == pick(av, idx@),
            forall|k: int| 0 <= k < idx@.len() ==> idx@[k] < anns@.len(),
            i <= idx@.len(),
            out@ == old(out)@ + render_code_items(pv.take(i as int)),
        decreases idx@.len() - i,
    {
        let a = &anns[idx[i]];
        let ghost before = out@;
        assert(pv.take(i + 1).drop_last() =~= pv.take(i as int));
        assert(pv.take(i + 1).last() == a@);
        push_str(out, "\n#### ");
        match &a.code_range {
            Some(r) => push_string(out, r),
            None => push_str(out, "0:0->0:0"),
        }
        push_str(out, "\n\n");
        render_quote_into(out, &a.quote);
        render_thread_into(out, &a.thread);
        assert(out@ =~= before + render_code_item(a@));
        i = i + 1;
    }
    assert(pv.take(idx@.len() as int) =~= pv);
}

/// The indices `members` ordered as `sort_by_range` orders their annotations.
fn sort_indices_by_range(anns: &[Annotation], members: &Vec<usize>) -> (r: Vec<usize>)
    requires
        forall|k: int| 0 <= k < members@.len() ==> members@[k] < anns@.len(),
    ensures
        pick(ann_views(anns@), r@) == sort_by_range(pick(ann_views(anns@), members@)),
        forall|k: int| 0 <= k < r@.len() ==> r@[k] < anns@.len(),
{
    let ghost av = ann_views(anns@);
    let ghost mv = pick(av, members@);
    let mut sorted: Vec<usize> = Vec::new();
    let mut i: usize = 0;
    assert(mv.take(0) =~= Seq::<AnnotationView>::empty());
    assert(pick(av, sorted@) =~= Seq::<AnnotationView>::empty());
    while i < members.len()
        invariant
            av == ann_views(anns@),
            mv == pick(av, members@),
            forall|k: int| 0 <= k < members@.len() ==> members@[k] < anns@.len(),
            forall|k: int| 0 <= k < sorted@.len() ==> sorted@[k] < anns@.len(),
            i <= members@.len(),
            pick(av, sorted@) == sort_by_range(mv.take(i as int)),
        decreases members@.len() - i,
    {
        assert(mv.take(i + 1).drop_last() =~= mv.take(i as int));
        assert(mv.take(i + 1).last() == anns@[members@[i as int] as int]@);
        insert_by_range(anns, &mut sorted, members[i]);
        i = i + 1;
    }
    assert(mv.take(members@.len() as int) =~= mv);
    sorted
}

fn render_groups_into(out: &mut Vec<char>, anns: &[Annotation], groups: &Vec<(Vec<char>, Vec<usize>)>)
    requires
        forall|g: int, k: int|
            0 <= g < groups@.len() && 0 <= k < groups@[g].1@.len() ==> groups@[g].1@[k] < anns@.len(),
    ensures
        final(out)@ == old(out)@ + render_groups(groups_view(ann_views(anns@), groups@)),
{
    let ghost av = ann_views(anns@);
    let ghost gv = groups_view(av, groups@);
    let mut i: usize = 0;
    assert(gv.take(0) =~= Seq::<(Seq<char>, Seq<AnnotationView>)>::empty());
    assert(old(out)@ + Seq::<char>::empty() =~= old(out)@);
    while i < groups.len()
        invariant
            av == ann_views(anns@),
            gv == groups_view(av, groups@),
            forall|g: int, k: int|
                0 <= g < groups@.len() && 0 <= k < groups@[g].1@.len() ==> groups@[g].1@[k] < anns@.len(),
            i <= groups@.len(),
            out@ == old(out)@ + render_groups(gv.take(i as int)),
        decreases groups@.len() - i,
    {
        let ghost before = out@;
        assert(gv.take(i + 1).drop_last() =~= gv.take(i as int));
        assert(gv.take(i + 1).last() == gv[i as int]);
        push_str(out, "\n### ");
        push_all(out, &groups[i].0);
        push_str(out, "\n");
        let sorted = sort_indices_by_range(anns, &groups[i].1);
        render_code_items_into(out, anns, &sorted);
        assert(out@ =~= before + "\n### "@ + gv[i as int].0 + "\n"@ + render_code_items(
            sort_by_range(gv[i as int].1),
        ));
        i = i + 1;
    }
    assert(gv.take(groups@.len() as int) =~= gv);
}

/// The Markdown text `content` with its comments section replaced by one that
/// holds `annotations`.
///
/// Regular annotations are written as `### ann_id`.
/// Code block annotations are grouped by `codeblock_handle` under `### handle`
/// with `#### startLine:startChar->endLine:endChar` subsections.
pub fn reify_markdown_comments(content: &str, annotations: &[Annotation]) -> (r: String)
    ensures
        r@ == spec_reify(content@, ann_views(annotations@)),
{
    let c = str_chars(content);
    let k = comments_section_start(&c);
    let e = skip_ws_back(&c, 0, k);
    let mut result = slice_range(&c, 0, e);
    assert(c@.subrange(0, k as int) =~= spec_strip_comments_section(content@));
    if annotations.len() > 0 {
        let ghost body = result@;
        push_str(&mut result, "\n\n---\n\n## Comments\n");
        render_regulars_into(&mut result, annotations);
        let groups = group_code_annotations(annotations);
        render_groups_into(&mut result, annotations, &groups);
        assert(result@ =~= body + "\n\n---\n\n## Comments\n"@ + render_regulars(ann_views(annotations@))
            + render_groups(code_groups(ann_views(annotations@))));
    }
    chars_to_string(&result)
}


// ---------------------------------------------------------------------------
// Code block anchors
// ---------------------------------------------------------------------------

/// The index just after the line of `s` that starts at `pos` (after its `'\n'`,
/// or the end of `s`).
pub open spec fn line_end(s: Seq<char>, pos: int) -> int {
    match find_char_from(s, '\n', pos) {
        Some(p) => p + 1,
        None => s.len() as int,
    }
}

/// The line of `s` that starts at `pos`, without its line ending and its
/// leading whitespace.
pub open spec fn line_text(s: Seq<char>, pos: int) -> Seq<char> {
    trim_start(trim_newlines_end(s.subrange(pos, line_end(s, pos))))
}

/// The number of leading occurrences of `c` in `s`.
pub open spec fn leading_count(s: Seq<char>, c: char) -> nat
    decreases s.len(),
{
    if s.len() > 0 && s[0] == c {
        1 + leading_count(s.drop_first(), c)
    } else {
        0
    }
}

/// Whether `line` opens a fenced code block, with its fence character and the
/// length of its fence.
pub open spec fn spec_detect_fence(line: Seq<char>) -> (bool, char, nat) {
    if starts_with(line, "```"@) {
        (true, '`', leading_count(line, '`'))
    } else if starts_with(line, "~~~"@) {
        (true, '~', leading_count(line, '~'))
    } else {
        (false, ' ', 0)
    }
}

/// `line` closes a block fenced with `fence_len` characters `fence_char`.
pub open spec fn is_closing_fence(line: Seq<char>, fence_char: char, fence_len: nat) -> bool {
    let run = leading_count(line, fence_char);
    run >= fence_len && trim(line.skip(run as int)).len() == 0
}

pub proof fn lemma_line_end(s: Seq<char>, pos: int)
    requires
        0 <= pos < s.len(),
    ensures
        pos < line_end(s, pos) <= s.len(),
{
    lemma_find_char_from_bounds(s, '\n', pos);
}

/// The start of the first line from `pos` on that closes the fence.
pub open spec fn find_close(s: Seq<char>, pos: int, fence_char: char, fence_len: nat) -> Option<int>
    decreases s.len() - pos,
{
    if pos < 0 || pos >= s.len() {
        None
    } else if is_closing_fence(line_text(s, pos), fence_char, fence_len) {
        Some(pos)
    } else {
        proof {
            lemma_line_end(s, pos);
        }
        find_close(s, line_end(s, pos), fence_char, fence_len)
    }
}

/// `t` with each `"\r\n"` replaced by `"\n"`.
pub open spec fn normalize_crlf(t: Seq<char>) -> Seq<char>
    decreases t.len(),
{
    if t.len() == 0 {
        t
    } else if t.len() >= 2 && t[0] == '\r' && t[1] == '\n' {
        seq!['\n'] + normalize_crlf(t.skip(2))
    } else {
        seq![t[0]] + normalize_crlf(t.drop_first())
    }
}

pub proof fn lemma_find_close_bounds(s: Seq<char>, pos: int, fence_char: char, fence_len: nat)
    ensures
        find_close(s, pos, fence_char, fence_len) matches Some(cp) ==> pos <= cp < s.len(),
    decreases s.len() - pos,
{
    if 0 <= pos < s.len() && !is_closing_fence(line_text(s, pos), fence_char, fence_len) {
        lemma_line_end(s, pos);
        lemma_find_close_bounds(s, line_end(s, pos), fence_char, fence_len);
    }
}

/// The index just after the closing fence line of the first fenced code block,
/// from `pos` on, whose content (with `"\r\n"` read as `"\n"`) starts with
/// `prefix`.
pub open spec fn fenced_end_from(s: Seq<char>, prefix: Seq<char>, pos: int) -> Option<int>
    decreases s.len() - pos,
{
    if pos < 0 || pos >= s.len() {
        None
    } else {
        proof {
            lemma_line_end(s, pos);
        }
        let le = line_end(s, pos);
        let fence = spec_detect_fence(line_text(s, pos));
        if fence.0 {
            match find_close(s, le, fence.1, fence.2) {
                None => None,
                Some(cp) => {
                    proof {
                        lemma_find_close_bounds(s, le, fence.1, fence.2);
                        lemma_line_end(s, cp);
                    }
                    let cle = line_end(s, cp);
                    if starts_with(normalize_crlf(s.subrange(le, cp)), prefix) {
                        Some(cle)
                    } else {
                        fenced_end_from(s, prefix, cle)
                    }
                },
            }
        } else {
            fenced_end_from(s, prefix, le)
        }
    }
}

/// The handle of a `[comments](#handle)` anchor on the trimmed line `t`.
pub open spec fn anchor_in_line(t: Seq<char>) -> Option<Seq<char>> {
    if starts_with(t, "[comments](#"@) {
        let rest = t.skip("[comments](#"@.len() as int);
        match find_char_from(rest, ')', 0) {
            Some(k) => Some(rest.take(k)),
            None => None,
        }
    } else {
        None
    }
}

/// The first anchor handle among the lines `ls`.
pub open spec fn first_anchor(ls: Seq<Seq<char>>) -> Option<Seq<char>>
    decreases ls.len(),
{
    if ls.len() == 0 {
        None
    } else {
        match anchor_in_line(trim(ls[0])) {
            Some(h) => Some(h),
            None => first_anchor(ls.drop_first()),
        }
    }
}

/// The handle of a `[comments](#handle)` anchor within the first three lines of `text`.
pub open spec fn spec_find_anchor(text: Seq<char>) -> Option<Seq<char>> {
    let ls = lines(text);
    first_anchor(if ls.len() > 3 { ls.take(3) } else { ls })
}

/// What goes before a new anchor at `cp`: a line break where the closing
/// fence line ends the text without one, so that the anchor stands on a line
/// of its own right after the fence.
pub open spec fn anchor_separator(content: Seq<char>, cp: int) -> Seq<char> {
    if 0 < cp <= content.len() && content[cp - 1] != '\n' {
        seq!['\n']
    } else {
        Seq::empty()
    }
}

/// The result of placing an anchor for the code block starting with `prefix`:
/// an anchor already within the first lines after its closing fence is kept;
/// otherwise `[comments](#handle)` is put on its own line right after the
/// closing fence line.
pub open spec fn spec_ensure_anchor(content: Seq<char>, prefix: Seq<char>, handle: Seq<char>) -> Option<
    (Seq<char>, Seq<char>),
> {
    if prefix.len() == 0 {
        None
    } else {
        let body = spec_strip_comments_section(content);
        match fenced_end_from(body, prefix, 0) {
            None => None,
            Some(cp) => match spec_find_anchor(body.skip(cp)) {
                Some(h) => Some((content, h)),
                None => Some(
                    (
                        content.take(cp) + anchor_separator(content, cp) + "[comments](#"@ + handle + ")\n"@
                            + content.skip(cp),
                        handle,
                    ),
                ),
            },
        }
    }
}

/// The index just after the line of `s` that starts at `pos`.
fn line_end_exec(s: &[char], pos: usize) -> (r: usize)
    requires
        pos < s@.len(),
    ensures
        r == line_end(s@, pos as int),
        pos < r <= s@.len(),
{
    proof {
        lemma_line_end(s@, pos as int);
        lemma_find_char_from_bounds(s@, '\n', pos as int);
    }
    let n = s.len();
    match find_char_vec_from(s, '\n', pos) {
        Some(p) => p + 1,
        None => n,
    }
}

/// The line of `s` from `pos` to `end`, without trailing `'\n'`/`'\r'` and
/// leading whitespace.
fn line_text_exec(s: &[char], pos: usize, end: usize) -> (r: Vec<char>)
    requires
        pos <= end <= s@.len(),
    ensures
        r@ == trim_start(trim_newlines_end(s@.subrange(pos as int, end as int))),
{
    let mut e = end;
    while e > pos && (s[e - 1] == '\n' || s[e - 1] == '\r')
        invariant
            pos <= e <= end <= s@.len(),
            trim_newlines_end(s@.subrange(pos as int, end as int)) == trim_newlines_end(
                s@.subrange(pos as int, e as int),
            ),
        decreases e,
    {
        assert(s@.subrange(pos as int, e as int).drop_last() =~= s@.subrange(pos as int, e - 1));
        e = e - 1;
    }
    let b = skip_ws(s, pos, e);
    slice_range(s, b, e)
}

fn leading_count_exec(s: &[char], c: char) -> (r: usize)
    ensures
        r == leading_count(s@, c),
        r <= s@.len(),
{
    let mut i: usize = 0;
    assert(s@.skip(0) =~= s@);
    while i < s.len() && s[i] == c
        invariant
            i <= s@.len(),
            leading_count(s@, c) == i + leading_count(s@.skip(i as int), c),
        decreases s@.len() - i,
    {
        assert(s@.skip(i as int).drop_first() =~= s@.skip(i + 1));
        i = i + 1;
    }
    i
}

/// Whether `line` opens a fenced code block, with its fence character and length.
fn detect_fence(line: &[char]) -> (r: (bool, char, usize))
    ensures
        r.0 == spec_detect_fence(line@).0,
        r.1 == spec_detect_fence(line@).1,
        r.2 == spec_detect_fence(line@).2,
{
    let bt = str_chars("```");
    let tl = str_chars("~~~");
    if has_prefix(line, &bt) {
        return (true, '`', leading_count_exec(line, '`'));
    }
    if has_prefix(line, &tl) {
        return (true, '~', leading_count_exec(line, '~'));
    }
    (false, ' ', 0)
}

/// `normalize_crlf(s[from..to])` as a new vector.
fn normalize_crlf_range(s: &[char], from: usize, to: usize) -> (r: Vec<char>)
    requires
        from <= to <= s@.len(),
    ensures
        r@ == normalize_crlf(s@.subrange(from as int, to as int)),
{
    let mut out: Vec<char> = Vec::new();
    let mut i = from;
    assert(out@ + normalize_crlf(s@.subrange(i as int, to as int)) =~= normalize_crlf(
        s@.subrange(from as int, to as int),
    ));
    while i < to
        invariant
            from <= i <= to <= s@.len(),
            out@ + normalize_crlf(s@.subrange(i as int, to as int)) == normalize_crlf(
                s@.subrange(from as int, to as int),
            ),
        decreases to - i,
    {
        let ghost t = s@.subrange(i as int, to as int);
        let ghost before = out@;
        if i + 1 < to && s[i] == '\r' && s[i + 1] == '\n' {
            out.push('\n');
            assert(t.skip(2) =~= s@.subrange(i + 2, to as int));
            assert(before + normalize_crlf(t) =~= out@ + normalize_crlf(s@.subrange(i + 2, to as int)));
            i = i + 2;
        } else {
            out.push(s[i]);
            assert(t.drop_first() =~= s@.subrange(i + 1, to as int));
            assert(before + normalize_crlf(t) =~= out@ + normalize_crlf(s@.subrange(i + 1, to as int)));
            i = i + 1;
        }
    }
    assert(s@.subrange(to as int, to as int) =~= Seq::<char>::empty());
    assert(out@ + Seq::<char>::empty() =~= out@);
    out
}

/// The start of the first line from `pos` on that closes the fence.
fn find_close_exec(s: &[char], pos: usize, fence_char: char, fence_len: usize) -> (r: Option<usize>)
    requires
        pos <= s@.len(),
    ensures
        r matches Some(x) ==> find_close(s@, pos as int, fence_char, fence_len as nat) == Some(x as int),
        r is None ==> find_close(s@, pos as int, fence_char, fence_len as nat) is None,
{
    let mut p = pos;
    while p < s.len()
        invariant
            pos <= p <= s@.len(),
            find_close(s@, pos as int, fence_char, fence_len as nat) == find_close(
                s@,
                p as int,
                fence_char,
                fence_len as nat,
            ),
        decreases s@.len() - p,
    {
        let le = line_end_exec(s, p);
        let t = line_text_exec(s, p, le);
        let run = leading_count_exec(&t, fence_char);
        if run >= fence_len {
            let rest = trim_range(&t, run, t.len());
            assert(t@.subrange(run as int, t@.len() as int) =~= t@.skip(run as int));
            if rest.len() == 0 {
                return Some(p);
            }
        }
        p = le;
    }
    None
}

/// Return the position in `body` immediately after the closing fence line
/// of the fenced code block whose content starts with `code_text_prefix`.
fn find_fenced_block_end(body: &[char], code_text_prefix: &[char]) -> (r: Option<usize>)
    ensures
        r matches Some(x) ==> fenced_end_from(body@, code_text_prefix@, 0) == Some(x as int) && x
            <= body@.len(),
        r is None ==> fenced_end_from(body@, code_text_prefix@, 0) is None,
{
    let mut pos: usize = 0;
    while pos < body.len()
        invariant
            pos <= body@.len(),
            fenced_end_from(body@, code_text_prefix@, 0) == fenced_end_from(
                body@,
                code_text_prefix@,
                pos as int,
            ),
        decreases body@.len() - pos,
    {
        let le = line_end_exec(body, pos);
        let t = line_text_exec(body, pos, le);
        let (is_fence, fence_char, fence_len) = detect_fence(&t);
        if is_fence {
            match find_close_exec(body, le, fence_char, fence_len) {
                None => {
                    return None;
                },
                Some(cp) => {
                    proof {
                        lemma_find_close_bounds(body@, le as int, fence_char, fence_len as nat);
                    }
                    let cle = line_end_exec(body, cp);
                    let code = normalize_crlf_range(body, le, cp);
                    if has_prefix(&code, code_text_prefix) {
                        return Some(cle);
                    }
                    pos = cle;
                },
            }
        } else {
            pos = le;
        }
    }
    None
}

/// Find `[comments](#handle)` within the first three lines of `text`.
fn find_codeblock_anchor_at(text: &[char]) -> (r: Option<Vec<char>>)
    ensures
        opt_chars(r) == spec_find_anchor(text@),
{
    let ls = lines_vec(text);
    let open = str_chars("[comments](#");
    let n = if ls.len() > 3 {
        3
    } else {
        ls.len()
    };
    let ghost all = views(ls@);
    let ghost first = if all.len() > 3 {
        all.take(3)
    } else {
        all
    };
    assert(first =~= all.take(n as int));
    assert(first.skip(0) =~= first);
    let mut i: usize = 0;
    while i < n
        invariant
            all == views(ls@),
            all == lines(text@),
            open@ == "[comments](#"@,
            n <= ls@.len(),
            i <= n,
            first == all.take(n as int),
            first == (if all.len() > 3 { all.take(3) } else { all }),
            first_anchor(first) == first_anchor(first.skip(i as int)),
        decreases n - i,
    {
        let t = trim_vec(&ls[i]);
        assert(first.skip(i as int)[0] == ls@[i as int]@);
        assert(first.skip(i as int).drop_first() =~= first.skip(i + 1));
        if has_prefix(&t, &open) {
            let rest = slice_range(&t, open.len(), t.len());
            assert(rest@ =~= t@.skip(open@.len() as int));
            if let Some(k) = find_char_vec_from(&rest, ')', 0) {
                proof {
                    lemma_find_char_from_bounds(rest@, ')', 0);
                }
                let h = slice_range(&rest, 0, k);
                assert(h@ =~= rest@.take(k as int));
                assert(anchor_in_line(t@) == Some(h@));
                assert(anchor_in_line(trim(first.skip(i as int)[0])) == Some(h@));
                assert(first_anchor(first.skip(i as int)) == Some(h@));
                assert(spec_find_anchor(text@) == first_anchor(first));
                return Some(h);
            }
        }
        i = i + 1;
    }
    assert(first.skip(n as int) =~= Seq::<Seq<char>>::empty());
    None
}

/// Ensure a `[comments](#handle)` anchor exists immediately after the fenced code block
/// whose content starts with `code_text_prefix`.
///
/// - Returns `Some((content, handle))` if the block was found.
///   If the block already has an anchor, the existing handle is returned unchanged.
///   If not, `proposed_handle` is inserted and returned.
/// - Returns `None` if the code block cannot be located.
pub fn ensure_codeblock_anchor(
    content: &str,
    code_text_prefix: &str,
    proposed_handle: &str,
) -> (r: Option<(String, String)>)
    ensures
        match spec_ensure_anchor(content@, code_text_prefix@, proposed_handle@) {
            Some((c, h)) => r matches Some((rc, rh)) && rc@ == c && rh@ == h,
            None => r is None,
        },
{
    let prefix = str_chars(code_text_prefix);
    if prefix.len() == 0 {
        return None;
    }
    let c = str_chars(content);
    let k = comments_section_start(&c);
    let body = slice_range(&c, 0, k);
    assert(body@ =~= spec_strip_comments_section(content@));
    let closing_pos = match find_fenced_block_end(&body, &prefix) {
        Some(p) => p,
        None => return None,
    };
    let after = slice_range(&body, closing_pos, body.len());
    assert(after@ =~= body@.skip(closing_pos as int));
    if let Some(existing) = find_codeblock_anchor_at(&after) {
        return Some((chars_to_string(&c), chars_to_string(&existing)));
    }
    let handle = str_chars(proposed_handle);
    let mut out = slice_range(&c, 0, closing_pos);
    if closing_pos > 0 && c[closing_pos - 1] != '\n' {
        out.push('\n');
    }
    assert(out@ =~= c@.take(closing_pos as int) + anchor_separator(content@, closing_pos as int));
    push_str(&mut out, "[comments](#");
    push_all(&mut out, &handle);
    push_str(&mut out, ")\n");
    push_range(&mut out, &c, closing_pos, c.len());
    assert(c@.skip(closing_pos as int) =~= c@.subrange(closing_pos as int, c@.len() as int));
    Some((chars_to_string(&out), chars_to_string(&handle)))
}

proof fn lemma_earliest_le(s: Seq<char>, pats: Seq<Seq<char>>, i: int)
    requires
        0 <= i < pats.len(),
        find(s, pats[i]) is Some,
    ensures
        earliest_occurrence(s, pats) <= find(s, pats[i])->0,
    decreases pats.len(),
{
    lemma_earliest_bounds(s, pats.drop_last());
    if i < pats.len() - 1 {
        assert(pats.drop_last()[i] == pats[i]);
        lemma_earliest_le(s, pats.drop_last(), i);
    }
}

proof fn lemma_earliest_none(s: Seq<char>, pats: Seq<Seq<char>>)
    requires
        forall|i: int| 0 <= i < pats.len() ==> find(s, #[trigger] pats[i]) is None,
    ensures
        earliest_occurrence(s, pats) == s.len(),
    decreases pats.len(),
{
    if pats.len() > 0 {
        assert(find(s, pats[pats.len() - 1]) is None);
        lemma_earliest_none(s, pats.drop_last());
    }
}

/// Stripping the comments section twice strips no more than once: what
/// stands before the section holds none of its headings.
pub proof fn law_strip_comments_section_idempotent(content: Seq<char>)
    ensures
        spec_strip_comments_section(spec_strip_comments_section(content)) == spec_strip_comments_section(
            content,
        ),
{
    reveal_strlit("\n---\n\n## Comments");
    reveal_strlit("\n---\n## Comments");
    reveal_strlit("\n---\n\n# Comments");
    reveal_strlit("\n---\n# Comments");
    reveal_strlit("\n# Comments");
    reveal_strlit("\n## Comments");
    let pats = section_patterns();
    assert forall|i: int| 0 <= i < pats.len() implies (#[trigger] pats[i]).len() > 0 by {}
    let k = earliest_occurrence(content, pats);
    lemma_earliest_bounds(content, pats);
    let t = content.take(k);
    assert forall|i: int| 0 <= i < pats.len() implies find(t, #[trigger] pats[i]) is None by {
        let p = pats[i];
        lemma_find_from_bounds(t, p, 0);
        if find(t, p) is Some {
            let j = find(t, p)->0;
            assert(occurs_at(t, p, j));
            assert(t.subrange(j, j + p.len()) =~= content.subrange(j, j + p.len()));
            assert(occurs_at(content, p, j));
            lemma_find_from_bounds(content, p, 0);
            if find(content, p) is None {
                assert(!occurs_at(content, p, j));
            }
            let m = find(content, p)->0;
            if m > j {
                assert(!occurs_at(content, p, j));
            }
            lemma_earliest_le(content, pats, i);
            assert(p.len() > 0);
            assert(false);
        }
    }
    lemma_earliest_none(t, pats);
    assert(t.take(t.len() as int) =~= t);
}

/// Where one of `pats` occurs before the end of `s`, the earliest such
/// index is one at which some pattern occurs.
proof fn lemma_earliest_witness(s: Seq<char>, pats: Seq<Seq<char>>)
    requires
        earliest_occurrence(s, pats) < s.len(),
    ensures
        exists|i: int|
            0 <= i < pats.len() && #[trigger] find(s, pats[i]) == Some(earliest_occurrence(s, pats)),
    decreases pats.len(),
{
    let rest = earliest_occurrence(s, pats.drop_last());
    let last = pats.len() - 1;
    assert(pats.last() == pats[last]);
    match find(s, pats.last()) {
        Some(k) => {
            if k < rest {
                assert(find(s, pats[last]) == Some(earliest_occurrence(s, pats)));
            } else {
                lemma_earliest_witness(s, pats.drop_last());
                let i = choose|i: int|
                    0 <= i < pats.drop_last().len() && #[trigger] find(s, pats.drop_last()[i]) == Some(
                        rest,
                    );
                assert(pats.drop_last()[i] == pats[i]);
                assert(find(s, pats[i]) == Some(earliest_occurrence(s, pats)));
            }
        },
        None => {
            lemma_earliest_witness(s, pats.drop_last());
            let i = choose|i: int|
                0 <= i < pats.drop_last().len() && #[trigger] find(s, pats.drop_last()[i]) == Some(
                    rest,
                );
            assert(pats.drop_last()[i] == pats[i]);
            assert(find(s, pats[i]) == Some(earliest_occurrence(s, pats)));
        },
    }
}

/// Stripping the comments section keeps a prefix of the text that ends
/// exactly where the earliest section heading begins: no heading occurs
/// before that point, and where anything was cut, a heading occurs there.
pub proof fn law_strip_comments_section_prefix(content: Seq<char>)
    ensures
        spec_strip_comments_section(content).len() <= content.len(),
        spec_strip_comments_section(content) == content.take(
            spec_strip_comments_section(content).len() as int,
        ),
        forall|i: int, j: int|
            0 <= i < section_patterns().len() && 0 <= j < spec_strip_comments_section(content).len()
                ==> !#[trigger] occurs_at(content, section_patterns()[i], j),
        spec_strip_comments_section(content).len() < content.len() ==> exists|i: int|
            0 <= i < section_patterns().len() && occurs_at(
                content,
                #[trigger] section_patterns()[i],
                spec_strip_comments_section(content).len() as int,
            ),
{
    let pats = section_patterns();
    let k = earliest_occurrence(content, pats);
    lemma_earliest_bounds(content, pats);
    assert(spec_strip_comments_section(content).len() == k);
    assert forall|i: int, j: int| 0 <= i < pats.len() && 0 <= j < k implies !#[trigger] occurs_at(content, pats[i], j) by {
        lemma_find_from_bounds(content, pats[i], 0);
        if find(content, pats[i]) is Some {
            lemma_earliest_le(content, pats, i);
        }
    }
    if k < content.len() {
        lemma_earliest_witness(content, pats);
        let i = choose|i: int| 0 <= i < pats.len() && #[trigger] find(content, pats[i]) == Some(k);
        lemma_find_from_bounds(content, pats[i], 0);
        assert(occurs_at(content, pats[i], k));
    }
}

} // verus!
