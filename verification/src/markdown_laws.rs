//! What reading the comments section gives back of what writing it wrote.

use vstd::prelude::*;
use crate::text::{
    lines, find_char_from, lemma_find_char_from_bounds, strip_cr, trim, trim_start, trim_end, is_ws,
    starts_with, trim_char_start, trim_char_end,
};
use crate::annotations::CommentView;
use crate::store::{
    AnnotationView, ParseState, parse_step, parse_lines, initial_parse_state, flush_state,
    spec_parse_comment_line, start_section, render_comment, render_thread, render_quote,
    render_regular, render_regulars, code_groups, render_groups, spec_reify,
    spec_strip_comments_section, spec_parse_markdown_comments, start_code_item, render_code_item,
    render_code_items, range_text, spec_code_ann_id, sort_by_range, group_index,
    insert_pos_from,
};

verus! {

// ---------------------------------------------------------------------------
// Lines of concatenated text
// ---------------------------------------------------------------------------

proof fn lemma_find_char_prefix(a: Seq<char>, b: Seq<char>, c: char)
    requires
        find_char_from(a, c, 0) is Some,
    ensures
        find_char_from(a + b, c, 0) == find_char_from(a, c, 0),
{
    lemma_find_char_from_bounds(a, c, 0);
    lemma_find_char_from_bounds(a + b, c, 0);
    let i = find_char_from(a, c, 0)->0;
    assert((a + b)[i] == c);
    match find_char_from(a + b, c, 0) {
        Some(k) => {
            if k < i {
                assert((a + b)[k] == a[k]);
            }
        },
        None => {},
    }
}

/// The lines of text that ends with a line break, followed by more text,
/// are its lines followed by those of the rest.
pub proof fn lemma_lines_append(a: Seq<char>, b: Seq<char>)
    requires
        a.len() > 0,
        a.last() == '\n',
    ensures
        lines(a + b) == lines(a) + lines(b),
    decreases a.len(),
{
    lemma_find_char_from_bounds(a, '\n', 0);
    if find_char_from(a, '\n', 0) is None {
        assert(a[a.len() - 1] == '\n');
    }
    let i = find_char_from(a, '\n', 0)->0;
    lemma_find_char_prefix(a, b, '\n');
    let s = a + b;
    assert(s.len() > 0);
    assert(s.take(i) =~= a.take(i));
    assert(s.skip(i + 1) =~= a.skip(i + 1) + b);
    if i + 1 == a.len() {
        assert(a.skip(i + 1) =~= Seq::<char>::empty());
        assert(a.skip(i + 1) + b =~= b);
        assert(lines(a.skip(i + 1)) =~= Seq::<Seq<char>>::empty());
        assert(lines(a) =~= seq![strip_cr(a.take(i))]);
        assert(lines(s) =~= seq![strip_cr(a.take(i))] + lines(b));
    } else {
        let a2 = a.skip(i + 1);
        assert(a2.last() == a.last());
        lemma_lines_append(a2, b);
        assert(lines(s) =~= seq![strip_cr(a.take(i))] + lines(a2 + b));
        assert(lines(a) =~= seq![strip_cr(a.take(i))] + lines(a2));
        assert(lines(s) =~= lines(a) + lines(b));
    }
}

/// A line without a line break, terminated by one, is one line.
pub proof fn lemma_lines_single(x: Seq<char>)
    requires
        forall|j: int| 0 <= j < x.len() ==> x[j] != '\n',
    ensures
        lines(x + seq!['\n']) == seq![strip_cr(x)],
{
    let s = x + seq!['\n'];
    lemma_find_char_from_bounds(s, '\n', 0);
    assert(s[x.len() as int] == '\n');
    let i = find_char_from(s, '\n', 0)->0;
    if i < x.len() {
        assert(s[i] == x[i]);
    }
    assert(i == x.len());
    assert(s.take(i) =~= x);
    assert(s.skip(i + 1) =~= Seq::<char>::empty());
    assert(lines(s.skip(i + 1)) =~= Seq::<Seq<char>>::empty());
    assert(lines(s) =~= seq![strip_cr(x)]);
}

/// Text that does not end with a line break keeps its lines when one is added.
pub proof fn lemma_lines_terminated(x: Seq<char>)
    requires
        x.len() > 0,
        x.last() != '\n',
        x.last() != '\r',
    ensures
        lines(x + seq!['\n']) == lines(x),
    decreases x.len(),
{
    let s = x + seq!['\n'];
    lemma_find_char_from_bounds(x, '\n', 0);
    match find_char_from(x, '\n', 0) {
        None => {
            lemma_lines_single(x);
            assert(strip_cr(x) == x);
            assert(lines(x) =~= seq![x]);
        },
        Some(i) => {
            lemma_find_char_prefix(x, seq!['\n'], '\n');
            assert(s.take(i) =~= x.take(i));
            let x2 = x.skip(i + 1);
            assert(i + 1 < x.len());
            assert(s.skip(i + 1) =~= x2 + seq!['\n']);
            assert(x2.last() == x.last());
            lemma_lines_terminated(x2);
            assert(lines(s) =~= seq![strip_cr(x.take(i))] + lines(x2 + seq!['\n']));
            assert(lines(x) =~= seq![strip_cr(x.take(i))] + lines(x2));
        },
    }
}

// ---------------------------------------------------------------------------
// Reading line by line
// ---------------------------------------------------------------------------

/// The state after reading `ls` in order, starting from `st`.
pub open spec fn parse_run(st: ParseState, ls: Seq<Seq<char>>) -> ParseState
    decreases ls.len(),
{
    if ls.len() == 0 {
        st
    } else {
        parse_step(parse_run(st, ls.drop_last()), ls.last())
    }
}

pub proof fn lemma_parse_lines_run(ls: Seq<Seq<char>>)
    ensures
        parse_lines(ls) == parse_run(initial_parse_state(), ls),
    decreases ls.len(),
{
    if ls.len() > 0 {
        lemma_parse_lines_run(ls.drop_last());
    }
}

pub proof fn lemma_parse_run_append(st: ParseState, a: Seq<Seq<char>>, b: Seq<Seq<char>>)
    ensures
        parse_run(st, a + b) == parse_run(parse_run(st, a), b),
    decreases b.len(),
{
    if b.len() == 0 {
        assert(a + b =~= a);
    } else {
        assert((a + b).drop_last() =~= a + b.drop_last());
        lemma_parse_run_append(st, a, b.drop_last());
    }
}

proof fn lemma_parse_run_one(st: ParseState, l: Seq<char>)
    ensures
        parse_run(st, seq![l]) == parse_step(st, l),
{
    assert(seq![l].drop_last() =~= Seq::<Seq<char>>::empty());
    assert(parse_run(st, seq![l].drop_last()) == st);
}

// ---------------------------------------------------------------------------
// Trimming
// ---------------------------------------------------------------------------

proof fn lemma_trim_end_len(s: Seq<char>)
    ensures
        trim_end(s).len() <= s.len(),
        s.len() > 0 && is_ws(s.last()) ==> trim_end(s).len() < s.len(),
    decreases s.len(),
{
    if s.len() > 0 && is_ws(s.last()) {
        lemma_trim_end_len(s.drop_last());
    }
}

proof fn lemma_trim_start_len(s: Seq<char>)
    ensures
        trim_start(s).len() <= s.len(),
        s.len() > 0 && is_ws(s[0]) ==> trim_start(s).len() < s.len(),
    decreases s.len(),
{
    if s.len() > 0 && is_ws(s[0]) {
        lemma_trim_start_len(s.drop_first());
    }
}

/// Text whose ends are not whitespace is its own trim.
proof fn lemma_trim_fixed(s: Seq<char>)
    requires
        s.len() > 0 ==> !is_ws(s[0]) && !is_ws(s.last()),
    ensures
        trim(s) == s,
{
}

/// The ends of text that is its own trim are not whitespace.
proof fn lemma_trim_fixed_ends(s: Seq<char>)
    requires
        trim(s) == s,
        s.len() > 0,
    ensures
        !is_ws(s[0]),
        !is_ws(s.last()),
{
    lemma_trim_end_len(s);
    lemma_trim_start_len(trim_end(s));
    if !is_ws(s.last()) {
        lemma_trim_start_len(s);
    }
}

proof fn lemma_find_char_at(s: Seq<char>, c: char, k: int)
    requires
        0 <= k < s.len(),
        s[k] == c,
        forall|j: int| 0 <= j < k ==> s[j] != c,
    ensures
        find_char_from(s, c, 0) == Some(k),
{
    lemma_find_char_from_bounds(s, c, 0);
    match find_char_from(s, c, 0) {
        Some(m) => {
            if m > k {
                assert(s[k] != c);
            }
        },
        None => {
            assert(s[k] != c);
        },
    }
}

// ---------------------------------------------------------------------------
// One line at a time
// ---------------------------------------------------------------------------

/// A blank line changes nothing.
proof fn lemma_step_blank(st: ParseState)
    ensures
        parse_step(st, Seq::empty()) == st,
{
    reveal_strlit("# Comments");
    reveal_strlit("## Comments");
    reveal_strlit("### ");
    reveal_strlit("## ");
    reveal_strlit("#### ");
    reveal_strlit("> ");
    reveal_strlit("- ");
    assert(trim(Seq::<char>::empty()) =~= Seq::<char>::empty());
    assert(Seq::<char>::empty() != "# Comments"@);
    assert(Seq::<char>::empty() != "## Comments"@);
}

/// Outside the comments section, a line that is not its heading changes nothing.
proof fn lemma_step_outside(st: ParseState, l: Seq<char>)
    requires
        !st.in_section,
        trim(l) != "# Comments"@,
        trim(l) != "## Comments"@,
    ensures
        parse_step(st, l) == st,
{
}

/// The heading `## Comments` opens the comments section.
proof fn lemma_step_heading(st: ParseState)
    ensures
        parse_step(st, "## Comments"@) == (ParseState { in_section: true, ..st }),
{
    reveal_strlit("## Comments");
    lemma_trim_fixed("## Comments"@);
}

/// `### id` opens the section of the annotation `id`.
proof fn lemma_step_section(st: ParseState, id: Seq<char>)
    requires
        st.in_section,
        id.len() > 0,
        !is_ws(id.last()),
    ensures
        parse_step(st, "### "@ + id) == start_section(st, id),
{
    reveal_strlit("# Comments");
    reveal_strlit("## Comments");
    reveal_strlit("### ");
    let t = "### "@ + id;
    lemma_trim_fixed(t);
    assert(t[1] != "# Comments"@[1]);
    assert(t != "# Comments"@);
    assert(t[2] != "## Comments"@[2]);
    assert(t != "## Comments"@);
    assert(t.take(4) =~= "### "@);
    assert(t.skip("### "@.len() as int) =~= id);
}

/// The quote line `` > `q` `` records the quote of the open section.
proof fn lemma_step_quote(st: ParseState, q: Seq<char>)
    requires
        st.in_section,
        st.section_id is Some,
        q.len() > 0,
        q[0] != '`',
        q.last() != '`',
    ensures
        parse_step(st, "> `"@ + q + "`"@) == (ParseState { quote: q, ..st }),
{
    reveal_strlit("# Comments");
    reveal_strlit("## Comments");
    reveal_strlit("### ");
    reveal_strlit("## ");
    reveal_strlit("#### ");
    reveal_strlit("> ");
    reveal_strlit("> `");
    reveal_strlit("`");
    let t = "> `"@ + q + "`"@;
    lemma_trim_fixed(t);
    assert(t[0] != "# Comments"@[0]);
    assert(t != "# Comments"@);
    assert(t[0] != "## Comments"@[0]);
    assert(t != "## Comments"@);
    assert(t[0] != "### "@[0]);
    assert(!starts_with(t, "### "@));
    assert(t[0] != "## "@[0]);
    assert(!starts_with(t, "## "@));
    assert(t[0] != "#### "@[0]);
    assert(!starts_with(t, "#### "@));
    assert(t.take(2) =~= "> "@);
    let inner = t.skip("> "@.len() as int);
    assert(inner =~= seq!['`'] + q + seq!['`']);
    lemma_trim_fixed(inner);
    assert(inner.drop_last() =~= seq!['`'] + q);
    assert(trim_char_end(inner, '`') == trim_char_end(seq!['`'] + q, '`'));
    assert(trim_char_end(seq!['`'] + q, '`') == seq!['`'] + q);
    assert((seq!['`'] + q).drop_first() =~= q);
    assert(trim_char_start(seq!['`'] + q, '`') == trim_char_start(q, '`'));
    assert(trim_char_start(q, '`') == q);
}

/// Text without a line break.
pub open spec fn no_newline(s: Seq<char>) -> bool {
    forall|j: int| 0 <= j < s.len() ==> s[j] != '\n'
}

/// A comment that its line `- TIMESTAMP author: body` gives back: the
/// timestamp holds no space, the author no colon, none of them a line
/// break, and the body is its own trim.
pub open spec fn writable_comment(c: CommentView) -> bool {
    &&& no_newline(c.timestamp)
    &&& forall|j: int| 0 <= j < c.timestamp.len() ==> c.timestamp[j] != ' '
    &&& no_newline(c.author)
    &&& forall|j: int| 0 <= j < c.author.len() ==> c.author[j] != ':'
    &&& no_newline(c.body)
    &&& trim(c.body) == c.body
}

/// The line of a comment, without its line break.
pub open spec fn comment_line(c: CommentView) -> Seq<char> {
    "- "@ + c.timestamp + " "@ + c.author + ": "@ + c.body
}

/// A comment line adds its comment to the open section's thread.
proof fn lemma_step_comment(st: ParseState, c: CommentView)
    requires
        st.in_section,
        writable_comment(c),
    ensures
        parse_step(st, comment_line(c)) == (ParseState { comments: st.comments.push(c), ..st }),
{
    reveal_strlit("# Comments");
    reveal_strlit("## Comments");
    reveal_strlit("### ");
    reveal_strlit("## ");
    reveal_strlit("#### ");
    reveal_strlit("> ");
    reveal_strlit("- ");
    reveal_strlit(" ");
    reveal_strlit(": ");
    let ts = c.timestamp;
    let au = c.author;
    let body = c.body;
    let line = comment_line(c);
    let rest = if body.len() > 0 {
        au + seq![':', ' '] + body
    } else {
        au + seq![':']
    };
    let t = seq!['-', ' '] + ts + seq![' '] + rest;
    if body.len() > 0 {
        lemma_trim_fixed_ends(body);
        assert(line =~= t);
        lemma_trim_fixed(t);
    } else {
        assert(line.drop_last() =~= t);
        assert(trim_end(line) == trim_end(line.drop_last()));
        assert(trim_end(t) == t);
        assert(trim_start(t) == t);
    }
    assert(trim(line) == t);
    assert(t[0] != "# Comments"@[0]);
    assert(t != "# Comments"@);
    assert(t[0] != "## Comments"@[0]);
    assert(t != "## Comments"@);
    assert(t[0] != "### "@[0]);
    assert(!starts_with(t, "### "@));
    assert(t[0] != "## "@[0]);
    assert(!starts_with(t, "## "@));
    assert(t[0] != "#### "@[0]);
    assert(!starts_with(t, "#### "@));
    assert(t[0] != "> "@[0]);
    assert(!starts_with(t, "> "@));
    assert(t.take(2) =~= "- "@);
    let content = t.skip("- "@.len() as int);
    assert(content =~= ts + seq![' '] + rest);
    lemma_find_char_at(content, ' ', ts.len() as int);
    assert(content.take(ts.len() as int) =~= ts);
    let remaining = content.skip(ts.len() as int + 1);
    assert(remaining =~= rest);
    lemma_find_char_at(remaining, ':', au.len() as int);
    assert(remaining.take(au.len() as int) =~= au);
    let tail = remaining.skip(au.len() as int + 1);
    if body.len() > 0 {
        assert(tail =~= seq![' '] + body);
        assert(trim_end(tail) == tail);
        assert(tail.drop_first() =~= body);
        assert(trim_start(tail) == trim_start(body));
        assert(trim_start(body) == body);
    } else {
        assert(tail =~= Seq::<char>::empty());
        assert(trim(tail) =~= body);
    }
    assert(trim(tail) == body);
    assert(spec_parse_comment_line(t) == Some(c));
}

// ---------------------------------------------------------------------------
// One annotation at a time
// ---------------------------------------------------------------------------

proof fn lemma_comment_text(c: CommentView)
    requires
        writable_comment(c),
    ensures
        render_comment(c) == comment_line(c) + seq!['\n'],
        lines(render_comment(c)) == seq![comment_line(c)],
{
    reveal_strlit("- ");
    reveal_strlit(" ");
    reveal_strlit(": ");
    reveal_strlit("\n");
    let l = comment_line(c);
    assert(render_comment(c) =~= l + seq!['\n']);
    assert(no_newline(l));
    lemma_lines_single(l);
    if c.body.len() > 0 {
        lemma_trim_fixed_ends(c.body);
        assert(l.last() == c.body.last());
    } else {
        assert(l.last() == ' ');
    }
    assert(strip_cr(l) == l);
}

proof fn lemma_thread_ends(t: Seq<CommentView>)
    requires
        t.len() > 0,
    ensures
        render_thread(t).len() > 0,
        render_thread(t).last() == '\n',
{
    reveal_strlit("\n");
    let r = render_comment(t.last());
    assert(r.last() == '\n');
    assert(render_thread(t) == render_thread(t.drop_last()) + r);
}

/// The lines of a thread add its comments to the open section's thread.
proof fn lemma_step_thread(st: ParseState, t: Seq<CommentView>)
    requires
        st.in_section,
        forall|k: int| 0 <= k < t.len() ==> writable_comment(#[trigger] t[k]),
    ensures
        parse_run(st, lines(render_thread(t))) == (ParseState { comments: st.comments + t, ..st }),
    decreases t.len(),
{
    if t.len() == 0 {
        assert(render_thread(t) =~= Seq::<char>::empty());
        assert(lines(render_thread(t)) =~= Seq::<Seq<char>>::empty());
        assert(st.comments + t =~= st.comments);
    } else {
        let t0 = t.drop_last();
        let c = t.last();
        assert(writable_comment(t[t.len() - 1]));
        lemma_step_thread(st, t0);
        lemma_comment_text(c);
        let mid = ParseState { comments: st.comments + t0, ..st };
        if t0.len() > 0 {
            lemma_thread_ends(t0);
            lemma_lines_append(render_thread(t0), render_comment(c));
        } else {
            assert(render_thread(t0) =~= Seq::<char>::empty());
            assert(lines(render_thread(t0)) =~= Seq::<Seq<char>>::empty());
            assert(render_thread(t0) + render_comment(c) =~= render_comment(c));
        }
        assert(lines(render_thread(t)) =~= lines(render_thread(t0)) + seq![comment_line(c)]);
        lemma_parse_run_append(st, lines(render_thread(t0)), seq![comment_line(c)]);
        lemma_parse_run_one(mid, comment_line(c));
        lemma_step_comment(mid, c);
        assert(mid.comments.push(c) =~= st.comments + t);
    }
}

/// An annotation that its `###` section gives back, regular (not of a
/// code block): a non-empty id that ends in no whitespace, a quote that
/// neither begins nor ends with a backtick, no line breaks, and writable
/// comments.
pub open spec fn writable_regular(a: AnnotationView) -> bool {
    &&& a.codeblock_handle is None
    &&& a.code_range is None
    &&& a.id.len() > 0
    &&& no_newline(a.id)
    &&& !is_ws(a.id.last())
    &&& no_newline(a.quote)
    &&& (a.quote.len() > 0 ==> a.quote[0] != '`' && a.quote.last() != '`')
    &&& forall|k: int| 0 <= k < a.thread.len() ==> writable_comment(#[trigger] a.thread[k])
}

/// The state once the section of `a` has been read after `prev`.
pub open spec fn regular_state(prev: Seq<AnnotationView>, a: AnnotationView) -> ParseState {
    ParseState {
        anns: prev,
        in_section: true,
        section_id: Some(a.id),
        is_code: false,
        item_range: None,
        quote: a.quote,
        comments: a.thread,
    }
}

proof fn lemma_regular_ends(a: AnnotationView)
    ensures
        render_regular(a).len() > 0,
        render_regular(a).last() == '\n',
{
    reveal_strlit("\n### ");
    reveal_strlit("\n\n");
    reveal_strlit("> `");
    reveal_strlit("`\n\n");
    let head = "\n### "@ + a.id + "\n\n"@;
    if a.thread.len() > 0 {
        lemma_thread_ends(a.thread);
    } else {
        assert(render_thread(a.thread) =~= Seq::<char>::empty());
    }
    if a.quote.len() > 0 {
        assert(render_quote(a.quote).last() == '\n');
    } else {
        assert(render_quote(a.quote) =~= Seq::<char>::empty());
    }
    assert(head.last() == '\n');
}

/// Reading the section of a regular annotation flushes what was open and
/// leaves that annotation open.
proof fn lemma_step_regular(st: ParseState, a: AnnotationView)
    requires
        st.in_section,
        writable_regular(a),
    ensures
        parse_run(st, lines(render_regular(a))) == regular_state(flush_state(st), a),
{
    reveal_strlit("\n### ");
    reveal_strlit("\n\n");
    reveal_strlit("> `");
    reveal_strlit("`\n\n");
    reveal_strlit("### ");
    reveal_strlit("`");
    let x1 = seq!['\n'];
    let x2 = "### "@ + a.id + seq!['\n'];
    let q = render_quote(a.quote);
    let th = render_thread(a.thread);
    assert(render_regular(a) =~= x1 + (x2 + (x1 + (q + th))));
    // the lines of each piece
    lemma_lines_single(Seq::<char>::empty());
    assert(Seq::<char>::empty() + x1 =~= x1);
    assert(strip_cr(Seq::<char>::empty()) =~= Seq::<char>::empty());
    let l2 = "### "@ + a.id;
    assert(no_newline(l2));
    lemma_lines_single(l2);
    assert(l2 + seq!['\n'] =~= x2);
    assert(strip_cr(l2) == l2);
    lemma_lines_append(x1, x2 + (x1 + (q + th)));
    lemma_lines_append(x2, x1 + (q + th));
    lemma_lines_append(x1, q + th);
    let e = Seq::<char>::empty();
    let s0 = start_section(st, a.id);
    lemma_parse_run_append(st, seq![e], lines(x2 + (x1 + (q + th))));
    lemma_parse_run_one(st, e);
    lemma_step_blank(st);
    lemma_parse_run_append(st, seq![l2], lines(x1 + (q + th)));
    lemma_parse_run_one(st, l2);
    lemma_step_section(st, a.id);
    lemma_parse_run_append(s0, seq![e], lines(q + th));
    lemma_parse_run_one(s0, e);
    lemma_step_blank(s0);
    let s1 = ParseState { quote: a.quote, ..s0 };
    if a.quote.len() > 0 {
        let ql = "> `"@ + a.quote + "`"@;
        assert(no_newline(ql));
        assert(q =~= (ql + seq!['\n']) + x1);
        lemma_lines_single(ql);
        assert(strip_cr(ql) == ql);
        lemma_lines_append(ql + seq!['\n'], x1);
        assert(lines(q) =~= seq![ql, e]);
        lemma_lines_append(q, th);
        lemma_parse_run_append(s0, lines(q), lines(th));
        lemma_parse_run_append(s0, seq![ql], seq![e]);
        lemma_parse_run_one(s0, ql);
        lemma_step_quote(s0, a.quote);
        lemma_parse_run_one(s1, e);
        lemma_step_blank(s1);
        assert(parse_run(s0, lines(q)) == s1);
    } else {
        assert(q =~= Seq::<char>::empty());
        assert(q + th =~= th);
        assert(a.quote =~= Seq::<char>::empty());
        assert(s1 == s0);
    }
    lemma_step_thread(s1, a.thread);
    assert(s1.comments + a.thread =~= a.thread);
}

// ---------------------------------------------------------------------------
// Code block annotations
// ---------------------------------------------------------------------------

/// `#### range` opens the item of a code block's section.
proof fn lemma_step_code_range(st: ParseState, r: Seq<char>)
    requires
        st.in_section,
        r.len() > 0,
        !is_ws(r.last()),
    ensures
        parse_step(st, "#### "@ + r) == start_code_item(st, r),
{
    reveal_strlit("# Comments");
    reveal_strlit("## Comments");
    reveal_strlit("### ");
    reveal_strlit("## ");
    reveal_strlit("#### ");
    let t = "#### "@ + r;
    lemma_trim_fixed(t);
    assert(t[1] != "# Comments"@[1]);
    assert(t != "# Comments"@);
    assert(t[2] != "## Comments"@[2]);
    assert(t != "## Comments"@);
    assert(t[3] != "### "@[3]);
    assert(!starts_with(t, "### "@));
    assert(t[2] != "## "@[2]);
    assert(!starts_with(t, "## "@));
    assert(t.take(5) =~= "#### "@);
    assert(t.skip("#### "@.len() as int) =~= r);
}

/// A code block annotation whose `####` item gives it back: its range is
/// non-empty, ends in no whitespace and holds no line break; its quote and
/// comments are writable as those of a regular annotation.
pub open spec fn writable_code_item(a: AnnotationView) -> bool {
    &&& a.code_range matches Some(r) && r.len() > 0 && no_newline(r) && !is_ws(r.last())
    &&& no_newline(a.quote)
    &&& (a.quote.len() > 0 ==> a.quote[0] != '`' && a.quote.last() != '`')
    &&& forall|k: int| 0 <= k < a.thread.len() ==> writable_comment(#[trigger] a.thread[k])
}

/// The state once the item of `a` has been read after a state whose
/// annotations, once the open item is flushed, are `prev`.
pub open spec fn item_state(prev: Seq<AnnotationView>, h: Seq<char>, a: AnnotationView) -> ParseState {
    ParseState {
        anns: prev,
        in_section: true,
        section_id: Some(h),
        is_code: true,
        item_range: Some(range_text(a.code_range)),
        quote: a.quote,
        comments: a.thread,
    }
}

/// Reading a `####` item: a preceding item is flushed, the new one is open.
proof fn lemma_step_code_item(st: ParseState, h: Seq<char>, a: AnnotationView)
    requires
        st.in_section,
        st.section_id == Some(h),
        !(st.is_code && st.item_range is Some) ==> st.quote.len() == 0 && st.comments.len() == 0,
        writable_code_item(a),
    ensures
        parse_run(st, lines(render_code_item(a))) == item_state(
            if st.is_code && st.item_range is Some {
                flush_state(st)
            } else {
                st.anns
            },
            h,
            a,
        ),
{
    reveal_strlit("\n#### ");
    reveal_strlit("\n\n");
    reveal_strlit("> `");
    reveal_strlit("`\n\n");
    reveal_strlit("#### ");
    reveal_strlit("`");
    let r = range_text(a.code_range);
    let x1 = seq!['\n'];
    let x2 = "#### "@ + r + seq!['\n'];
    let q = render_quote(a.quote);
    let th = render_thread(a.thread);
    assert(render_code_item(a) =~= x1 + (x2 + (x1 + (q + th))));
    lemma_lines_single(Seq::<char>::empty());
    assert(Seq::<char>::empty() + x1 =~= x1);
    assert(strip_cr(Seq::<char>::empty()) =~= Seq::<char>::empty());
    let l2 = "#### "@ + r;
    assert(no_newline(l2));
    lemma_lines_single(l2);
    assert(l2 + seq!['\n'] =~= x2);
    assert(strip_cr(l2) == l2);
    lemma_lines_append(x1, x2 + (x1 + (q + th)));
    lemma_lines_append(x2, x1 + (q + th));
    lemma_lines_append(x1, q + th);
    let e = Seq::<char>::empty();
    let s0 = start_code_item(st, r);
    lemma_parse_run_append(st, seq![e], lines(x2 + (x1 + (q + th))));
    lemma_parse_run_one(st, e);
    lemma_step_blank(st);
    lemma_parse_run_append(st, seq![l2], lines(x1 + (q + th)));
    lemma_parse_run_one(st, l2);
    lemma_step_code_range(st, r);
    lemma_parse_run_append(s0, seq![e], lines(q + th));
    lemma_parse_run_one(s0, e);
    lemma_step_blank(s0);
    assert(s0.quote =~= Seq::<char>::empty());
    assert(s0.comments =~= Seq::<CommentView>::empty());
    let s1 = ParseState { quote: a.quote, ..s0 };
    if a.quote.len() > 0 {
        let ql = "> `"@ + a.quote + "`"@;
        assert(no_newline(ql));
        assert(q =~= (ql + seq!['\n']) + x1);
        lemma_lines_single(ql);
        assert(strip_cr(ql) == ql);
        lemma_lines_append(ql + seq!['\n'], x1);
        assert(lines(q) =~= seq![ql, e]);
        lemma_lines_append(q, th);
        lemma_parse_run_append(s0, lines(q), lines(th));
        lemma_parse_run_append(s0, seq![ql], seq![e]);
        lemma_parse_run_one(s0, ql);
        lemma_step_quote(s0, a.quote);
        lemma_parse_run_one(s1, e);
        lemma_step_blank(s1);
        assert(parse_run(s0, lines(q)) == s1);
    } else {
        assert(q =~= Seq::<char>::empty());
        assert(q + th =~= th);
        assert(a.quote =~= Seq::<char>::empty());
        assert(s1 == s0);
    }
    lemma_step_thread(s1, a.thread);
    assert(s1.comments + a.thread =~= a.thread);
}

/// The annotation that reading an item of the block `h` gives back: its id
/// derived from the handle and the range.
pub open spec fn code_view(h: Seq<char>, a: AnnotationView) -> AnnotationView {
    AnnotationView {
        id: spec_code_ann_id(h, range_text(a.code_range)),
        quote: a.quote,
        thread: a.thread,
        code_range: Some(range_text(a.code_range)),
        codeblock_handle: Some(h),
    }
}

/// The annotations that reading the items `items` of the block `h` gives back.
pub open spec fn code_views(h: Seq<char>, items: Seq<AnnotationView>) -> Seq<AnnotationView> {
    items.map_values(|a: AnnotationView| code_view(h, a))
}

proof fn lemma_items_ends(s: Seq<AnnotationView>)
    requires
        s.len() > 0,
    ensures
        render_code_items(s).len() > 0,
        render_code_items(s).last() == '\n',
{
    reveal_strlit("\n#### ");
    reveal_strlit("\n\n");
    reveal_strlit("`\n\n");
    let a = s.last();
    if a.thread.len() > 0 {
        lemma_thread_ends(a.thread);
    } else {
        assert(render_thread(a.thread) =~= Seq::<char>::empty());
    }
    if a.quote.len() > 0 {
        assert(render_quote(a.quote).last() == '\n');
    } else {
        assert(render_quote(a.quote) =~= Seq::<char>::empty());
    }
    assert(render_code_items(s) == render_code_items(s.drop_last()) + render_code_item(a));
}

/// Reading the items of the block `h`, opened by `st`, leaves the last one
/// open with the others read back.
proof fn lemma_step_code_items(st: ParseState, h: Seq<char>, items: Seq<AnnotationView>)
    requires
        st.in_section,
        st.section_id == Some(h),
        !st.is_code,
        st.quote.len() == 0,
        st.comments.len() == 0,
        items.len() > 0,
        forall|i: int| 0 <= i < items.len() ==> writable_code_item(#[trigger] items[i]),
    ensures
        parse_run(st, lines(render_code_items(items))) == item_state(
            st.anns + code_views(h, items.drop_last()),
            h,
            items.last(),
        ),
    decreases items.len(),
{
    let a = items.last();
    assert(writable_code_item(items[items.len() - 1]));
    let prev = items.drop_last();
    assert(render_code_items(items) == render_code_items(prev) + render_code_item(a));
    if prev.len() == 0 {
        assert(render_code_items(prev) =~= Seq::<char>::empty());
        assert(render_code_items(prev) + render_code_item(a) =~= render_code_item(a));
        lemma_step_code_item(st, h, a);
        assert(code_views(h, prev) =~= Seq::<AnnotationView>::empty());
        assert(st.anns + code_views(h, prev) =~= st.anns);
    } else {
        assert forall|i: int| 0 <= i < prev.len() implies writable_code_item(#[trigger] prev[i]) by {
            assert(prev[i] == items[i]);
        }
        lemma_step_code_items(st, h, prev);
        lemma_items_ends(prev);
        lemma_lines_append(render_code_items(prev), render_code_item(a));
        lemma_parse_run_append(st, lines(render_code_items(prev)), lines(render_code_item(a)));
        let mid = item_state(st.anns + code_views(h, prev.drop_last()), h, prev.last());
        assert(writable_code_item(prev[prev.len() - 1]));
        lemma_step_code_item(mid, h, a);
        assert(flush_state(mid) == mid.anns.push(code_view(h, prev.last())));
        assert(code_views(h, prev) =~= code_views(h, prev.drop_last()).push(code_view(h, prev.last())));
        assert(st.anns + code_views(h, prev.drop_last()) + seq![code_view(h, prev.last())] =~= st.anns
            + code_views(h, prev));
    }
}


// ---------------------------------------------------------------------------
// Groups of code block annotations
// ---------------------------------------------------------------------------

/// A handle that its `###` line gives back.
pub open spec fn writable_handle(h: Seq<char>) -> bool {
    h.len() > 0 && no_newline(h) && !is_ws(h.last())
}

/// The annotations that reading the groups `gs` gives back, group by group,
/// each group's items in the order of their ranges.
pub open spec fn read_back_groups(gs: Seq<(Seq<char>, Seq<AnnotationView>)>) -> Seq<AnnotationView>
    decreases gs.len(),
{
    if gs.len() == 0 {
        Seq::empty()
    } else {
        read_back_groups(gs.drop_last()) + code_views(gs.last().0, sort_by_range(gs.last().1))
    }
}

/// A group that its `###` section gives back: a writable handle and
/// writable items, at least one.
pub open spec fn writable_group(g: (Seq<char>, Seq<AnnotationView>)) -> bool {
    &&& writable_handle(g.0)
    &&& g.1.len() > 0
    &&& forall|i: int| 0 <= i < g.1.len() ==> writable_code_item(#[trigger] g.1[i])
}

proof fn lemma_sort_by_range_writable(s: Seq<AnnotationView>)
    requires
        forall|i: int| 0 <= i < s.len() ==> writable_code_item(#[trigger] s[i]),
    ensures
        sort_by_range(s).len() == s.len(),
        forall|i: int| 0 <= i < sort_by_range(s).len() ==> writable_code_item(#[trigger] sort_by_range(s)[i]),
    decreases s.len(),
{
    if s.len() > 0 {
        assert forall|i: int| 0 <= i < s.drop_last().len() implies writable_code_item(
            #[trigger] s.drop_last()[i],
        ) by {
            assert(s.drop_last()[i] == s[i]);
        }
        lemma_sort_by_range_writable(s.drop_last());
        let t = sort_by_range(s.drop_last());
        let x = s.last();
        assert(writable_code_item(s[s.len() - 1]));
        let p = insert_pos_from(t, x, 0);
        lemma_insert_pos_bounds(t, x, 0);
        assert forall|i: int| 0 <= i < t.insert(p, x).len() implies writable_code_item(
            #[trigger] t.insert(p, x)[i],
        ) by {
            if i < p {
                assert(t.insert(p, x)[i] == t[i]);
            } else if i > p {
                assert(t.insert(p, x)[i] == t[i - 1]);
            }
        }
    }
}

proof fn lemma_insert_pos_bounds(t: Seq<AnnotationView>, a: AnnotationView, j: int)
    requires
        0 <= j <= t.len(),
    ensures
        j <= insert_pos_from(t, a, j) <= t.len(),
    decreases t.len() - j,
{
    if j < t.len() && crate::store::opt_le(t[j].code_range, a.code_range) {
        lemma_insert_pos_bounds(t, a, j + 1);
    }
}

proof fn lemma_group_index(g: Seq<(Seq<char>, Seq<AnnotationView>)>, h: Seq<char>)
    ensures
        group_index(g, h) matches Some(i) ==> 0 <= i < g.len() && g[i].0 == h,
    decreases g.len(),
{
    if g.len() > 0 {
        lemma_group_index(g.drop_last(), h);
    }
}

/// Whether the comments section can carry `a`: a regular annotation as
/// `writable_regular` says, a code block annotation with a writable handle
/// and item.
pub open spec fn writable_annotation(a: AnnotationView) -> bool {
    match a.codeblock_handle {
        None => writable_regular(a),
        Some(h) => writable_handle(h) && writable_code_item(a),
    }
}

proof fn lemma_code_groups_writable(anns: Seq<AnnotationView>)
    requires
        forall|i: int| 0 <= i < anns.len() ==> writable_annotation(#[trigger] anns[i]),
    ensures
        forall|k: int| 0 <= k < code_groups(anns).len() ==> writable_group(#[trigger] code_groups(anns)[k]),
    decreases anns.len(),
{
    if anns.len() > 0 {
        assert forall|i: int| 0 <= i < anns.drop_last().len() implies writable_annotation(
            #[trigger] anns.drop_last()[i],
        ) by {
            assert(anns.drop_last()[i] == anns[i]);
        }
        lemma_code_groups_writable(anns.drop_last());
        let g = code_groups(anns.drop_last());
        let a = anns.last();
        assert(writable_annotation(anns[anns.len() - 1]));
        match a.codeblock_handle {
            None => {},
            Some(h) => {
                lemma_group_index(g, h);
                match group_index(g, h) {
                    Some(i) => {
                        let ng = g.update(i, (h, g[i].1.push(a)));
                        assert forall|k: int| 0 <= k < ng.len() implies writable_group(#[trigger] ng[k]) by {
                            if k == i {
                                assert(writable_group(g[i]));
                                assert forall|m: int| 0 <= m < ng[k].1.len() implies writable_code_item(
                                    #[trigger] ng[k].1[m],
                                ) by {
                                    if m < g[i].1.len() {
                                        assert(ng[k].1[m] == g[i].1[m]);
                                    }
                                }
                            } else {
                                assert(ng[k] == g[k]);
                            }
                        }
                    },
                    None => {
                        let ng = g.push((h, seq![a]));
                        assert forall|k: int| 0 <= k < ng.len() implies writable_group(#[trigger] ng[k]) by {
                            if k < g.len() {
                                assert(ng[k] == g[k]);
                            } else {
                                assert forall|m: int| 0 <= m < ng[k].1.len() implies writable_code_item(
                                    #[trigger] ng[k].1[m],
                                ) by {
                                    assert(ng[k].1[m] == a);
                                }
                            }
                        }
                    },
                }
            },
        }
    }
}

/// The state once the section of the group `(h, items)` has been read
/// after a state whose annotations, flushed, are `prev`.
pub open spec fn group_state(prev: Seq<AnnotationView>, h: Seq<char>, items: Seq<AnnotationView>) -> ParseState {
    item_state(prev + code_views(h, items.drop_last()), h, items.last())
}

proof fn lemma_flush_group_state(prev: Seq<AnnotationView>, h: Seq<char>, items: Seq<AnnotationView>)
    requires
        items.len() > 0,
    ensures
        flush_state(group_state(prev, h, items)) == prev + code_views(h, items),
{
    assert(code_views(h, items) =~= code_views(h, items.drop_last()).push(code_view(h, items.last())));
    assert(prev + code_views(h, items.drop_last()) + seq![code_view(h, items.last())] =~= prev + code_views(
        h,
        items,
    ));
}

/// The text of one group: its `###` line and its items in range order.
pub open spec fn group_text(g: (Seq<char>, Seq<AnnotationView>)) -> Seq<char> {
    "\n### "@ + g.0 + "\n"@ + render_code_items(sort_by_range(g.1))
}

proof fn lemma_step_group(st: ParseState, g: (Seq<char>, Seq<AnnotationView>))
    requires
        st.in_section,
        writable_group(g),
    ensures
        parse_run(st, lines(group_text(g))) == group_state(flush_state(st), g.0, sort_by_range(g.1)),
        flush_state(parse_run(st, lines(group_text(g)))) == flush_state(st) + code_views(
            g.0,
            sort_by_range(g.1),
        ),
{
    reveal_strlit("\n### ");
    reveal_strlit("\n");
    reveal_strlit("### ");
    let h = g.0;
    let items = sort_by_range(g.1);
    lemma_sort_by_range_writable(g.1);
    let x1 = seq!['\n'];
    let l2 = "### "@ + h;
    let rci = render_code_items(items);
    assert(group_text(g) =~= x1 + ((l2 + x1) + rci));
    let e = Seq::<char>::empty();
    lemma_lines_single(e);
    assert(e + x1 =~= x1);
    assert(strip_cr(e) =~= e);
    assert(no_newline(l2));
    lemma_lines_single(l2);
    assert(strip_cr(l2) == l2);
    lemma_lines_append(x1, (l2 + x1) + rci);
    lemma_lines_append(l2 + x1, rci);
    lemma_parse_run_append(st, seq![e], lines((l2 + x1) + rci));
    lemma_parse_run_one(st, e);
    lemma_step_blank(st);
    lemma_parse_run_append(st, seq![l2], lines(rci));
    lemma_parse_run_one(st, l2);
    lemma_step_section(st, h);
    let s0 = start_section(st, h);
    lemma_step_code_items(s0, h, items);
    lemma_flush_group_state(flush_state(st), h, items);
}

proof fn lemma_groups_ends(gs: Seq<(Seq<char>, Seq<AnnotationView>)>)
    requires
        gs.len() > 0,
        writable_group(gs.last()),
    ensures
        render_groups(gs).len() > 0,
        render_groups(gs).last() == '\n',
{
    lemma_sort_by_range_writable(gs.last().1);
    lemma_items_ends(sort_by_range(gs.last().1));
    assert(render_groups(gs) =~= render_groups(gs.drop_last()) + group_text(gs.last()));
}

/// Reading the groups `gs` after `st` adds what `read_back_groups` says.
proof fn lemma_step_groups(st: ParseState, gs: Seq<(Seq<char>, Seq<AnnotationView>)>)
    requires
        st.in_section,
        forall|k: int| 0 <= k < gs.len() ==> writable_group(#[trigger] gs[k]),
    ensures
        parse_run(st, lines(render_groups(gs))).in_section,
        flush_state(parse_run(st, lines(render_groups(gs)))) == flush_state(st) + read_back_groups(gs),
    decreases gs.len(),
{
    if gs.len() == 0 {
        assert(render_groups(gs) =~= Seq::<char>::empty());
        assert(lines(render_groups(gs)) =~= Seq::<Seq<char>>::empty());
        assert(flush_state(st) + read_back_groups(gs) =~= flush_state(st));
    } else {
        let prev = gs.drop_last();
        let g = gs.last();
        assert(writable_group(gs[gs.len() - 1]));
        assert forall|k: int| 0 <= k < prev.len() implies writable_group(#[trigger] prev[k]) by {
            assert(prev[k] == gs[k]);
        }
        lemma_step_groups(st, prev);
        assert(render_groups(gs) =~= render_groups(prev) + group_text(g));
        if prev.len() > 0 {
            assert(writable_group(prev[prev.len() - 1]));
            lemma_groups_ends(prev);
            lemma_lines_append(render_groups(prev), group_text(g));
        } else {
            assert(render_groups(prev) =~= Seq::<char>::empty());
            assert(render_groups(prev) + group_text(g) =~= group_text(g));
            assert(lines(render_groups(prev)) =~= Seq::<Seq<char>>::empty());
            assert(lines(render_groups(prev)) + lines(group_text(g)) =~= lines(group_text(g)));
        }
        lemma_parse_run_append(st, lines(render_groups(prev)), lines(group_text(g)));
        let mid = parse_run(st, lines(render_groups(prev)));
        lemma_step_group(mid, g);
        assert(flush_state(st) + read_back_groups(prev) + code_views(g.0, sort_by_range(g.1)) =~= flush_state(
            st,
        ) + read_back_groups(gs));
    }
}

// ---------------------------------------------------------------------------
// The whole file
// ---------------------------------------------------------------------------

/// The state once the comments heading has been read.
pub open spec fn section_open_state() -> ParseState {
    ParseState { in_section: true, ..initial_parse_state() }
}

/// The regular annotations of `anns`, in order.
pub open spec fn regular_part(anns: Seq<AnnotationView>) -> Seq<AnnotationView>
    decreases anns.len(),
{
    if anns.len() == 0 {
        Seq::empty()
    } else if anns.last().codeblock_handle is None {
        regular_part(anns.drop_last()).push(anns.last())
    } else {
        regular_part(anns.drop_last())
    }
}

/// The state once the regular sections for `anns` have been read.
pub open spec fn regulars_state(anns: Seq<AnnotationView>) -> ParseState {
    let rp = regular_part(anns);
    if rp.len() == 0 {
        section_open_state()
    } else {
        regular_state(rp.drop_last(), rp.last())
    }
}

proof fn lemma_regulars_ends(s: Seq<AnnotationView>)
    ensures
        render_regulars(s).len() == 0 || render_regulars(s).last() == '\n',
    decreases s.len(),
{
    if s.len() > 0 {
        lemma_regulars_ends(s.drop_last());
        if s.last().codeblock_handle is None {
            lemma_regular_ends(s.last());
            assert(render_regulars(s) == render_regulars(s.drop_last()) + render_regular(s.last()));
        } else {
            assert(render_regulars(s) =~= render_regulars(s.drop_last()));
        }
    }
}

proof fn lemma_step_regulars(anns: Seq<AnnotationView>)
    requires
        forall|i: int| 0 <= i < anns.len() ==> writable_annotation(#[trigger] anns[i]),
    ensures
        parse_run(section_open_state(), lines(render_regulars(anns))) == regulars_state(anns),
        flush_state(regulars_state(anns)) == regular_part(anns),
    decreases anns.len(),
{
    if anns.len() == 0 {
        assert(lines(Seq::<char>::empty()) =~= Seq::<Seq<char>>::empty());
        assert(flush_state(section_open_state()) =~= Seq::<AnnotationView>::empty());
    } else {
        let prev = anns.drop_last();
        let a = anns.last();
        assert(writable_annotation(anns[anns.len() - 1]));
        assert forall|i: int| 0 <= i < prev.len() implies writable_annotation(#[trigger] prev[i]) by {
            assert(prev[i] == anns[i]);
        }
        lemma_step_regulars(prev);
        if a.codeblock_handle is None {
            assert(render_regulars(anns) == render_regulars(prev) + render_regular(a));
            lemma_regulars_ends(prev);
            if render_regulars(prev).len() > 0 {
                lemma_lines_append(render_regulars(prev), render_regular(a));
            } else {
                assert(render_regulars(prev) + render_regular(a) =~= render_regular(a));
                assert(lines(render_regulars(prev)) =~= Seq::<Seq<char>>::empty());
                assert(lines(render_regulars(prev)) + lines(render_regular(a)) =~= lines(
                    render_regular(a),
                ));
            }
            lemma_parse_run_append(
                section_open_state(),
                lines(render_regulars(prev)),
                lines(render_regular(a)),
            );
            lemma_step_regular(regulars_state(prev), a);
            assert(regular_part(anns) == regular_part(prev).push(a));
            assert(regular_part(anns).drop_last() =~= regular_part(prev));
        } else {
            assert(render_regulars(anns) =~= render_regulars(prev));
        }
    }
}

/// Outside the comments section, lines that are not its heading change nothing.
proof fn lemma_run_outside(st: ParseState, ls: Seq<Seq<char>>)
    requires
        !st.in_section,
        forall|j: int|
            0 <= j < ls.len() ==> trim(#[trigger] ls[j]) != "# Comments"@ && trim(ls[j])
                != "## Comments"@,
    ensures
        parse_run(st, ls) == st,
    decreases ls.len(),
{
    if ls.len() > 0 {
        lemma_run_outside(st, ls.drop_last());
        let l = ls.last();
        assert(trim(ls[ls.len() - 1]) != "# Comments"@);
        lemma_step_outside(st, l);
    }
}

proof fn lemma_trim_end_last(x: Seq<char>)
    ensures
        trim_end(x).len() > 0 ==> !is_ws(trim_end(x).last()),
    decreases x.len(),
{
    if x.len() > 0 && is_ws(x.last()) {
        lemma_trim_end_last(x.drop_last());
    }
}

/// The body that the comments section follows: the text before the old
/// comments section, without trailing whitespace.
pub open spec fn reify_body(content: Seq<char>) -> Seq<char> {
    trim_end(spec_strip_comments_section(content))
}

/// Whether no line of the body reads as the comments heading.
pub open spec fn body_without_heading(content: Seq<char>) -> bool {
    forall|j: int|
        0 <= j < lines(reify_body(content)).len() ==> trim(#[trigger] lines(reify_body(content))[j])
            != "# Comments"@ && trim(lines(reify_body(content))[j]) != "## Comments"@
}

/// Reading the comments section back gives the annotations written into it:
/// after `reify_markdown_comments(content, anns)`, `parse_markdown_comments`
/// returns the regular annotations of `anns` in order, then, block by block,
/// its code block annotations in the order of their ranges, each with the id
/// derived from its handle and range. This holds where the line format can
/// carry each annotation (`writable_annotation`) and no line of the body
/// reads as the comments heading.
pub proof fn law_parse_after_reify(content: Seq<char>, anns: Seq<AnnotationView>)
    requires
        forall|i: int| 0 <= i < anns.len() ==> writable_annotation(#[trigger] anns[i]),
        body_without_heading(content),
    ensures
        spec_parse_markdown_comments(spec_reify(content, anns)) == regular_part(anns) + read_back_groups(
            code_groups(anns),
        ),
{
    reveal_strlit("\n\n---\n\n## Comments\n");
    reveal_strlit("## Comments");
    reveal_strlit("# Comments");
    let body = reify_body(content);
    let init = initial_parse_state();
    lemma_parse_lines_run(lines(spec_reify(content, anns)));
    lemma_run_outside(init, lines(body));
    if anns.len() == 0 {
        assert(spec_reify(content, anns) == body);
        assert(flush_state(init) =~= Seq::<AnnotationView>::empty());
        assert(regular_part(anns) + read_back_groups(code_groups(anns)) =~= Seq::<
            AnnotationView,
        >::empty());
    } else {
        let r = render_regulars(anns) + render_groups(code_groups(anns));
        let x1 = seq!['\n'];
        let e = Seq::<char>::empty();
        let rule = seq!['-', '-', '-'];
        let heading = "## Comments"@;
        let h2 = x1 + ((rule + x1) + (x1 + ((heading + x1) + r)));
        lemma_lines_single(e);
        assert(e + x1 =~= x1);
        assert(strip_cr(e) =~= e);
        lemma_lines_single(rule);
        assert(strip_cr(rule) == rule);
        lemma_lines_single(heading);
        assert(strip_cr(heading) == heading);
        lemma_lines_append(x1, (rule + x1) + (x1 + ((heading + x1) + r)));
        lemma_lines_append(rule + x1, x1 + ((heading + x1) + r));
        lemma_lines_append(x1, (heading + x1) + r);
        lemma_lines_append(heading + x1, r);
        assert(lines(h2) =~= seq![e, rule, e, heading] + lines(r));
        let text = spec_reify(content, anns);
        let pre: Seq<Seq<char>>;
        if body.len() > 0 {
            lemma_trim_end_last(spec_strip_comments_section(content));
            assert(text =~= (body + x1) + h2);
            lemma_lines_append(body + x1, h2);
            lemma_lines_terminated(body);
            pre = lines(body);
        } else {
            assert(text =~= x1 + h2);
            lemma_lines_append(x1, h2);
            pre = seq![e];
            lemma_parse_run_one(init, e);
            lemma_step_blank(init);
        }
        assert(parse_run(init, pre) == init);
        assert(lines(text) =~= pre + (seq![e, rule, e, heading] + lines(r)));
        lemma_parse_run_append(init, pre, seq![e, rule, e, heading] + lines(r));
        lemma_parse_run_append(init, seq![e, rule, e, heading], lines(r));
        lemma_trim_fixed(rule);
        assert(rule != "# Comments"@);
        assert(rule != "## Comments"@);
        assert(trim(e) =~= e);
        assert(e != "# Comments"@);
        assert(e != "## Comments"@);
        lemma_run_outside(init, seq![e, rule, e]);
        assert(seq![e, rule, e, heading] =~= seq![e, rule, e] + seq![heading]);
        lemma_parse_run_append(init, seq![e, rule, e], seq![heading]);
        lemma_parse_run_one(init, heading);
        lemma_step_heading(init);
        assert(parse_run(init, seq![e, rule, e, heading]) == section_open_state());
        // the regular sections, then the code block groups
        let rr = render_regulars(anns);
        let rg = render_groups(code_groups(anns));
        lemma_step_regulars(anns);
        lemma_code_groups_writable(anns);
        lemma_regulars_ends(anns);
        if rr.len() > 0 {
            lemma_lines_append(rr, rg);
        } else {
            assert(rr + rg =~= rg);
            assert(lines(rr) =~= Seq::<Seq<char>>::empty());
            assert(lines(rr) + lines(rg) =~= lines(rg));
        }
        lemma_parse_run_append(section_open_state(), lines(rr), lines(rg));
        let st = regulars_state(anns);
        lemma_step_groups(st, code_groups(anns));
    }
}


proof fn lemma_regular_part_all(anns: Seq<AnnotationView>)
    requires
        forall|i: int| 0 <= i < anns.len() ==> (#[trigger] anns[i]).codeblock_handle is None,
    ensures
        regular_part(anns) == anns,
        code_groups(anns) == Seq::<(Seq<char>, Seq<AnnotationView>)>::empty(),
    decreases anns.len(),
{
    if anns.len() > 0 {
        assert(anns[anns.len() - 1].codeblock_handle is None);
        lemma_regular_part_all(anns.drop_last());
        assert(anns.drop_last().push(anns.last()) =~= anns);
    }
}

/// For regular annotations alone, reading back after writing gives exactly
/// the annotations written, in order.
pub proof fn law_parse_after_reify_regular(content: Seq<char>, anns: Seq<AnnotationView>)
    requires
        forall|i: int| 0 <= i < anns.len() ==> writable_regular(#[trigger] anns[i]),
        body_without_heading(content),
    ensures
        spec_parse_markdown_comments(spec_reify(content, anns)) == anns,
{
    assert forall|i: int| 0 <= i < anns.len() implies writable_annotation(#[trigger] anns[i]) by {
        assert(writable_regular(anns[i]));
    }
    assert forall|i: int| 0 <= i < anns.len() implies (#[trigger] anns[i]).codeblock_handle is None by {
        assert(writable_regular(anns[i]));
    }
    law_parse_after_reify(content, anns);
    lemma_regular_part_all(anns);
    assert(read_back_groups(Seq::<(Seq<char>, Seq<AnnotationView>)>::empty()) =~= Seq::<
        AnnotationView,
    >::empty());
    assert(anns + Seq::<AnnotationView>::empty() =~= anns);
}

} // verus!
