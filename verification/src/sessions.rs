//! Recently connected sessions: the README excerpt shown for a project and
//! the update of the most-recent-first list of sessions.

use vstd::prelude::*;
use crate::text::{
    str_chars, chars_to_string, push_range, find_char_vec_from, find_char_from,
    lemma_find_char_from_bounds, trim, trim_vec, lines, lines_vec, views, starts_with, has_prefix,
    push_all,
};
use crate::kdl_tree::opt_str;
use crate::paths::{join_relative, join_path, join_relative_path, join_path_str};

verus! {

/// One entry of the recent-sessions list.
#[derive(Debug, Clone, PartialEq)]
pub struct RecentSessionEntry {
    pub session_name: String,
    pub connected_at: String,
    pub readme_excerpt: Option<String>,
}

/// The body of a request to record a session connection.
#[derive(Debug, Clone, PartialEq)]
pub struct RecordRequest {
    pub session_name: String,
}

pub struct RecentSessionEntryView {
    pub session_name: Seq<char>,
    pub connected_at: Seq<char>,
    pub readme_excerpt: Option<Seq<char>>,
}

impl View for RecentSessionEntry {
    type V = RecentSessionEntryView;

    open spec fn view(&self) -> RecentSessionEntryView {
        RecentSessionEntryView {
            session_name: self.session_name@,
            connected_at: self.connected_at@,
            readme_excerpt: opt_str(self.readme_excerpt),
        }
    }
}

// ---------------------------------------------------------------------------
// Inline Markdown
// ---------------------------------------------------------------------------

/// `s[i..]` with inline Markdown markers removed: a link `[text](url)` gives
/// `text` (an unclosed `[` stays, with the rest of the text), `*`, `**`, `_`
/// and `__` markers and backticks are dropped.
pub open spec fn strip_md_from(s: Seq<char>, i: int) -> Seq<char>
    decreases s.len() - i,
{
    if i < 0 || i >= s.len() {
        Seq::empty()
    } else {
        let c = s[i];
        if c == '[' {
            match find_char_from(s, ']', i + 1) {
                Some(k) => {
                    proof {
                        lemma_find_char_from_bounds(s, ']', i + 1);
                    }
                    let text = s.subrange(i + 1, k);
                    if k + 1 < s.len() && s[k + 1] == '(' {
                        match find_char_from(s, ')', k + 2) {
                            Some(m) => {
                                proof {
                                    lemma_find_char_from_bounds(s, ')', k + 2);
                                }
                                text + strip_md_from(s, m + 1)
                            },
                            None => text,
                        }
                    } else {
                        text + strip_md_from(s, k + 1)
                    }
                },
                None => seq!['['] + s.subrange(i + 1, s.len() as int),
            }
        } else if c == '*' || c == '_' {
            if i + 1 < s.len() && s[i + 1] == c {
                strip_md_from(s, i + 2)
            } else {
                strip_md_from(s, i + 1)
            }
        } else if c == '`' {
            strip_md_from(s, i + 1)
        } else {
            seq![c] + strip_md_from(s, i + 1)
        }
    }
}

/// `input` with inline Markdown markers removed, then trimmed.
pub open spec fn spec_strip_inline_md(input: Seq<char>) -> Seq<char> {
    trim(strip_md_from(input, 0))
}

fn strip_md(s: &[char]) -> (r: Vec<char>)
    ensures
        r@ == strip_md_from(s@, 0),
{
    let mut out: Vec<char> = Vec::new();
    let mut i: usize = 0;
    while i < s.len()
        invariant
            i <= s@.len(),
            out@ + strip_md_from(s@, i as int) == strip_md_from(s@, 0),
        decreases s@.len() - i,
    {
        let c = s[i];
        if c == '[' {
            proof {
                lemma_find_char_from_bounds(s@, ']', i + 1);
            }
            match find_char_vec_from(s, ']', i + 1) {
                Some(k) => {
                    let ghost before = out@;
                    push_range(&mut out, s, i + 1, k);
                    if k + 1 < s.len() && s[k + 1] == '(' {
                        proof {
                            lemma_find_char_from_bounds(s@, ')', k + 2);
                        }
                        match find_char_vec_from(s, ')', k + 2) {
                            Some(m) => {
                                assert(out@ + strip_md_from(s@, m + 1) =~= before + strip_md_from(
                                    s@,
                                    i as int,
                                ));
                                i = m + 1;
                            },
                            None => {
                                assert(out@ =~= before + strip_md_from(s@, i as int));
                                assert(out@ =~= strip_md_from(s@, 0));
                                return out;
                            },
                        }
                    } else {
                        assert(out@ + strip_md_from(s@, k + 1) =~= before + strip_md_from(
                            s@,
                            i as int,
                        ));
                        i = k + 1;
                    }
                },
                None => {
                    let ghost before = out@;
                    out.push('[');
                    push_range(&mut out, s, i + 1, s.len());
                    assert(out@ =~= before + strip_md_from(s@, i as int));
                    assert(out@ =~= strip_md_from(s@, 0));
                    return out;
                },
            }
        } else if c == '*' || c == '_' {
            if i + 1 < s.len() && s[i + 1] == c {
                i = i + 2;
            } else {
                i = i + 1;
            }
        } else if c == '`' {
            i = i + 1;
        } else {
            assert(out@.push(c) + strip_md_from(s@, i + 1) =~= out@ + strip_md_from(s@, i as int));
            out.push(c);
            i = i + 1;
        }
    }
    assert(out@ + strip_md_from(s@, i as int) =~= out@);
    out
}

/// Strip common inline Markdown markers (bold, italic, code, links) and trim.
pub fn strip_inline_md(input: &str) -> (r: String)
    ensures
        r@ == spec_strip_inline_md(input@),
{
    let chars = str_chars(input);
    let stripped = strip_md(&chars);
    let trimmed = trim_vec(&stripped);
    chars_to_string(&trimmed)
}

// ---------------------------------------------------------------------------
// README excerpt
// ---------------------------------------------------------------------------

/// Whether a trimmed line ends a paragraph: a heading or a rule.
pub open spec fn is_break_line(t: Seq<char>) -> bool {
    starts_with(t, "#"@) || starts_with(t, "---"@) || starts_with(t, "==="@)
}

/// The first paragraph of `ls[i..]` that is not a heading, its trimmed lines
/// joined with single spaces, continuing `para`.
pub open spec fn first_paragraph(ls: Seq<Seq<char>>, i: int, para: Seq<char>) -> Seq<char>
    decreases ls.len() - i,
{
    if i < 0 || i >= ls.len() {
        para
    } else {
        let t = trim(ls[i]);
        if is_break_line(t) || t.len() == 0 {
            if para.len() > 0 {
                para
            } else {
                first_paragraph(ls, i + 1, para)
            }
        } else {
            first_paragraph(
                ls,
                i + 1,
                if para.len() > 0 {
                    para + seq![' '] + t
                } else {
                    t
                },
            )
        }
    }
}

/// The excerpt shown for a project's README: the first non-heading
/// paragraph without inline Markdown, cut to 200 characters followed by `…`.
pub open spec fn spec_readme_excerpt(markdown: Seq<char>) -> Option<Seq<char>> {
    let para = first_paragraph(lines(markdown), 0, Seq::empty());
    if para.len() == 0 {
        None
    } else {
        let s = spec_strip_inline_md(para);
        if s.len() == 0 {
            None
        } else if s.len() > 200 {
            Some(s.take(200).push('…'))
        } else {
            Some(s)
        }
    }
}

/// Extract the first non-heading, non-empty paragraph from Markdown, with
/// inline markers removed and cut to 200 characters.
pub fn readme_excerpt(markdown: &str) -> (r: Option<String>)
    ensures
        opt_str(r) == spec_readme_excerpt(markdown@),
{
    let chars = str_chars(markdown);
    let ls = lines_vec(&chars);
    let ghost lv = views(ls@);
    let mut para: Vec<char> = Vec::new();
    let mut i: usize = 0;
    while i < ls.len()
        invariant
            i <= ls@.len(),
            lv == views(ls@),
            lv == lines(markdown@),
            first_paragraph(lv, 0, Seq::empty()) == first_paragraph(lv, i as int, para@),
        ensures
            para@ == first_paragraph(lv, 0, Seq::empty()),
        decreases ls@.len() - i,
    {
        assert(lv[i as int] == ls@[i as int]@);
        let t = trim_vec(&ls[i]);
        let is_break = has_prefix(&t, &str_chars("#")) || has_prefix(&t, &str_chars("---"))
            || has_prefix(&t, &str_chars("==="));
        let ghost before = para@;
        if is_break || t.len() == 0 {
            if para.len() > 0 {
                break;
            }
        } else {
            if para.len() > 0 {
                para.push(' ');
            }
            push_all(&mut para, &t);
            assert(para@ =~= if before.len() > 0 {
                before + seq![' '] + t@
            } else {
                t@
            });
        }
        i = i + 1;
    }
    if para.len() == 0 {
        return None;
    }
    let stripped = strip_md(&para);
    let s = trim_vec(&stripped);
    if s.len() == 0 {
        return None;
    }
    if s.len() > 200 {
        let mut cut: Vec<char> = Vec::new();
        push_range(&mut cut, &s, 0, 200);
        cut.push('…');
        assert(cut@ =~= s@.take(200).push('…'));
        Some(chars_to_string(&cut))
    } else {
        Some(chars_to_string(&s))
    }
}

// ---------------------------------------------------------------------------
// The recent-sessions list
// ---------------------------------------------------------------------------

/// How many sessions the recent list keeps.
pub const MAX_RECENT_SESSIONS: usize = 10;

/// `s` without the entries of the session `name`, order kept.
pub open spec fn without_session(s: Seq<RecentSessionEntryView>, name: Seq<char>) -> Seq<
    RecentSessionEntryView,
>
    decreases s.len(),
{
    if s.len() == 0 {
        Seq::empty()
    } else {
        let rest = without_session(s.drop_last(), name);
        if s.last().session_name == name {
            rest
        } else {
            rest.push(s.last())
        }
    }
}

/// The list after a connection to `e.session_name`: its older entry
/// removed, `e` first, at most ten entries kept.
pub open spec fn record_in(s: Seq<RecentSessionEntryView>, e: RecentSessionEntryView) -> Seq<
    RecentSessionEntryView,
> {
    let l = seq![e] + without_session(s, e.session_name);
    if l.len() > MAX_RECENT_SESSIONS {
        l.take(MAX_RECENT_SESSIONS as int)
    } else {
        l
    }
}

/// The views of a list of entries.
pub open spec fn entry_views(v: Seq<RecentSessionEntry>) -> Seq<RecentSessionEntryView> {
    v.map_values(|e: RecentSessionEntry| e@)
}

/// Record a connection: drop the older entry of the same session, put
/// `entry` first and keep the ten most recent.
pub fn record_session_entry(entries: Vec<RecentSessionEntry>, entry: RecentSessionEntry) -> (r: Vec<
    RecentSessionEntry,
>)
    ensures
        entry_views(r@) == record_in(entry_views(entries@), entry@),
{
    let ghost name = entry@.session_name;
    let name_s = entry.session_name.clone();
    let mut out: Vec<RecentSessionEntry> = Vec::new();
    out.push(entry);
    let ghost first = out@[0]@;
    let mut i: usize = 0;
    while i < entries.len()
        invariant
            i <= entries@.len(),
            out@.len() >= 1,
            out@[0]@ == first,
            first == entry@,
            name == entry@.session_name,
            name_s@ == name,
            entry_views(out@) == seq![first] + without_session(
                entry_views(entries@.take(i as int)),
                name,
            ),
        decreases entries@.len() - i,
    {
        proof {
            assert(entry_views(entries@.take(i + 1)).drop_last() =~= entry_views(
                entries@.take(i as int),
            ));
            assert(entry_views(entries@.take(i + 1)).last() == entries@[i as int]@);
        }
        if entries[i].session_name != name_s {
            let e = entries[i].clone_entry();
            let ghost ov = entry_views(out@);
            out.push(e);
            assert(entry_views(out@) =~= ov.push(e@));
        }
        i = i + 1;
    }
    assert(entries@.take(entries@.len() as int) =~= entries@);
    if out.len() > MAX_RECENT_SESSIONS {
        out.truncate(MAX_RECENT_SESSIONS);
        assert(entry_views(out@) =~= (seq![first] + without_session(entry_views(entries@), name)).take(
            MAX_RECENT_SESSIONS as int,
        ));
    }
    out
}

impl RecentSessionEntry {
    /// A copy of this entry.
    pub fn clone_entry(&self) -> (r: RecentSessionEntry)
        ensures
            r@ == self@,
    {
        RecentSessionEntry {
            session_name: self.session_name.clone(),
            connected_at: self.connected_at.clone(),
            readme_excerpt: match &self.readme_excerpt {
                Some(s) => Some(s.clone()),
                None => None,
            },
        }
    }
}

/// The file holding the recent-sessions list, in the projects directory.
pub fn sessions_file(projects_path: &str) -> (r: String)
    ensures
        r@ == join_relative(join_relative(projects_path@, ".zelland"@), "recent_sessions.json"@),
{
    let dir = join_relative_path(projects_path, ".zelland");
    join_relative_path(dir.as_str(), "recent_sessions.json")
}

/// The README of the project of a session.
pub fn session_readme_path(projects_path: &str, session_name: &str) -> (r: String)
    ensures
        r@ == join_relative(join_path(projects_path@, session_name@), "README.md"@),
{
    let dir = join_path_str(projects_path, session_name);
    join_relative_path(dir.as_str(), "README.md")
}

proof fn lemma_without_session_absent(s: Seq<RecentSessionEntryView>, name: Seq<char>)
    ensures
        forall|j: int|
            0 <= j < without_session(s, name).len() ==> (#[trigger] without_session(s, name)[j]).session_name
                != name,
        without_session(s, name).len() <= s.len(),
    decreases s.len(),
{
    if s.len() > 0 {
        lemma_without_session_absent(s.drop_last(), name);
    }
}

proof fn lemma_without_session_noop(s: Seq<RecentSessionEntryView>, name: Seq<char>)
    requires
        forall|j: int| 0 <= j < s.len() ==> (#[trigger] s[j]).session_name != name,
    ensures
        without_session(s, name) == s,
    decreases s.len(),
{
    if s.len() > 0 {
        assert(s[s.len() - 1].session_name != name);
        lemma_without_session_noop(s.drop_last(), name);
        assert(s.drop_last().push(s.last()) =~= s);
    }
}

proof fn lemma_without_session_cons(e: RecentSessionEntryView, s: Seq<RecentSessionEntryView>)
    ensures
        without_session(seq![e] + s, e.session_name) == without_session(s, e.session_name),
    decreases s.len(),
{
    if s.len() == 0 {
        assert(seq![e] + s =~= seq![e]);
        assert(seq![e].drop_last() =~= Seq::<RecentSessionEntryView>::empty());
        assert(without_session(Seq::<RecentSessionEntryView>::empty(), e.session_name) =~= Seq::<
            RecentSessionEntryView,
        >::empty());
        assert(without_session(seq![e], e.session_name) =~= Seq::<RecentSessionEntryView>::empty());
    } else {
        assert((seq![e] + s).drop_last() =~= seq![e] + s.drop_last());
        assert((seq![e] + s).last() == s.last());
        lemma_without_session_cons(e, s.drop_last());
    }
}

/// Recording a connection puts it first, keeps at most ten sessions and
/// lists its session once; recording the same connection again changes
/// nothing.
pub proof fn law_record_session(s: Seq<RecentSessionEntryView>, e: RecentSessionEntryView)
    ensures
        record_in(s, e).len() >= 1,
        record_in(s, e).len() <= MAX_RECENT_SESSIONS,
        record_in(s, e)[0] == e,
        forall|j: int|
            1 <= j < record_in(s, e).len() ==> (#[trigger] record_in(s, e)[j]).session_name
                != e.session_name,
        record_in(record_in(s, e), e) == record_in(s, e),
{
    let name = e.session_name;
    let w = without_session(s, name);
    lemma_without_session_absent(s, name);
    let l = seq![e] + w;
    let r = record_in(s, e);
    assert forall|j: int| 1 <= j < r.len() implies (#[trigger] r[j]).session_name != name by {
        assert(r[j] == l[j]);
        assert(l[j] == w[j - 1]);
    }
    let rest = r.drop_first();
    assert(r =~= seq![e] + rest);
    assert forall|j: int| 0 <= j < rest.len() implies (#[trigger] rest[j]).session_name != name by {
        assert(rest[j] == r[j + 1]);
    }
    lemma_without_session_cons(e, rest);
    lemma_without_session_noop(rest, name);
    assert(seq![e] + without_session(r, name) =~= r);
}

} // verus!
