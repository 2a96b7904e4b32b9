//! Projects under the projects directory, the Markdown files of a project,
//! and the request bodies of the daemon's REST API.

use vstd::prelude::*;
use crate::text::{
    str_chars, chars_to_string, lex_le, lex_le_exec, ends_with, has_suffix, lemma_lex_le_total,
    lemma_lex_le_trans,
};
use crate::kdl_tree::{opt_str, str_eq};
use crate::paths::{join_path, join_path_str};

verus! {

// ---------------------------------------------------------------------------
// Request and response bodies
// ---------------------------------------------------------------------------

/// Project as returned by the daemon's REST API.
#[derive(Debug, Clone, PartialEq)]
pub struct Project {
    pub id: String,
    pub name: Option<String>,
    pub host: String,
    pub session_name: String,
    pub root_path: String,
}

/// The Markdown files of a project: those at its root and those under `docs/`.
#[derive(Debug, Clone, PartialEq)]
pub struct ProjectFiles {
    pub root_md: Vec<String>,
    pub docs_md: Vec<String>,
}

/// The body of a request to activate (watch) a project.
#[derive(Debug, Clone, PartialEq)]
pub struct ActivateRequest {
    pub project_id: String,
}

/// The query of a file read.
#[derive(Debug, Clone, PartialEq)]
pub struct ReadQuery {
    pub path: String,
}

/// The body of a request to annotate a file.
#[derive(Debug, Clone, PartialEq)]
pub struct AnnotateRequest {
    pub path: String,
    pub ann_id: String,
    pub quote: String,
    pub author: String,
    pub body: String,
    /// For code block annotations: "startLine:startChar->endLine:endChar" (0-indexed codepoints).
    pub code_range: Option<String>,
    /// For code block annotations: the handle for the `[comments](#handle)` anchor.
    pub codeblock_handle: Option<String>,
    /// For code block annotations: the start of the code block's text, to find it in the source.
    pub code_text_prefix: Option<String>,
}

/// The daemon's name and version.
#[derive(Debug, Clone, PartialEq)]
pub struct VersionResponse {
    pub name: String,
    pub version: String,
}

/// The body of a request to show a file on the clients.
#[derive(Debug, Clone, PartialEq)]
pub struct TriggerRequest {
    pub path: String,
    pub title: String,
}

/// The body of a request to notify the clients.
#[derive(Debug, Clone, PartialEq)]
pub struct NotifyRequest {
    pub title: String,
    pub body: String,
    pub question: Option<String>,
    pub session_name: Option<String>,
    pub tab_index: Option<u32>,
    pub pane_id: Option<u32>,
    pub source: Option<String>,
}

/// Where a notification leads when the user follows it.
#[derive(Debug, Clone, PartialEq)]
pub struct NavigationTarget {
    pub session_name: String,
    pub tab_index: u32,
    pub pane_id: u32,
}

/// Who sent a notification.
#[derive(PartialEq, Eq, Structural, Clone, Copy, Debug)]
pub enum NotificationSource {
    User,
    ClaudeCode,
    GeminiCli,
    ZellijPlugin,
}

/// The sender that a notification's `source` field names; anything else is
/// the user.
pub open spec fn source_of(source: Option<Seq<char>>) -> NotificationSource {
    match source {
        Some(s) => if s == "claude_code"@ {
            NotificationSource::ClaudeCode
        } else if s == "gemini_cli"@ {
            NotificationSource::GeminiCli
        } else if s == "zellij_plugin"@ {
            NotificationSource::ZellijPlugin
        } else {
            NotificationSource::User
        },
        None => NotificationSource::User,
    }
}

impl NotifyRequest {
    /// The sender of the notification.
    pub fn notification_source(&self) -> (r: NotificationSource)
        ensures
            r == source_of(opt_str(self.source)),
    {
        match &self.source {
            Some(s) => if str_eq(s.as_str(), "claude_code") {
                NotificationSource::ClaudeCode
            } else if str_eq(s.as_str(), "gemini_cli") {
                NotificationSource::GeminiCli
            } else if str_eq(s.as_str(), "zellij_plugin") {
                NotificationSource::ZellijPlugin
            } else {
                NotificationSource::User
            },
            None => NotificationSource::User,
        }
    }

    /// The pane that the notification leads to: present where a session is
    /// named, tab and pane defaulting to 0.
    pub fn navigation_target(&self) -> (r: Option<NavigationTarget>)
        ensures
            match self.session_name {
                Some(s) => r matches Some(t) && t.session_name@ == s@ && t.tab_index == match self.tab_index {
                    Some(x) => x,
                    None => 0u32,
                } && t.pane_id == match self.pane_id {
                    Some(x) => x,
                    None => 0u32,
                },
                None => r is None,
            },
    {
        match &self.session_name {
            Some(s) => Some(NavigationTarget {
                session_name: s.clone(),
                tab_index: match self.tab_index {
                    Some(x) => x,
                    None => 0,
                },
                pane_id: match self.pane_id {
                    Some(x) => x,
                    None => 0,
                },
            }),
            None => None,
        }
    }
}

// ---------------------------------------------------------------------------
// Paths
// ---------------------------------------------------------------------------

/// `p` without one leading `/`.
pub open spec fn strip_leading_slash(p: Seq<char>) -> Seq<char> {
    if p.len() > 0 && p[0] == '/' {
        p.drop_first()
    } else {
        p
    }
}

/// Resolve a URL file path against the projects directory: one leading `/`
/// is dropped and the rest joined onto `projects_path`.
pub fn resolve_filepath(projects_path: &str, filepath: &str) -> (r: String)
    ensures
        r@ == join_path(projects_path@, strip_leading_slash(filepath@)),
{
    let chars = str_chars(filepath);
    let rel = if chars.len() > 0 && chars[0] == '/' {
        let mut v: Vec<char> = Vec::new();
        crate::text::push_range(&mut v, &chars, 1, chars.len());
        chars_to_string(&v)
    } else {
        chars_to_string(&chars)
    };
    join_path_str(projects_path, rel.as_str())
}

/// The directory of a project.
pub fn project_dir(projects_path: &str, project_id: &str) -> (r: String)
    ensures
        r@ == join_path(projects_path@, project_id@),
{
    join_path_str(projects_path, project_id)
}

// ---------------------------------------------------------------------------
// Scanning
// ---------------------------------------------------------------------------

/// What a directory entry is, not following symbolic links.
#[derive(PartialEq, Eq, Structural, Clone, Copy, Debug)]
pub enum EntryKind {
    File,
    Dir,
    Other,
}

/// A directory entry: its file name, its kind and its full path.
#[derive(Debug, Clone)]
pub struct DirEntryInfo {
    pub name: String,
    pub kind: EntryKind,
    pub path: String,
}

pub struct ProjectView {
    pub id: Seq<char>,
    pub name: Option<Seq<char>>,
    pub host: Seq<char>,
    pub session_name: Seq<char>,
    pub root_path: Seq<char>,
}

impl View for Project {
    type V = ProjectView;

    open spec fn view(&self) -> ProjectView {
        ProjectView {
            id: self.id@,
            name: opt_str(self.name),
            host: self.host@,
            session_name: self.session_name@,
            root_path: self.root_path@,
        }
    }
}

/// The views of a list of projects.
pub open spec fn project_views(v: Seq<Project>) -> Seq<ProjectView> {
    v.map_values(|p: Project| p@)
}

/// A name that starts with a dot.
pub open spec fn is_hidden_name(n: Seq<char>) -> bool {
    n.len() > 0 && n[0] == '.'
}

/// The project that a directory is: named by the directory, on this host.
pub open spec fn project_of(e: DirEntryInfo) -> ProjectView {
    ProjectView {
        id: e.name@,
        name: Some(e.name@),
        host: "localhost"@,
        session_name: e.name@,
        root_path: e.path@,
    }
}

/// The projects that the visible directories among `s` are, in order.
pub open spec fn project_candidates(s: Seq<DirEntryInfo>) -> Seq<ProjectView>
    decreases s.len(),
{
    if s.len() == 0 {
        Seq::empty()
    } else {
        let rest = project_candidates(s.drop_last());
        let e = s.last();
        if e.kind == EntryKind::Dir && !is_hidden_name(e.name@) {
            rest.push(project_of(e))
        } else {
            rest
        }
    }
}

/// The first index from `j` on of a project of `t` whose id comes after
/// that of `p`, or `t.len()`.
pub open spec fn project_insert_pos(t: Seq<ProjectView>, p: ProjectView, j: int) -> int
    decreases t.len() - j,
{
    if j < 0 || j >= t.len() {
        t.len() as int
    } else if lex_le(t[j].id, p.id) {
        project_insert_pos(t, p, j + 1)
    } else {
        j
    }
}

/// `s` stably sorted by id.
pub open spec fn sort_by_id(s: Seq<ProjectView>) -> Seq<ProjectView>
    decreases s.len(),
{
    if s.len() == 0 {
        Seq::empty()
    } else {
        let t = sort_by_id(s.drop_last());
        t.insert(project_insert_pos(t, s.last(), 0), s.last())
    }
}

proof fn lemma_project_insert_pos_bounds(t: Seq<ProjectView>, p: ProjectView, j: int)
    requires
        0 <= j <= t.len(),
    ensures
        j <= project_insert_pos(t, p, j) <= t.len(),
    decreases t.len() - j,
{
    if j < t.len() && lex_le(t[j].id, p.id) {
        lemma_project_insert_pos_bounds(t, p, j + 1);
    }
}

fn insert_project_sorted(v: &mut Vec<Project>, p: Project)
    ensures
        project_views(final(v)@) == project_views(old(v)@).insert(
            project_insert_pos(project_views(old(v)@), p@, 0),
            p@,
        ),
{
    let ghost t = project_views(v@);
    let pid = str_chars(p.id.as_str());
    let mut j: usize = 0;
    while j < v.len()
        invariant
            j <= v@.len(),
            v@ == old(v)@,
            t == project_views(v@),
            pid@ == p@.id,
            project_insert_pos(t, p@, 0) == project_insert_pos(t, p@, j as int),
        ensures
            j <= v@.len(),
            project_insert_pos(t, p@, 0) == j,
        decreases v@.len() - j,
    {
        assert(t[j as int] == v@[j as int]@);
        let vid = str_chars(v[j].id.as_str());
        if !lex_le_exec(&vid, &pid) {
            break;
        }
        j = j + 1;
    }
    proof {
        lemma_project_insert_pos_bounds(t, p@, j as int);
    }
    let ghost pv = p@;
    v.insert(j, p);
    assert(project_views(v@) =~= t.insert(j as int, pv));
}

/// The projects under the projects directory, given its entries: each
/// directory whose name does not start with a dot is a project named by it,
/// on `localhost`; the projects come sorted by id.
pub fn projects_from_entries(entries: &[DirEntryInfo]) -> (r: Vec<Project>)
    ensures
        project_views(r@) == sort_by_id(project_candidates(entries@)),
{
    let mut out: Vec<Project> = Vec::new();
    let mut i: usize = 0;
    assert(project_views(out@) =~= Seq::<ProjectView>::empty());
    while i < entries.len()
        invariant
            i <= entries@.len(),
            project_views(out@) == sort_by_id(project_candidates(entries@.take(i as int))),
        decreases entries@.len() - i,
    {
        assert(entries@.take(i + 1).drop_last() =~= entries@.take(i as int));
        let e = &entries[i];
        let name = str_chars(e.name.as_str());
        let hidden = name.len() > 0 && name[0] == '.';
        if e.kind == EntryKind::Dir && !hidden {
            let p = Project {
                id: e.name.clone(),
                name: Some(e.name.clone()),
                host: "localhost".to_string(),
                session_name: e.name.clone(),
                root_path: e.path.clone(),
            };
            assert(p@ == project_of(*e));
            let ghost prev = project_candidates(entries@.take(i as int));
            assert(project_candidates(entries@.take(i + 1)) == prev.push(p@));
            assert(prev.push(p@).drop_last() =~= prev);
            insert_project_sorted(&mut out, p);
        }
        i = i + 1;
    }
    assert(entries@.take(entries@.len() as int) =~= entries@);
    out
}

// ---------------------------------------------------------------------------
// Markdown files of a project
// ---------------------------------------------------------------------------

/// The views of a list of strings.
pub open spec fn str_views(v: Seq<String>) -> Seq<Seq<char>> {
    v.map_values(|s: String| s@)
}

/// The first index from `j` on of a string of `t` that comes after `x`, or
/// `t.len()`.
pub open spec fn str_insert_pos(t: Seq<Seq<char>>, x: Seq<char>, j: int) -> int
    decreases t.len() - j,
{
    if j < 0 || j >= t.len() {
        t.len() as int
    } else if lex_le(t[j], x) {
        str_insert_pos(t, x, j + 1)
    } else {
        j
    }
}

/// `s` sorted (`slice::sort` on strings).
pub open spec fn sort_strs(s: Seq<Seq<char>>) -> Seq<Seq<char>>
    decreases s.len(),
{
    if s.len() == 0 {
        Seq::empty()
    } else {
        let t = sort_strs(s.drop_last());
        t.insert(str_insert_pos(t, s.last(), 0), s.last())
    }
}

proof fn lemma_str_insert_pos_bounds(t: Seq<Seq<char>>, x: Seq<char>, j: int)
    requires
        0 <= j <= t.len(),
    ensures
        j <= str_insert_pos(t, x, j) <= t.len(),
    decreases t.len() - j,
{
    if j < t.len() && lex_le(t[j], x) {
        lemma_str_insert_pos_bounds(t, x, j + 1);
    }
}

fn insert_str_sorted(v: &mut Vec<String>, x: String)
    ensures
        str_views(final(v)@) == str_views(old(v)@).insert(
            str_insert_pos(str_views(old(v)@), x@, 0),
            x@,
        ),
{
    let ghost t = str_views(v@);
    let xc = str_chars(x.as_str());
    let mut j: usize = 0;
    while j < v.len()
        invariant
            j <= v@.len(),
            v@ == old(v)@,
            t == str_views(v@),
            xc@ == x@,
            str_insert_pos(t, x@, 0) == str_insert_pos(t, x@, j as int),
        ensures
            j <= v@.len(),
            str_insert_pos(t, x@, 0) == j,
        decreases v@.len() - j,
    {
        assert(t[j as int] == v@[j as int]@);
        let vc = str_chars(v[j].as_str());
        if !lex_le_exec(&vc, &xc) {
            break;
        }
        j = j + 1;
    }
    proof {
        lemma_str_insert_pos_bounds(t, x@, j as int);
    }
    let ghost xv = x@;
    v.insert(j, x);
    assert(str_views(v@) =~= t.insert(j as int, xv));
}

/// `names` sorted.
pub fn sort_strings(names: Vec<String>) -> (r: Vec<String>)
    ensures
        str_views(r@) == sort_strs(str_views(names@)),
{
    let mut out: Vec<String> = Vec::new();
    let mut i: usize = 0;
    assert(str_views(out@) =~= Seq::<Seq<char>>::empty());
    while i < names.len()
        invariant
            i <= names@.len(),
            str_views(out@) == sort_strs(str_views(names@.take(i as int))),
        decreases names@.len() - i,
    {
        assert(str_views(names@.take(i + 1)).drop_last() =~= str_views(names@.take(i as int)));
        insert_str_sorted(&mut out, names[i].clone());
        i = i + 1;
    }
    assert(names@.take(names@.len() as int) =~= names@);
    out
}

/// A visible Markdown file name: it ends with `.md` and does not start with a dot.
pub open spec fn is_visible_md(name: Seq<char>) -> bool {
    ends_with(name, ".md"@) && !is_hidden_name(name)
}

/// The names of the visible Markdown files among `s`, in order.
pub open spec fn root_md_names(s: Seq<DirEntryInfo>) -> Seq<Seq<char>>
    decreases s.len(),
{
    if s.len() == 0 {
        Seq::empty()
    } else {
        let rest = root_md_names(s.drop_last());
        let e = s.last();
        if e.kind == EntryKind::File && is_visible_md(e.name@) {
            rest.push(e.name@)
        } else {
            rest
        }
    }
}

fn is_visible_md_exec(name: &str) -> (r: bool)
    ensures
        r == is_visible_md(name@),
{
    let c = str_chars(name);
    let md = str_chars(".md");
    has_suffix(&c, &md) && !(c.len() > 0 && c[0] == '.')
}

/// The Markdown files at the root of a project, given its entries: regular
/// files ending with `.md` whose names do not start with a dot, sorted.
pub fn root_markdown_files(entries: &[DirEntryInfo]) -> (r: Vec<String>)
    ensures
        str_views(r@) == sort_strs(root_md_names(entries@)),
{
    let mut names: Vec<String> = Vec::new();
    let mut i: usize = 0;
    assert(str_views(names@) =~= Seq::<Seq<char>>::empty());
    while i < entries.len()
        invariant
            i <= entries@.len(),
            str_views(names@) == root_md_names(entries@.take(i as int)),
        decreases entries@.len() - i,
    {
        assert(entries@.take(i + 1).drop_last() =~= entries@.take(i as int));
        let e = &entries[i];
        if e.kind == EntryKind::File && is_visible_md_exec(e.name.as_str()) {
            let ghost before = str_views(names@);
            names.push(e.name.clone());
            assert(str_views(names@) =~= before.push(e.name@));
        }
        i = i + 1;
    }
    assert(entries@.take(entries@.len() as int) =~= entries@);
    sort_strings(names)
}

/// What a walk for Markdown files does with a directory entry.
#[derive(PartialEq, Eq, Structural, Clone, Copy, Debug)]
pub enum WalkStep {
    /// A hidden entry: left alone.
    Skip,
    /// A directory: walked into.
    Descend,
    /// A Markdown file: collected.
    Collect,
}

/// What the walk for Markdown files under `docs/` does with an entry.
pub open spec fn walk_step_of(name: Seq<char>, is_dir: bool) -> WalkStep {
    if is_hidden_name(name) {
        WalkStep::Skip
    } else if is_dir {
        WalkStep::Descend
    } else if ends_with(name, ".md"@) {
        WalkStep::Collect
    } else {
        WalkStep::Skip
    }
}

/// What the walk for Markdown files under `docs/` does with an entry: a
/// hidden one is skipped, a directory walked into, a `.md` file collected.
pub fn md_walk_step(name: &str, is_dir: bool) -> (r: WalkStep)
    ensures
        r == walk_step_of(name@, is_dir),
{
    let c = str_chars(name);
    if c.len() > 0 && c[0] == '.' {
        WalkStep::Skip
    } else if is_dir {
        WalkStep::Descend
    } else if has_suffix(&c, &str_chars(".md")) {
        WalkStep::Collect
    } else {
        WalkStep::Skip
    }
}

/// `p` with each backslash replaced by a slash.
pub open spec fn forward_slashes(p: Seq<char>) -> Seq<char> {
    p.map_values(|c: char| if c == '\\' { '/' } else { c })
}

/// A path relative to the project root, written with forward slashes.
pub fn relative_md_path(rel: &str) -> (r: String)
    ensures
        r@ == forward_slashes(rel@),
{
    let c = str_chars(rel);
    let mut out: Vec<char> = Vec::new();
    let mut i: usize = 0;
    while i < c.len()
        invariant
            i <= c@.len(),
            c@ == rel@,
            out@ == forward_slashes(c@.take(i as int)),
        decreases c@.len() - i,
    {
        let ch = c[i];
        out.push(if ch == '\\' { '/' } else { ch });
        assert(out@ =~= forward_slashes(c@.take(i + 1)));
        i = i + 1;
    }
    assert(c@.take(c@.len() as int) =~= c@);
    chars_to_string(&out)
}

/// The Markdown files of a project: the root entries' visible `.md` files,
/// and the collected `docs/` paths, each list sorted.
pub fn project_files(root_entries: &[DirEntryInfo], docs_paths: Vec<String>) -> (r: ProjectFiles)
    ensures
        str_views(r.root_md@) == sort_strs(root_md_names(root_entries@)),
        str_views(r.docs_md@) == sort_strs(str_views(docs_paths@)),
{
    ProjectFiles { root_md: root_markdown_files(root_entries), docs_md: sort_strings(docs_paths) }
}

// ---------------------------------------------------------------------------
// Sorting
// ---------------------------------------------------------------------------

/// Projects in order of id.
pub open spec fn sorted_by_id(s: Seq<ProjectView>) -> bool {
    forall|i: int, j: int| 0 <= i < j < s.len() ==> lex_le(#[trigger] s[i].id, #[trigger] s[j].id)
}

proof fn lemma_project_insert_pos(t: Seq<ProjectView>, p: ProjectView, j: int)
    requires
        0 <= j <= t.len(),
    ensures
        forall|m: int| j <= m < project_insert_pos(t, p, j) ==> lex_le(#[trigger] t[m].id, p.id),
        project_insert_pos(t, p, j) < t.len() ==> !lex_le(t[project_insert_pos(t, p, j)].id, p.id),
    decreases t.len() - j,
{
    if j < t.len() && lex_le(t[j].id, p.id) {
        lemma_project_insert_pos(t, p, j + 1);
    }
}

/// The projects come sorted by id, each candidate once: `sort_by_id` is a
/// sorted permutation.
pub proof fn law_sort_by_id(s: Seq<ProjectView>)
    ensures
        sorted_by_id(sort_by_id(s)),
        sort_by_id(s).to_multiset() == s.to_multiset(),
    decreases s.len(),
{
    broadcast use vstd::seq_lib::to_multiset_insert, vstd::seq_lib::to_multiset_build;

    if s.len() == 0 {
        assert(sort_by_id(s) =~= s);
    } else {
        let x = s.last();
        law_sort_by_id(s.drop_last());
        let t = sort_by_id(s.drop_last());
        let p = project_insert_pos(t, x, 0);
        lemma_project_insert_pos_bounds(t, x, 0);
        lemma_project_insert_pos(t, x, 0);
        let r = t.insert(p, x);
        assert forall|i: int, j: int| 0 <= i < j < r.len() implies lex_le(
            #[trigger] r[i].id,
            #[trigger] r[j].id,
        ) by {
            if j < p {
                assert(r[i] == t[i] && r[j] == t[j]);
            } else if j == p {
                assert(r[i] == t[i]);
            } else if i == p {
                assert(r[j] == t[j - 1]);
                assert(p < t.len());
                lemma_lex_le_total(t[p].id, x.id);
                if j - 1 > p {
                    assert(lex_le(t[p].id, t[j - 1].id));
                    lemma_lex_le_trans(x.id, t[p].id, t[j - 1].id);
                }
            } else if i < p {
                assert(r[i] == t[i] && r[j] == t[j - 1]);
            } else {
                assert(r[i] == t[i - 1] && r[j] == t[j - 1]);
            }
        }
        assert(s.drop_last().push(x) =~= s);
    }
}

/// Strings in order.
pub open spec fn sorted_strs(s: Seq<Seq<char>>) -> bool {
    forall|i: int, j: int| 0 <= i < j < s.len() ==> lex_le(#[trigger] s[i], #[trigger] s[j])
}

proof fn lemma_str_insert_pos(t: Seq<Seq<char>>, x: Seq<char>, j: int)
    requires
        0 <= j <= t.len(),
    ensures
        forall|m: int| j <= m < str_insert_pos(t, x, j) ==> lex_le(#[trigger] t[m], x),
        str_insert_pos(t, x, j) < t.len() ==> !lex_le(t[str_insert_pos(t, x, j)], x),
    decreases t.len() - j,
{
    if j < t.len() && lex_le(t[j], x) {
        lemma_str_insert_pos(t, x, j + 1);
    }
}

/// File lists come sorted, each file once: `sort_strs` is a sorted permutation.
pub proof fn law_sort_strs(s: Seq<Seq<char>>)
    ensures
        sorted_strs(sort_strs(s)),
        sort_strs(s).to_multiset() == s.to_multiset(),
    decreases s.len(),
{
    broadcast use vstd::seq_lib::to_multiset_insert, vstd::seq_lib::to_multiset_build;

    if s.len() == 0 {
        assert(sort_strs(s) =~= s);
    } else {
        let x = s.last();
        law_sort_strs(s.drop_last());
        let t = sort_strs(s.drop_last());
        let p = str_insert_pos(t, x, 0);
        lemma_str_insert_pos_bounds(t, x, 0);
        lemma_str_insert_pos(t, x, 0);
        let r = t.insert(p, x);
        assert forall|i: int, j: int| 0 <= i < j < r.len() implies lex_le(
            #[trigger] r[i],
            #[trigger] r[j],
        ) by {
            if j < p {
                assert(r[i] == t[i] && r[j] == t[j]);
            } else if j == p {
                assert(r[i] == t[i]);
            } else if i == p {
                assert(r[j] == t[j - 1]);
                assert(p < t.len());
                lemma_lex_le_total(t[p], x);
                if j - 1 > p {
                    assert(lex_le(t[p], t[j - 1]));
                    lemma_lex_le_trans(x, t[p], t[j - 1]);
                }
            } else if i < p {
                assert(r[i] == t[i] && r[j] == t[j - 1]);
            } else {
                assert(r[i] == t[i - 1] && r[j] == t[j - 1]);
            }
        }
        assert(s.drop_last().push(x) =~= s);
    }
}

} // verus!
