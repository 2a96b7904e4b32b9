//! The live annotation document of a Markdown file: per annotation id, its
//! comment thread, quote, code range and code block handle. Annotations are
//! added, commented on and deleted through the daemon, merged in from the
//! file when it changes on disk, and read out sorted by id.

use vstd::prelude::*;
use crate::annotations::{AnnState, Comment, CommentView, comment_views, duplicate_comments, lemma_comment_views_push};
use crate::store::{Annotation, AnnotationView, ann_views, opt_view};
use crate::keyed::{
    KeyedMap, keys_unique, inserted, removed, value_of, map_entries,
    lemma_map_entries, lemma_removed_twice, law_value_after_insert, law_value_after_remove,
    lemma_inserted_unique, lemma_removed_unique,
};
use crate::projects::{sort_strs, str_views, sort_strings};
use crate::text::str_chars;

verus! {

/// A comment thread as the document holds it: a live list, made or
/// commented on here, or the list read from the file. A new comment is
/// appended to either, and the thread is live from then on.
#[derive(Debug)]
pub enum ThreadSlot {
    Live(Vec<Comment>),
    Loaded(Vec<Comment>),
}

/// The mathematical content of a [`ThreadSlot`].
pub struct SlotView {
    pub live: bool,
    pub comments: Seq<CommentView>,
}

pub open spec fn slot_view(t: ThreadSlot) -> SlotView {
    match t {
        ThreadSlot::Live(v) => SlotView { live: true, comments: comment_views(v@) },
        ThreadSlot::Loaded(v) => SlotView { live: false, comments: comment_views(v@) },
    }
}

pub open spec fn string_view(s: String) -> Seq<char> {
    s@
}

/// The annotation document of one file.
pub struct AnnotationDoc {
    threads: KeyedMap<ThreadSlot>,
    quotes: KeyedMap<String>,
    code_ranges: KeyedMap<String>,
    codeblock_handles: KeyedMap<String>,
}

/// The contents of an [`AnnotationDoc`]: its four maps keyed by annotation id.
pub struct DocView {
    pub threads: Seq<(Seq<char>, SlotView)>,
    pub quotes: Seq<(Seq<char>, Seq<char>)>,
    pub code_ranges: Seq<(Seq<char>, Seq<char>)>,
    pub codeblock_handles: Seq<(Seq<char>, Seq<char>)>,
}

impl DocView {
    /// No map holds an id twice.
    pub open spec fn wf(self) -> bool {
        &&& keys_unique(self.threads)
        &&& keys_unique(self.quotes)
        &&& keys_unique(self.code_ranges)
        &&& keys_unique(self.codeblock_handles)
    }
}

impl View for AnnotationDoc {
    type V = DocView;

    closed spec fn view(&self) -> DocView {
        DocView {
            threads: map_entries(self.threads.view(), |t: ThreadSlot| slot_view(t)),
            quotes: map_entries(self.quotes.view(), |s: String| string_view(s)),
            code_ranges: map_entries(self.code_ranges.view(), |s: String| string_view(s)),
            codeblock_handles: map_entries(self.codeblock_handles.view(), |s: String| string_view(s)),
        }
    }
}

// ---------------------------------------------------------------------------
// What the operations do
// ---------------------------------------------------------------------------

/// `m` with `v` stored under `k` where `v` is present.
pub open spec fn store_opt(m: Seq<(Seq<char>, Seq<char>)>, k: Seq<char>, v: Option<Seq<char>>) -> Seq<
    (Seq<char>, Seq<char>),
> {
    match v {
        Some(x) => inserted(m, k, x),
        None => m,
    }
}

/// The document once `a`, read from the file, is stored: its thread as a
/// loaded value, its quote when not empty, its code range and handle when
/// present.
pub open spec fn load_one(d: DocView, a: AnnotationView) -> DocView {
    DocView {
        threads: inserted(d.threads, a.id, SlotView { live: false, comments: a.thread }),
        quotes: if a.quote.len() > 0 {
            inserted(d.quotes, a.id, a.quote)
        } else {
            d.quotes
        },
        code_ranges: store_opt(d.code_ranges, a.id, a.code_range),
        codeblock_handles: store_opt(d.codeblock_handles, a.id, a.codeblock_handle),
    }
}

/// The document once `anns` are stored in order, each as `load_one` says.
pub open spec fn load_all(d: DocView, anns: Seq<AnnotationView>) -> DocView
    decreases anns.len(),
{
    if anns.len() == 0 {
        d
    } else {
        load_one(load_all(d, anns.drop_last()), anns.last())
    }
}

/// The document once the annotations read from the file are merged in, in
/// order: one whose id already has a thread is left alone (the document is
/// authoritative for its entries), any other is stored as `load_one` says.
pub open spec fn merge_all(d: DocView, anns: Seq<AnnotationView>) -> DocView
    decreases anns.len(),
{
    if anns.len() == 0 {
        d
    } else {
        let m = merge_all(d, anns.drop_last());
        let a = anns.last();
        if value_of(m.threads, a.id) is Some {
            m
        } else {
            load_one(m, a)
        }
    }
}

/// The document once the annotation `id` is added with its first comment:
/// its quote is stored (even an empty one), its code range and handle when
/// given, and a new live thread holding the comment replaces any thread.
pub open spec fn add_one(
    d: DocView,
    id: Seq<char>,
    quote: Seq<char>,
    c: CommentView,
    code_range: Option<Seq<char>>,
    handle: Option<Seq<char>>,
) -> DocView {
    DocView {
        threads: inserted(d.threads, id, SlotView { live: true, comments: seq![c] }),
        quotes: inserted(d.quotes, id, quote),
        code_ranges: store_opt(d.code_ranges, id, code_range),
        codeblock_handles: store_opt(d.codeblock_handles, id, handle),
    }
}

/// The document once the comment `c` is added to the thread of `id`: the
/// thread, whether created here or read from the file, gets it appended and
/// is live from then on; where `id` has no thread, a new live thread holds
/// only `c`.
pub open spec fn comment_one(d: DocView, id: Seq<char>, c: CommentView) -> DocView {
    DocView {
        threads: match value_of(d.threads, id) {
            Some(t) => inserted(d.threads, id, SlotView { live: true, comments: t.comments.push(c) }),
            None => inserted(d.threads, id, SlotView { live: true, comments: seq![c] }),
        },
        ..d
    }
}

/// The document once the annotation `id` is deleted from all four maps.
pub open spec fn delete_one(d: DocView, id: Seq<char>) -> DocView {
    DocView {
        threads: removed(d.threads, id),
        quotes: removed(d.quotes, id),
        code_ranges: removed(d.code_ranges, id),
        codeblock_handles: removed(d.codeblock_handles, id),
    }
}

/// The mathematical content of an [`AnnState`].
pub struct AnnStateView {
    pub id: Seq<char>,
    pub quote: Seq<char>,
    pub thread: Seq<CommentView>,
    pub code_range: Option<Seq<char>>,
    pub codeblock_handle: Option<Seq<char>>,
}

impl View for AnnState {
    type V = AnnStateView;

    open spec fn view(&self) -> AnnStateView {
        AnnStateView {
            id: self.id@,
            quote: self.quote@,
            thread: comment_views(self.thread@),
            code_range: opt_view(self.code_range),
            codeblock_handle: opt_view(self.codeblock_handle),
        }
    }
}

/// The views of a list of annotation states.
pub open spec fn state_views(v: Seq<AnnState>) -> Seq<AnnStateView> {
    v.map_values(|a: AnnState| a@)
}

/// The state of the annotation `id`: its thread, its quote (empty where
/// none is stored), its code range and its handle.
pub open spec fn state_of(d: DocView, id: Seq<char>) -> AnnStateView {
    AnnStateView {
        id,
        quote: match value_of(d.quotes, id) {
            Some(q) => q,
            None => Seq::empty(),
        },
        thread: match value_of(d.threads, id) {
            Some(t) => t.comments,
            None => Seq::empty(),
        },
        code_range: value_of(d.code_ranges, id),
        codeblock_handle: value_of(d.codeblock_handles, id),
    }
}

/// The ids that have a thread, sorted.
pub open spec fn sorted_ids(d: DocView) -> Seq<Seq<char>> {
    sort_strs(d.threads.map_values(|e: (Seq<char>, SlotView)| e.0))
}

/// The annotations of the document, one per thread, sorted by id.
pub open spec fn doc_states(d: DocView) -> Seq<AnnStateView> {
    sorted_ids(d).map_values(|id: Seq<char>| state_of(d, id))
}

// ---------------------------------------------------------------------------
// Operations
// ---------------------------------------------------------------------------

fn clone_opt(o: &Option<String>) -> (r: Option<String>)
    ensures
        r == *o,
{
    match o {
        Some(s) => Some(s.clone()),
        None => None,
    }
}

proof fn lemma_store_opt(m: Seq<(Seq<char>, String)>, k: Seq<char>, v: Option<String>)
    ensures
        map_entries(
            match v {
                Some(x) => inserted(m, k, x),
                None => m,
            },
            |s: String| string_view(s),
        ) == store_opt(map_entries(m, |s: String| string_view(s)), k, opt_view(v)),
{
    match v {
        Some(x) => lemma_map_entries(m, |s: String| string_view(s), k, x),
        None => {},
    }
}

impl AnnotationDoc {
    /// An empty document.
    pub fn new() -> (r: AnnotationDoc)
        ensures
            r@.wf(),
            r@.threads.len() == 0,
            r@.quotes.len() == 0,
            r@.code_ranges.len() == 0,
            r@.codeblock_handles.len() == 0,
    {
        let r = AnnotationDoc {
            threads: KeyedMap::new(),
            quotes: KeyedMap::new(),
            code_ranges: KeyedMap::new(),
            codeblock_handles: KeyedMap::new(),
        };
        assert(r@.threads =~= Seq::<(Seq<char>, SlotView)>::empty());
        assert(r@.quotes =~= Seq::<(Seq<char>, Seq<char>)>::empty());
        assert(r@.code_ranges =~= Seq::<(Seq<char>, Seq<char>)>::empty());
        assert(r@.codeblock_handles =~= Seq::<(Seq<char>, Seq<char>)>::empty());
        r
    }

    /// Store an annotation read from the file, as `load_one` says.
    fn load(&mut self, a: &Annotation)
        requires
            old(self)@.wf(),
        ensures
            final(self)@.wf(),
            final(self)@ == load_one(old(self)@, a@),
    {
        let thread = ThreadSlot::Loaded(duplicate_comments(&a.thread));
        proof {
            lemma_map_entries(self.threads.view(), |t: ThreadSlot| slot_view(t), a@.id, thread);
        }
        self.threads.insert(a.id.clone(), thread);
        proof {
            lemma_map_entries(self.threads.view(), |t: ThreadSlot| slot_view(t), a@.id, thread);
            lemma_map_entries(self.quotes.view(), |s: String| string_view(s), a@.id, a.quote);
            lemma_store_opt(self.code_ranges.view(), a@.id, a.code_range);
            lemma_store_opt(self.codeblock_handles.view(), a@.id, a.codeblock_handle);
        }
        if str_chars(a.quote.as_str()).len() > 0 {
            self.quotes.insert(a.id.clone(), a.quote.clone());
        }
        if let Some(r) = &a.code_range {
            self.code_ranges.insert(a.id.clone(), r.clone());
        }
        if let Some(h) = &a.codeblock_handle {
            self.codeblock_handles.insert(a.id.clone(), h.clone());
        }
        proof {
            lemma_map_entries(self.quotes.view(), |s: String| string_view(s), a@.id, a.quote);
            lemma_map_entries(self.code_ranges.view(), |s: String| string_view(s), a@.id, a.quote);
            lemma_map_entries(self.codeblock_handles.view(), |s: String| string_view(s), a@.id, a.quote);
            lemma_map_entries(self.threads.view(), |t: ThreadSlot| slot_view(t), a@.id, thread);
        }
    }
    /// Fill the document from the annotations of the file, in order; a later
    /// annotation with an id already stored overwrites it.
    pub fn populate(&mut self, anns: &[Annotation])
        requires
            old(self)@.wf(),
        ensures
            final(self)@.wf(),
            final(self)@ == load_all(old(self)@, ann_views(anns@)),
    {
        let mut i: usize = 0;
        while i < anns.len()
            invariant
                i <= anns@.len(),
                self@.wf(),
                self@ == load_all(old(self)@, ann_views(anns@.take(i as int))),
            decreases anns@.len() - i,
        {
            assert(ann_views(anns@.take(i + 1)).drop_last() =~= ann_views(anns@.take(i as int)));
            assert(ann_views(anns@.take(i + 1)).last() == anns@[i as int]@);
            self.load(&anns[i]);
            i = i + 1;
        }
        assert(anns@.take(anns@.len() as int) =~= anns@);
    }

    fn has_thread(&self, id: &str) -> (r: bool)
        ensures
            r == (value_of(self@.threads, id@) is Some),
    {
        proof {
            lemma_map_entries(self.threads.view(), |t: ThreadSlot| slot_view(t), id@, arbitrary());
        }
        self.threads.get(id).is_some()
    }

    /// Merge in the annotations read from the file after it changed on disk:
    /// those whose id already has a thread are left alone.
    pub fn merge_from_file(&mut self, anns: &[Annotation])
        requires
            old(self)@.wf(),
        ensures
            final(self)@.wf(),
            final(self)@ == merge_all(old(self)@, ann_views(anns@)),
    {
        let mut i: usize = 0;
        while i < anns.len()
            invariant
                i <= anns@.len(),
                self@.wf(),
                self@ == merge_all(old(self)@, ann_views(anns@.take(i as int))),
            decreases anns@.len() - i,
        {
            assert(ann_views(anns@.take(i + 1)).drop_last() =~= ann_views(anns@.take(i as int)));
            assert(ann_views(anns@.take(i + 1)).last() == anns@[i as int]@);
            if !self.has_thread(anns[i].id.as_str()) {
                self.load(&anns[i]);
            }
            i = i + 1;
        }
        assert(anns@.take(anns@.len() as int) =~= anns@);
    }

    /// Add the annotation `ann_id` with its first comment, as `add_one` says.
    pub fn add_annotation(
        &mut self,
        ann_id: String,
        quote: String,
        author: String,
        body: String,
        timestamp: String,
        code_range: Option<String>,
        codeblock_handle: Option<String>,
    )
        requires
            old(self)@.wf(),
        ensures
            final(self)@.wf(),
            final(self)@ == add_one(
                old(self)@,
                ann_id@,
                quote@,
                CommentView { author: author@, timestamp: timestamp@, body: body@ },
                opt_view(code_range),
                opt_view(codeblock_handle),
            ),
    {
        proof {
            lemma_map_entries(self.quotes.view(), |s: String| string_view(s), ann_id@, quote);
            lemma_store_opt(self.code_ranges.view(), ann_id@, code_range);
            lemma_store_opt(self.codeblock_handles.view(), ann_id@, codeblock_handle);
        }
        self.quotes.insert(ann_id.clone(), quote);
        if let Some(r) = code_range {
            self.code_ranges.insert(ann_id.clone(), r);
        }
        if let Some(h) = codeblock_handle {
            self.codeblock_handles.insert(ann_id.clone(), h);
        }
        let c = Comment { author, timestamp, body };
        let ghost cv = c@;
        let mut v: Vec<Comment> = Vec::new();
        v.push(c);
        let thread = ThreadSlot::Live(v);
        assert(slot_view(thread).comments =~= seq![cv]);
        proof {
            lemma_map_entries(self.threads.view(), |t: ThreadSlot| slot_view(t), ann_id@, thread);
        }
        self.threads.insert(ann_id, thread);
        proof {
            lemma_map_entries(self.threads.view(), |t: ThreadSlot| slot_view(t), ann_id@, thread);
            lemma_map_entries(self.quotes.view(), |s: String| string_view(s), ann_id@, quote);
            lemma_map_entries(self.code_ranges.view(), |s: String| string_view(s), ann_id@, quote);
            lemma_map_entries(self.codeblock_handles.view(), |s: String| string_view(s), ann_id@, quote);
        }
    }

    /// Add a comment to the thread of `ann_id`, as `comment_one` says.
    pub fn add_comment(&mut self, ann_id: &str, author: String, body: String, timestamp: String)
        requires
            old(self)@.wf(),
        ensures
            final(self)@.wf(),
            final(self)@ == comment_one(
                old(self)@,
                ann_id@,
                CommentView { author: author@, timestamp: timestamp@, body: body@ },
            ),
    {
        let ghost s0 = self.threads.view();
        let c = Comment { author, timestamp, body };
        let ghost cv = c@;
        proof {
            lemma_map_entries(s0, |t: ThreadSlot| slot_view(t), ann_id@, arbitrary());
        }
        let thread = match self.threads.remove(ann_id) {
            Some(ThreadSlot::Live(v)) => {
                let mut v = v;
                let ghost before = v@;
                v.push(c);
                proof {
                    lemma_comment_views_push(before, c);
                }
                ThreadSlot::Live(v)
            },
            Some(ThreadSlot::Loaded(v)) => {
                let mut v = v;
                let ghost before = v@;
                v.push(c);
                proof {
                    lemma_comment_views_push(before, c);
                }
                ThreadSlot::Live(v)
            },
            None => {
                let mut v: Vec<Comment> = Vec::new();
                v.push(c);
                assert(comment_views(v@) =~= seq![cv]);
                ThreadSlot::Live(v)
            },
        };
        proof {
            lemma_removed_twice(s0, ann_id@, thread);
            lemma_map_entries(s0, |t: ThreadSlot| slot_view(t), ann_id@, thread);
        }
        self.threads.insert(ann_id.to_string(), thread);
        proof {
            lemma_map_entries(self.threads.view(), |t: ThreadSlot| slot_view(t), ann_id@, thread);
        }
    }

    /// Delete the annotation `ann_id`: its thread, quote, code range and handle.
    pub fn delete_annotation(&mut self, ann_id: &str)
        requires
            old(self)@.wf(),
        ensures
            final(self)@.wf(),
            final(self)@ == delete_one(old(self)@, ann_id@),
    {
        proof {
            lemma_map_entries(self.threads.view(), |t: ThreadSlot| slot_view(t), ann_id@, arbitrary());
            lemma_map_entries(self.quotes.view(), |s: String| string_view(s), ann_id@, arbitrary());
            lemma_map_entries(self.code_ranges.view(), |s: String| string_view(s), ann_id@, arbitrary());
            lemma_map_entries(self.codeblock_handles.view(), |s: String| string_view(s), ann_id@, arbitrary());
        }
        let _ = self.threads.remove(ann_id);
        let _ = self.quotes.remove(ann_id);
        let _ = self.code_ranges.remove(ann_id);
        let _ = self.codeblock_handles.remove(ann_id);
        proof {
            lemma_map_entries(self.threads.view(), |t: ThreadSlot| slot_view(t), ann_id@, arbitrary());
            lemma_map_entries(self.quotes.view(), |s: String| string_view(s), ann_id@, arbitrary());
            lemma_map_entries(self.code_ranges.view(), |s: String| string_view(s), ann_id@, arbitrary());
            lemma_map_entries(self.codeblock_handles.view(), |s: String| string_view(s), ann_id@, arbitrary());
        }
    }
    fn get_string(m: &KeyedMap<String>, id: &str) -> (r: Option<String>)
        ensures
            opt_view(r) == value_of(map_entries(m.view(), |s: String| string_view(s)), id@),
    {
        proof {
            lemma_map_entries(m.view(), |s: String| string_view(s), id@, arbitrary());
        }
        match m.get(id) {
            Some(v) => Some(v.clone()),
            None => None,
        }
    }

    /// The state of the annotation `id`, as `state_of` says.
    pub fn state_for(&self, id: &str) -> (r: AnnState)
        ensures
            r@ == state_of(self@, id@),
    {
        proof {
            lemma_map_entries(self.threads.view(), |t: ThreadSlot| slot_view(t), id@, arbitrary());
        }
        let quote = match Self::get_string(&self.quotes, id) {
            Some(q) => q,
            None => String::new(),
        };
        let thread = match self.threads.get(id) {
            Some(ThreadSlot::Live(v)) => duplicate_comments(v),
            Some(ThreadSlot::Loaded(v)) => duplicate_comments(v),
            None => {
                let v: Vec<Comment> = Vec::new();
                assert(comment_views(v@) =~= Seq::<CommentView>::empty());
                v
            },
        };
        AnnState {
            id: id.to_string(),
            quote,
            thread,
            code_range: Self::get_string(&self.code_ranges, id),
            codeblock_handle: Self::get_string(&self.codeblock_handles, id),
        }
    }

    /// The ids that have a thread, sorted.
    fn sorted_ids(&self) -> (r: Vec<String>)
        ensures
            str_views(r@) == sorted_ids(self@),
    {
        let ghost keys = self@.threads.map_values(|e: (Seq<char>, SlotView)| e.0);
        let mut ids: Vec<String> = Vec::new();
        let n = self.threads.len();
        let mut i: usize = 0;
        assert(str_views(ids@) =~= keys.take(0));
        while i < n
            invariant
                i <= n,
                n == self.threads.view().len(),
                keys == self@.threads.map_values(|e: (Seq<char>, SlotView)| e.0),
                keys.len() == n,
                str_views(ids@) == keys.take(i as int),
            decreases n - i,
        {
            let k = self.threads.key_at(i).clone();
            let ghost before = str_views(ids@);
            ids.push(k);
            assert(self@.threads[i as int].0 == self.threads.view()[i as int].0);
            assert(keys[i as int] == self.threads.view()[i as int].0);
            assert(str_views(ids@) =~= before.push(k@));
            assert(str_views(ids@) =~= keys.take(i + 1));
            i = i + 1;
        }
        assert(keys.take(n as int) =~= keys);
        sort_strings(ids)
    }

    /// The annotations of the document, one per thread, sorted by id.
    pub fn states(&self) -> (r: Vec<AnnState>)
        ensures
            state_views(r@) == doc_states(self@),
    {
        let ids = self.sorted_ids();
        let ghost sv = str_views(ids@);
        let mut out: Vec<AnnState> = Vec::new();
        let mut i: usize = 0;
        assert(state_views(out@) =~= Seq::<AnnStateView>::empty());
        while i < ids.len()
            invariant
                i <= ids@.len(),
                sv == str_views(ids@),
                sv == sorted_ids(self@),
                state_views(out@) == sv.take(i as int).map_values(|id: Seq<char>| state_of(self@, id)),
            decreases ids@.len() - i,
        {
            let st = self.state_for(ids[i].as_str());
            let ghost before = state_views(out@);
            out.push(st);
            assert(sv[i as int] == ids@[i as int]@);
            assert(state_views(out@) =~= before.push(st@));
            assert(state_views(out@) =~= sv.take(i + 1).map_values(|id: Seq<char>| state_of(self@, id)));
            i = i + 1;
        }
        assert(sv.take(ids@.len() as int) =~= sv);
        out
    }
}

/// The annotation that a state is, for writing back into the file.
pub open spec fn as_annotation(s: AnnStateView) -> AnnotationView {
    AnnotationView {
        id: s.id,
        quote: s.quote,
        thread: s.thread,
        code_range: s.code_range,
        codeblock_handle: s.codeblock_handle,
    }
}

/// The annotations of a document, sorted by id, for writing back into the file.
pub fn extract_anns(doc: &AnnotationDoc) -> (r: Vec<Annotation>)
    ensures
        ann_views(r@) == doc_states(doc@).map_values(|s: AnnStateView| as_annotation(s)),
{
    let states = doc.states();
    let ghost target = doc_states(doc@).map_values(|s: AnnStateView| as_annotation(s));
    let mut out: Vec<Annotation> = Vec::new();
    let mut states = states;
    let ghost sv = state_views(states@);
    assert(ann_views(out@) =~= sv.take(0).map_values(|s: AnnStateView| as_annotation(s)));
    assert(state_views(states@) =~= sv.subrange(0, sv.len() as int));
    while states.len() > 0
        invariant
            sv.len() == out@.len() + states@.len(),
            state_views(states@) == sv.subrange(out@.len() as int, sv.len() as int),
            ann_views(out@) == sv.take(out@.len() as int).map_values(|s: AnnStateView| as_annotation(s)),
        decreases states@.len(),
    {
        let ghost k: int = out@.len() as int;
        let ghost old_states = states@;
        assert(state_views(old_states)[0] == sv[k]);
        let st = states.remove(0);
        assert(st == old_states[0]);
        assert(st@ == sv[k]);
        let a = Annotation {
            id: st.id,
            quote: st.quote,
            thread: st.thread,
            code_range: st.code_range,
            codeblock_handle: st.codeblock_handle,
        };
        let ghost before = ann_views(out@);
        out.push(a);
        assert(ann_views(out@) =~= before.push(a@));
        assert(ann_views(out@) =~= sv.take(k + 1).map_values(|s: AnnStateView| as_annotation(s)));
        assert(states@ =~= old_states.drop_first());
        assert(state_views(states@) =~= state_views(old_states).drop_first());
        assert(state_views(states@) =~= sv.subrange(k + 1, sv.len() as int));
    }
    assert(sv.take(sv.len() as int) =~= sv);
    out
}

// ---------------------------------------------------------------------------
// Laws
// ---------------------------------------------------------------------------

proof fn lemma_store_opt_value(m: Seq<(Seq<char>, Seq<char>)>, k: Seq<char>, v: Option<Seq<char>>, k2: Seq<char>)
    requires
        keys_unique(m),
    ensures
        value_of(store_opt(m, k, v), k2) == if k2 == k && v is Some {
            v
        } else {
            value_of(m, k2)
        },
        keys_unique(store_opt(m, k, v)),
{
    match v {
        Some(x) => {
            law_value_after_insert(m, k, x, k2);
            lemma_inserted_unique(m, k, x);
        },
        None => {},
    }
}

/// What reading a document gives back of adding an annotation: the new
/// annotation has the quote and the single comment it was added with, and
/// the code range and handle it was given (else those stored before);
/// every other annotation reads as before.
pub proof fn law_state_after_add(
    d: DocView,
    id: Seq<char>,
    quote: Seq<char>,
    c: CommentView,
    code_range: Option<Seq<char>>,
    handle: Option<Seq<char>>,
    other: Seq<char>,
)
    requires
        d.wf(),
    ensures
        add_one(d, id, quote, c, code_range, handle).wf(),
        state_of(add_one(d, id, quote, c, code_range, handle), id) == (AnnStateView {
            id,
            quote,
            thread: seq![c],
            code_range: if code_range is Some {
                code_range
            } else {
                value_of(d.code_ranges, id)
            },
            codeblock_handle: if handle is Some {
                handle
            } else {
                value_of(d.codeblock_handles, id)
            },
        }),
        other != id ==> state_of(add_one(d, id, quote, c, code_range, handle), other) == state_of(d, other),
{
    let t = SlotView { live: true, comments: seq![c] };
    law_value_after_insert(d.threads, id, t, id);
    law_value_after_insert(d.threads, id, t, other);
    lemma_inserted_unique(d.threads, id, t);
    law_value_after_insert(d.quotes, id, quote, id);
    law_value_after_insert(d.quotes, id, quote, other);
    lemma_inserted_unique(d.quotes, id, quote);
    lemma_store_opt_value(d.code_ranges, id, code_range, id);
    lemma_store_opt_value(d.code_ranges, id, code_range, other);
    lemma_store_opt_value(d.codeblock_handles, id, handle, id);
    lemma_store_opt_value(d.codeblock_handles, id, handle, other);
}

/// A comment added to an annotation that was just added follows its first
/// comment in its thread.
pub proof fn law_comment_after_add(
    d: DocView,
    id: Seq<char>,
    quote: Seq<char>,
    c1: CommentView,
    code_range: Option<Seq<char>>,
    handle: Option<Seq<char>>,
    c2: CommentView,
)
    requires
        d.wf(),
    ensures
        state_of(comment_one(add_one(d, id, quote, c1, code_range, handle), id, c2), id).thread == seq![
            c1,
            c2,
        ],
{
    let t = SlotView { live: true, comments: seq![c1] };
    law_value_after_insert(d.threads, id, t, id);
    lemma_inserted_unique(d.threads, id, t);
    let d1 = add_one(d, id, quote, c1, code_range, handle);
    let t2 = SlotView { live: true, comments: seq![c1].push(c2) };
    law_value_after_insert(d1.threads, id, t2, id);
    assert(seq![c1].push(c2) =~= seq![c1, c2]);
}

/// A comment is appended to the thread of its annotation, whether that
/// thread was added here or read from the file; an annotation without a
/// thread gets one holding only the comment. Every other annotation reads as
/// before.
pub proof fn law_comment_appends(d: DocView, id: Seq<char>, c: CommentView, other: Seq<char>)
    requires
        d.wf(),
    ensures
        comment_one(d, id, c).wf(),
        state_of(comment_one(d, id, c), id).thread == match value_of(d.threads, id) {
            Some(t) => t.comments.push(c),
            None => seq![c],
        },
        other != id ==> state_of(comment_one(d, id, c), other) == state_of(d, other),
{
    let t = match value_of(d.threads, id) {
        Some(t) => SlotView { live: true, comments: t.comments.push(c) },
        None => SlotView { live: true, comments: seq![c] },
    };
    law_value_after_insert(d.threads, id, t, id);
    law_value_after_insert(d.threads, id, t, other);
    lemma_inserted_unique(d.threads, id, t);
}

/// A deleted annotation reads as having no thread, quote, code range or
/// handle; every other annotation reads as before.
pub proof fn law_state_after_delete(d: DocView, id: Seq<char>, other: Seq<char>)
    requires
        d.wf(),
    ensures
        delete_one(d, id).wf(),
        value_of(delete_one(d, id).threads, id) is None,
        state_of(delete_one(d, id), id) == (AnnStateView {
            id,
            quote: Seq::empty(),
            thread: Seq::empty(),
            code_range: None,
            codeblock_handle: None,
        }),
        other != id ==> state_of(delete_one(d, id), other) == state_of(d, other),
{
    law_value_after_remove(d.threads, id, id);
    law_value_after_remove(d.threads, id, other);
    lemma_removed_unique(d.threads, id);
    law_value_after_remove(d.quotes, id, id);
    law_value_after_remove(d.quotes, id, other);
    lemma_removed_unique(d.quotes, id);
    law_value_after_remove(d.code_ranges, id, id);
    law_value_after_remove(d.code_ranges, id, other);
    lemma_removed_unique(d.code_ranges, id);
    law_value_after_remove(d.codeblock_handles, id, id);
    law_value_after_remove(d.codeblock_handles, id, other);
    lemma_removed_unique(d.codeblock_handles, id);
}

proof fn lemma_load_one_wf(d: DocView, a: AnnotationView)
    requires
        d.wf(),
    ensures
        load_one(d, a).wf(),
        forall|k: Seq<char>| k != a.id ==> value_of(#[trigger] load_one(d, a).threads, k) == value_of(d.threads, k),
        value_of(load_one(d, a).threads, a.id) is Some,
{
    let t = SlotView { live: false, comments: a.thread };
    lemma_inserted_unique(d.threads, a.id, t);
    if a.quote.len() > 0 {
        lemma_inserted_unique(d.quotes, a.id, a.quote);
    }
    lemma_store_opt_value(d.code_ranges, a.id, a.code_range, a.id);
    lemma_store_opt_value(d.codeblock_handles, a.id, a.codeblock_handle, a.id);
    assert forall|k: Seq<char>| k != a.id implies value_of(#[trigger] load_one(d, a).threads, k) == value_of(
        d.threads,
        k,
    ) by {
        law_value_after_insert(d.threads, a.id, t, k);
    }
    law_value_after_insert(d.threads, a.id, t, a.id);
}

/// Merging in the annotations of the file never touches a thread the
/// document already has: the document is authoritative for its entries.
pub proof fn law_merge_keeps_threads(d: DocView, anns: Seq<AnnotationView>, id: Seq<char>)
    requires
        d.wf(),
        value_of(d.threads, id) is Some,
    ensures
        merge_all(d, anns).wf(),
        value_of(merge_all(d, anns).threads, id) == value_of(d.threads, id),
    decreases anns.len(),
{
    if anns.len() > 0 {
        law_merge_keeps_threads(d, anns.drop_last(), id);
        let m = merge_all(d, anns.drop_last());
        let a = anns.last();
        if value_of(m.threads, a.id) is None {
            lemma_load_one_wf(m, a);
            assert(a.id != id);
        }
    }
}

} // verus!
