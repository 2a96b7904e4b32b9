//! Comment threads shared by the Markdown comment store and the annotation
//! sync endpoint.

use vstd::prelude::*;

verus! {

/// One comment of an annotation thread.
#[derive(Debug)]
pub struct Comment {
    pub author: String,
    pub timestamp: String,
    pub body: String,
}

/// The mathematical content of a [`Comment`].
pub struct CommentView {
    pub author: Seq<char>,
    pub timestamp: Seq<char>,
    pub body: Seq<char>,
}

impl View for Comment {
    type V = CommentView;

    open spec fn view(&self) -> CommentView {
        CommentView { author: self.author@, timestamp: self.timestamp@, body: self.body@ }
    }
}

impl Comment {
    /// A copy of this comment.
    pub fn duplicate(&self) -> (r: Comment)
        ensures
            r@ == self@,
    {
        Comment {
            author: self.author.clone(),
            timestamp: self.timestamp.clone(),
            body: self.body.clone(),
        }
    }
}

/// The views of a sequence of comments.
pub open spec fn comment_views(v: Seq<Comment>) -> Seq<CommentView> {
    v.map_values(|c: Comment| c@)
}

pub proof fn lemma_comment_views_push(v: Seq<Comment>, c: Comment)
    ensures
        comment_views(v.push(c)) == comment_views(v).push(c@),
{
    assert(comment_views(v.push(c)) =~= comment_views(v).push(c@));
}

/// A copy of a list of comments.
pub fn duplicate_comments(v: &Vec<Comment>) -> (r: Vec<Comment>)
    ensures
        comment_views(r@) == comment_views(v@),
{
    let mut out: Vec<Comment> = Vec::new();
    let mut i: usize = 0;
    while i < v.len()
        invariant
            i <= v@.len(),
            comment_views(out@) == comment_views(v@.take(i as int)),
        decreases v@.len() - i,
    {
        let c = v[i].duplicate();
        proof {
            lemma_comment_views_push(out@, c);
            assert(v@.take(i + 1) =~= v@.take(i as int).push(v@[i as int]));
            lemma_comment_views_push(v@.take(i as int), v@[i as int]);
        }
        out.push(c);
        i = i + 1;
    }
    assert(v@.take(v@.len() as int) =~= v@);
    out
}

/// Annotation state as the annotation sync endpoint reports it.
#[derive(Debug)]
pub struct AnnState {
    pub id: String,
    pub quote: String,
    pub thread: Vec<Comment>,
    pub code_range: Option<String>,
    pub codeblock_handle: Option<String>,
}

} // verus!
