//! What annotating a file does to its text: a prose annotation marks the
//! quoted passage inline, a code block annotation anchors its fenced block.

use vstd::prelude::*;
use crate::projects::AnnotateRequest;
use crate::store::{spec_ensure_anchor, ensure_codeblock_anchor};
use crate::quote_anchor::{spec_inline_marker, insert_inline_marker};
use crate::kdl_tree::opt_str;
use crate::text::str_chars;

verus! {

/// What annotating a file changes: its new text, where it changes, and the
/// handle of the code block anchor that the annotation uses.
#[derive(Debug, Clone, PartialEq)]
pub struct AnnotatePlan {
    pub new_content: Option<String>,
    pub codeblock_handle: Option<String>,
}

/// Whether a request names a file and an annotation.
pub fn validate_annotate_request(req: &AnnotateRequest) -> (r: Result<(), String>)
    ensures
        r is Ok <==> req.path@.len() > 0 && req.ann_id@.len() > 0,
        r matches Err(m) ==> m@ == "Path and ann_id are required"@,
{
    if str_chars(req.path.as_str()).len() == 0 || str_chars(req.ann_id.as_str()).len() == 0 {
        Err("Path and ann_id are required".to_string())
    } else {
        Ok(())
    }
}

/// What annotating the file whose text is `content` changes. A code block
/// annotation (range, handle and code prefix all given) places or reuses the
/// `[comments](#handle)` anchor after its fenced block, keeping the proposed
/// handle where the block is not found; any other annotation replaces the
/// first rendering of its quote in the body by `(quote)[#ann_id]`, leaving
/// the text alone where the quote is not found.
pub fn plan_annotation(content: &str, req: &AnnotateRequest) -> (r: AnnotatePlan)
    ensures
        match (req.code_range, req.codeblock_handle, req.code_text_prefix) {
            (Some(_), Some(h), Some(p)) => match spec_ensure_anchor(content@, p@, h@) {
                Some((c, used)) => opt_str(r.codeblock_handle) == Some(used) && if c == content@ {
                    r.new_content is None
                } else {
                    opt_str(r.new_content) == Some(c)
                },
                None => opt_str(r.codeblock_handle) == Some(h@) && r.new_content is None,
            },
            _ => r.codeblock_handle is None && opt_str(r.new_content) == spec_inline_marker(
                content@,
                req.quote@,
                req.ann_id@,
            ),
        },
{
    match (&req.code_range, &req.codeblock_handle, &req.code_text_prefix) {
        (Some(_), Some(h), Some(p)) => match ensure_codeblock_anchor(content, p.as_str(), h.as_str()) {
            Some((c, used)) => {
                let same = crate::kdl_tree::str_eq(c.as_str(), content);
                AnnotatePlan {
                    new_content: if same {
                        None
                    } else {
                        Some(c)
                    },
                    codeblock_handle: Some(used),
                }
            },
            None => AnnotatePlan { new_content: None, codeblock_handle: Some(h.clone()) },
        },
        _ => AnnotatePlan {
            new_content: insert_inline_marker(content, req.quote.as_str(), req.ann_id.as_str()),
            codeblock_handle: None,
        },
    }
}

} // verus!
