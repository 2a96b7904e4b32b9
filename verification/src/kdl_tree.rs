//! KDL documents as the stores and the configuration read them: a tree of
//! nodes, each with a name, its entries and an optional block of children.
//! Parsing is done by the `kdl` crate; what the library reads of the result
//! is the plain tree below, and the lookups on it are verified here.

use vstd::prelude::*;
use crate::text::{str_chars, chars_eq};
use crate::kdl_store::{AnnView, AnnotationView, anns_text, annotations_text};
use crate::kdl_laws::{anns_kdl_safe, annotations_kdl_safe, ann_nodes, annotation_nodes};

verus! {

#[verifier::external_type_specification]
#[verifier::external_body]
pub struct ExKdlDocument(kdl::KdlDocument);

#[verifier::external_type_specification]
#[verifier::external_body]
pub struct ExKdlError(kdl::KdlError);

/// One entry of a KDL node: a positional argument (`name` is `None`) or a
/// property `name=value`, with its value when it is a string or an integer.
#[derive(Debug)]
pub struct KdlEntryModel {
    pub name: Option<String>,
    pub string: Option<String>,
    pub integer: Option<i128>,
}

/// One KDL node: its name, its entries in order, and its child block.
#[derive(Debug)]
pub struct KdlNodeModel {
    pub name: String,
    pub entries: Vec<KdlEntryModel>,
    pub children: Option<Vec<KdlNodeModel>>,
}

/// The tree that the `kdl` crate parses out of `input`, or `None` where it
/// refuses the input.
pub uninterp spec fn kdl_parse_model(input: Seq<char>) -> Option<Seq<KdlNodeModel>>;

/// The top-level nodes of a parsed document, as plain trees.
pub uninterp spec fn kdl_document_model(doc: kdl::KdlDocument) -> Seq<KdlNodeModel>;

/// `KdlDocument::from_str` (KDL v2). Claims that the outcome is a function
/// of the input (`kdl_parse_model` names it, `None` for an error), and one
/// fact of the KDL v2 grammar as the `kdl` parser implements it: text laid
/// out as `serialize_anns` or `serialize_annotations` lay it out, with every
/// string quoted, `\\` and `\"` escaped, and no string holding a line break
/// or a code point that KDL v2 refuses, parses into one node per annotation,
/// each with the name, the entries (arguments, string properties, the integer
/// timestamp) and the child blocks in the order they were written. What the
/// parser makes of other text is left to the name.
#[verifier::external_body]
fn kdl_parse_document(input: &str) -> (r: Result<kdl::KdlDocument, kdl::KdlError>)
    ensures
        match r {
            Ok(doc) => kdl_parse_model(input@) == Some(kdl_document_model(doc)),
            Err(_) => kdl_parse_model(input@) is None,
        },
        r is Err ==> forall|s: Seq<AnnView>| #[trigger] anns_text(s) == input@ ==> !anns_kdl_safe(s),
        r matches Ok(doc) ==> forall|s: Seq<AnnView>|
            #[trigger] anns_text(s) == input@ && anns_kdl_safe(s) ==> ann_nodes(
                kdl_document_model(doc),
                s,
            ),
        r is Err ==> forall|s: Seq<AnnotationView>|
            #[trigger] annotations_text(s) == input@ ==> !annotations_kdl_safe(s),
        r matches Ok(doc) ==> forall|s: Seq<AnnotationView>|
            #[trigger] annotations_text(s) == input@ && annotations_kdl_safe(s) ==> annotation_nodes(
                kdl_document_model(doc),
                s,
            ),
{
    input.parse::<kdl::KdlDocument>()
}

/// `KdlDocument::nodes`, with each node converted one for one through
/// `KdlNode::name`, `KdlNode::entries` (`KdlEntry::name`, `KdlValue::as_string`,
/// `KdlValue::as_integer`) and `KdlNode::children`, recursively.
#[verifier::external_body]
fn kdl_document_nodes(doc: &kdl::KdlDocument) -> (r: Vec<KdlNodeModel>)
    ensures
        r@ == kdl_document_model(*doc),
{
    doc.nodes().iter().map(|n| KdlNodeModel {
        name: n.name().value().to_string(),
        entries: n.entries().iter().map(|e| KdlEntryModel {
            name: e.name().map(|i| i.value().to_string()),
            string: e.value().as_string().map(|s| s.to_string()),
            integer: e.value().as_integer(),
        }).collect(),
        children: n.children().map(kdl_document_nodes),
    }).collect()
}

/// Parse `input` as a KDL document and return its top-level nodes.
pub fn parse_kdl(input: &str) -> (r: Result<Vec<KdlNodeModel>, kdl::KdlError>)
    ensures
        match r {
            Ok(nodes) => kdl_parse_model(input@) == Some(nodes@),
            Err(_) => kdl_parse_model(input@) is None,
        },
        forall|s: Seq<AnnView>|
            #[trigger] anns_text(s) == input@ && anns_kdl_safe(s) ==> (r matches Ok(nodes) && ann_nodes(
                nodes@,
                s,
            )),
        forall|s: Seq<AnnotationView>|
            #[trigger] annotations_text(s) == input@ && annotations_kdl_safe(s) ==> (r matches Ok(nodes)
                && annotation_nodes(nodes@, s)),
{
    match kdl_parse_document(input) {
        Ok(doc) => Ok(kdl_document_nodes(&doc)),
        Err(e) => Err(e),
    }
}

// ---------------------------------------------------------------------------
// Lookups
// ---------------------------------------------------------------------------

/// The first node of `nodes` named `name` (`KdlDocument::get`).
pub open spec fn doc_get(nodes: Seq<KdlNodeModel>, name: Seq<char>) -> Option<KdlNodeModel>
    decreases nodes.len(),
{
    if nodes.len() == 0 {
        None
    } else if nodes[0].name@ == name {
        Some(nodes[0])
    } else {
        doc_get(nodes.drop_first(), name)
    }
}

/// Whether `e` is the property `key=...`.
pub open spec fn entry_is_prop(e: KdlEntryModel, key: Seq<char>) -> bool {
    e.name matches Some(n) && n@ == key
}

/// The last entry of `entries` that is the property `key` (`KdlNode::get`
/// with a string key: a later property of the same name overrides).
pub open spec fn node_prop(entries: Seq<KdlEntryModel>, key: Seq<char>) -> Option<KdlEntryModel>
    decreases entries.len(),
{
    if entries.len() == 0 {
        None
    } else if entry_is_prop(entries.last(), key) {
        Some(entries.last())
    } else {
        node_prop(entries.drop_last(), key)
    }
}

/// The view of an optional string.
pub open spec fn opt_str(o: Option<String>) -> Option<Seq<char>> {
    match o {
        Some(s) => Some(s@),
        None => None,
    }
}

/// The string value of the first entry of the first node named `name`.
pub open spec fn child_string(nodes: Seq<KdlNodeModel>, name: Seq<char>) -> Option<Seq<char>> {
    match doc_get(nodes, name) {
        Some(n) => if n.entries@.len() > 0 {
            opt_str(n.entries@[0].string)
        } else {
            None
        },
        None => None,
    }
}

/// The integer value of the first entry of the first node named `name`.
pub open spec fn child_integer(nodes: Seq<KdlNodeModel>, name: Seq<char>) -> Option<i128> {
    match doc_get(nodes, name) {
        Some(n) => if n.entries@.len() > 0 {
            n.entries@[0].integer
        } else {
            None
        },
        None => None,
    }
}

/// The string value of the property `key` of a node.
pub open spec fn prop_string(entries: Seq<KdlEntryModel>, key: Seq<char>) -> Option<Seq<char>> {
    match node_prop(entries, key) {
        Some(e) => opt_str(e.string),
        None => None,
    }
}

/// The integer value of the property `key` of a node.
pub open spec fn prop_integer(entries: Seq<KdlEntryModel>, key: Seq<char>) -> Option<i128> {
    match node_prop(entries, key) {
        Some(e) => e.integer,
        None => None,
    }
}

/// Whether two strings hold the same characters.
pub fn str_eq(a: &str, b: &str) -> (r: bool)
    ensures
        r == (a@ == b@),
{
    let x = str_chars(a);
    let y = str_chars(b);
    chars_eq(&x, &y)
}

/// A copy of an optional string.
pub fn clone_opt_string(o: &Option<String>) -> (r: Option<String>)
    ensures
        opt_str(r) == opt_str(*o),
{
    match o {
        Some(s) => Some(s.clone()),
        None => None,
    }
}

/// The index of the first node of `nodes` named `name`.
pub fn doc_get_index(nodes: &[KdlNodeModel], name: &str) -> (r: Option<usize>)
    ensures
        match r {
            Some(i) => i < nodes@.len() && doc_get(nodes@, name@) == Some(nodes@[i as int]),
            None => doc_get(nodes@, name@) is None,
        },
{
    let mut i: usize = 0;
    assert(nodes@.subrange(0, nodes@.len() as int) =~= nodes@);
    while i < nodes.len()
        invariant
            i <= nodes@.len(),
            doc_get(nodes@, name@) == doc_get(nodes@.subrange(i as int, nodes@.len() as int), name@),
        decreases nodes@.len() - i,
    {
        let ghost rest = nodes@.subrange(i as int, nodes@.len() as int);
        assert(rest.drop_first() =~= nodes@.subrange(i + 1, nodes@.len() as int));
        if str_eq(nodes[i].name.as_str(), name) {
            return Some(i);
        }
        i = i + 1;
    }
    None
}

/// The index of the entry that `node_prop(entries, key)` picks.
pub fn node_prop_index(entries: &[KdlEntryModel], key: &str) -> (r: Option<usize>)
    ensures
        match r {
            Some(i) => i < entries@.len() && node_prop(entries@, key@) == Some(entries@[i as int]),
            None => node_prop(entries@, key@) is None,
        },
{
    let mut found: Option<usize> = None;
    let mut i: usize = 0;
    while i < entries.len()
        invariant
            i <= entries@.len(),
            match found {
                Some(j) => j < i && node_prop(entries@.take(i as int), key@) == Some(
                    entries@[j as int],
                ),
                None => node_prop(entries@.take(i as int), key@) is None,
            },
        decreases entries@.len() - i,
    {
        assert(entries@.take(i + 1).drop_last() =~= entries@.take(i as int));
        let is_prop = match &entries[i].name {
            Some(n) => str_eq(n.as_str(), key),
            None => false,
        };
        if is_prop {
            found = Some(i);
        }
        i = i + 1;
    }
    assert(entries@.take(entries@.len() as int) =~= entries@);
    found
}

/// The string value of the first entry of the first node named `name`
/// (`doc.get(name)?.entries().first()?.value().as_string()`).
pub fn get_child_string(nodes: &[KdlNodeModel], name: &str) -> (r: Option<String>)
    ensures
        opt_str(r) == child_string(nodes@, name@),
{
    match doc_get_index(nodes, name) {
        Some(i) => {
            let n = &nodes[i];
            if n.entries.len() > 0 {
                clone_opt_string(&n.entries[0].string)
            } else {
                None
            }
        },
        None => None,
    }
}

/// The integer value of the first entry of the first node named `name`.
pub fn get_child_integer(nodes: &[KdlNodeModel], name: &str) -> (r: Option<i128>)
    ensures
        r == child_integer(nodes@, name@),
{
    match doc_get_index(nodes, name) {
        Some(i) => {
            let n = &nodes[i];
            if n.entries.len() > 0 {
                n.entries[0].integer
            } else {
                None
            }
        },
        None => None,
    }
}

/// The string value of the property `key` (`node.get(key)?.as_string()`).
pub fn get_prop_string(entries: &[KdlEntryModel], key: &str) -> (r: Option<String>)
    ensures
        opt_str(r) == prop_string(entries@, key@),
{
    match node_prop_index(entries, key) {
        Some(i) => clone_opt_string(&entries[i].string),
        None => None,
    }
}

/// The integer value of the property `key` (`node.get(key)?.as_integer()`).
pub fn get_prop_integer(entries: &[KdlEntryModel], key: &str) -> (r: Option<i128>)
    ensures
        r == prop_integer(entries@, key@),
{
    match node_prop_index(entries, key) {
        Some(i) => entries[i].integer,
        None => None,
    }
}

} // verus!
