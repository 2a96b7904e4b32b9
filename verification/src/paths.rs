//! Sidecar and cache paths derived from a source file's path, and the
//! joining of a relative directory name onto a base path.
//!
//! Paths are handled as strings. Where the splitting of a path into its
//! components decides the result, the library asks `std::path::Path`.

use vstd::prelude::*;
use crate::text::{str_chars, chars_to_string, push_str};
use crate::kdl_tree::opt_str;

verus! {

/// What `Path::file_stem` gives for `path` on this target's path syntax.
pub uninterp spec fn path_file_stem(path: Seq<char>) -> Option<Seq<char>>;

/// What `Path::file_name` gives for `path` on this target's path syntax.
pub uninterp spec fn path_file_name(path: Seq<char>) -> Option<Seq<char>>;

/// What `Path::with_file_name` gives for `path` and `name`.
pub uninterp spec fn path_with_file_name(path: Seq<char>, name: Seq<char>) -> Seq<char>;

/// `Path::file_stem` on a path given as a string; claims only that the
/// result is a function of the path, named `path_file_stem`.
#[verifier::external_body]
fn file_stem_of(path: &str) -> (r: Option<String>)
    ensures
        opt_str(r) == path_file_stem(path@),
{
    std::path::Path::new(path).file_stem().map(|s| s.to_string_lossy().into_owned())
}

/// `Path::file_name` on a path given as a string; claims only that the
/// result is a function of the path, named `path_file_name`.
#[verifier::external_body]
pub(crate) fn file_name_of(path: &str) -> (r: Option<String>)
    ensures
        opt_str(r) == path_file_name(path@),
{
    std::path::Path::new(path).file_name().map(|s| s.to_string_lossy().into_owned())
}

/// `Path::with_file_name` on strings; claims only that the result is a
/// function of its arguments, named `path_with_file_name`.
#[verifier::external_body]
fn with_file_name(path: &str, name: &str) -> (r: String)
    ensures
        r@ == path_with_file_name(path@, name@),
{
    std::path::Path::new(path).with_file_name(name).to_string_lossy().into_owned()
}

/// `o`, or the empty string where it is `None`.
pub open spec fn name_or_empty(o: Option<Seq<char>>) -> Seq<char> {
    match o {
        Some(s) => s,
        None => Seq::empty(),
    }
}

/// The file name of the `.ann.kdl` sidecar of a file whose stem is `stem`.
pub fn ann_kdl_file_name(stem: Option<String>) -> (r: String)
    ensures
        r@ == name_or_empty(opt_str(stem)) + ".ann.kdl"@,
{
    let mut out: Vec<char> = match stem {
        Some(s) => str_chars(s.as_str()),
        None => Vec::new(),
    };
    push_str(&mut out, ".ann.kdl");
    chars_to_string(&out)
}

/// The file name of the hidden history cache of a file named `name`.
pub fn loro_cache_file_name(name: Option<String>) -> (r: String)
    ensures
        r@ == "."@ + name_or_empty(opt_str(name)) + ".zelland"@,
{
    let mut out: Vec<char> = Vec::new();
    push_str(&mut out, ".");
    match name {
        Some(s) => push_str(&mut out, s.as_str()),
        None => {},
    }
    push_str(&mut out, ".zelland");
    assert(out@ =~= "."@ + name_or_empty(opt_str(name)) + ".zelland"@);
    chars_to_string(&out)
}

/// The `.ann.kdl` sidecar of a source file: `README.md` → `README.ann.kdl`,
/// `docs/notes.txt` → `docs/notes.ann.kdl`.
pub fn ann_kdl_path(source_path: &str) -> (r: String)
    ensures
        r@ == path_with_file_name(
            source_path@,
            name_or_empty(path_file_stem(source_path@)) + ".ann.kdl"@,
        ),
{
    let name = ann_kdl_file_name(file_stem_of(source_path));
    with_file_name(source_path, name.as_str())
}

/// The hidden history cache of a source file: `.<file name>.zelland` beside it.
pub fn loro_cache_path(source_path: &str) -> (r: String)
    ensures
        r@ == path_with_file_name(
            source_path@,
            "."@ + name_or_empty(path_file_name(source_path@)) + ".zelland"@,
        ),
{
    let name = loro_cache_file_name(file_name_of(source_path));
    with_file_name(source_path, name.as_str())
}

/// `base` joined with the relative name `name` (`PathBuf::push` of a
/// relative path): a `/` goes between them unless `base` is empty or
/// already ends with one.
pub open spec fn join_relative(base: Seq<char>, name: Seq<char>) -> Seq<char> {
    if base.len() == 0 || base.last() == '/' {
        base + name
    } else {
        base + seq!['/'] + name
    }
}

/// `base` joined with the relative name `name`.
pub fn join_relative_path(base: &str, name: &str) -> (r: String)
    ensures
        r@ == join_relative(base@, name@),
{
    let mut out = str_chars(base);
    let n = out.len();
    if n > 0 && out[n - 1] != '/' {
        out.push('/');
    }
    push_str(&mut out, name);
    chars_to_string(&out)
}

/// `base` joined with `p` (`PathBuf::push`): an absolute `p` replaces
/// `base`, a relative one is joined with `join_relative`.
pub open spec fn join_path(base: Seq<char>, p: Seq<char>) -> Seq<char> {
    if p.len() > 0 && p[0] == '/' {
        p
    } else {
        join_relative(base, p)
    }
}

/// `base` joined with `p`; an absolute `p` replaces `base`.
pub fn join_path_str(base: &str, p: &str) -> (r: String)
    ensures
        r@ == join_path(base@, p@),
{
    let pc = str_chars(p);
    if pc.len() > 0 && pc[0] == '/' {
        chars_to_string(&pc)
    } else {
        join_relative_path(base, p)
    }
}

} // verus!
