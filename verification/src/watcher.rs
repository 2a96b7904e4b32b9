//! What the file watcher decides about a changed path: the kind of file it
//! is, whether it is hidden, and the asset URL under which clients are told
//! to reload it.

use vstd::prelude::*;
use crate::text::{str_chars, chars_to_string, push_str, signed_decimal, push_signed_decimal};
use crate::kdl_tree::{opt_str, str_eq};

verus! {

/// The kind of file a viewer shows.
#[derive(PartialEq, Eq, Structural, Clone, Copy, Debug)]
pub enum FileType {
    Unknown,
    Markdown,
    Image,
    Pdf,
}

/// Commands to control the file watcher.
#[derive(Debug, Clone, PartialEq)]
pub enum WatchCommand {
    /// Watch one directory.
    Add(String),
    /// Watch a directory and everything below it.
    AddRecursive(String),
}

/// What `Path::extension` gives for `path` on this target's path syntax.
pub uninterp spec fn path_extension(path: Seq<char>) -> Option<Seq<char>>;

/// What `Path::components` gives for `path`, each component as a string.
pub uninterp spec fn path_components(path: Seq<char>) -> Seq<Seq<char>>;

/// `Path::extension` on a path given as a string; claims only that the
/// result is a function of the path, named `path_extension`.
#[verifier::external_body]
fn extension_of(path: &str) -> (r: Option<String>)
    ensures
        opt_str(r) == path_extension(path@),
{
    std::path::Path::new(path).extension().map(|e| e.to_string_lossy().into_owned())
}

/// `Path::components` on a path given as a string, each component as a
/// string; claims only that the result is a function of the path.
#[verifier::external_body]
fn components_of(path: &str) -> (r: Vec<String>)
    ensures
        r@.map_values(|c: String| c@) == path_components(path@),
{
    std::path::Path::new(path).components().map(|c| c.as_os_str().to_string_lossy().into_owned()).collect()
}

/// The kind of file that an extension names.
pub open spec fn file_type_of_extension(ext: Option<Seq<char>>) -> FileType {
    match ext {
        Some(e) => if e == "md"@ {
            FileType::Markdown
        } else if e == "png"@ || e == "jpg"@ || e == "jpeg"@ || e == "gif"@ || e == "webp"@ || e
            == "svg"@ {
            FileType::Image
        } else if e == "pdf"@ {
            FileType::Pdf
        } else {
            FileType::Unknown
        },
        None => FileType::Unknown,
    }
}

/// The kind of file that an extension names: `md` is Markdown; `png`,
/// `jpg`, `jpeg`, `gif`, `webp` and `svg` are images; `pdf` is a PDF.
pub fn file_type_from_extension(ext: Option<&str>) -> (r: FileType)
    ensures
        r == file_type_of_extension(
            match ext {
                Some(e) => Some(e@),
                None => None,
            },
        ),
{
    match ext {
        Some(e) => if str_eq(e, "md") {
            FileType::Markdown
        } else if str_eq(e, "png") || str_eq(e, "jpg") || str_eq(e, "jpeg") || str_eq(e, "gif")
            || str_eq(e, "webp") || str_eq(e, "svg") {
            FileType::Image
        } else if str_eq(e, "pdf") {
            FileType::Pdf
        } else {
            FileType::Unknown
        },
        None => FileType::Unknown,
    }
}

/// Detect the kind of file from the extension of `path`.
pub fn detect_file_type(path: &str) -> (r: FileType)
    ensures
        r == file_type_of_extension(path_extension(path@)),
{
    let ext = extension_of(path);
    match ext {
        Some(e) => file_type_from_extension(Some(e.as_str())),
        None => FileType::Unknown,
    }
}

/// Whether one of the components starts with a dot.
pub open spec fn any_hidden(components: Seq<Seq<char>>) -> bool {
    exists|i: int| 0 <= i < components.len() && components[i].len() > 0 && components[i][0] == '.'
}

/// Whether one of `components` starts with a dot.
pub fn has_hidden_component(components: &[String]) -> (r: bool)
    ensures
        r == any_hidden(components@.map_values(|c: String| c@)),
{
    let ghost cs = components@.map_values(|c: String| c@);
    let mut i: usize = 0;
    while i < components.len()
        invariant
            i <= components@.len(),
            cs == components@.map_values(|c: String| c@),
            forall|j: int| 0 <= j < i ==> !(cs[j].len() > 0 && cs[j][0] == '.'),
        decreases components@.len() - i,
    {
        let chars = str_chars(components[i].as_str());
        if chars.len() > 0 && chars[0] == '.' {
            assert(cs[i as int].len() > 0 && cs[i as int][0] == '.');
            return true;
        }
        i = i + 1;
    }
    false
}

/// The kind of a changed file that clients are told about, or `None` where
/// the change is ignored: a hidden path (a component starts with a dot, such
/// as the `.zelland` caches) or a file of unknown kind.
pub open spec fn watched_type(path: Seq<char>) -> Option<FileType> {
    if any_hidden(path_components(path)) {
        None
    } else {
        let t = file_type_of_extension(path_extension(path));
        if t == FileType::Unknown {
            None
        } else {
            Some(t)
        }
    }
}

/// The kind of a changed file that clients are told about, or `None` where
/// the change is ignored.
pub fn watched_file_type(path: &str) -> (r: Option<FileType>)
    ensures
        r == watched_type(path@),
{
    let components = components_of(path);
    if has_hidden_component(components.as_slice()) {
        return None;
    }
    let t = detect_file_type(path);
    if t == FileType::Unknown {
        None
    } else {
        Some(t)
    }
}

/// The URL under which clients fetch a changed asset: `/assets/<id>?t=<ts>`,
/// the timestamp defeating caches.
pub fn asset_url(asset_id: &str, timestamp: i64) -> (r: String)
    ensures
        r@ == "/assets/"@ + asset_id@ + "?t="@ + signed_decimal(timestamp as int),
{
    let mut out: Vec<char> = Vec::new();
    push_str(&mut out, "/assets/");
    push_str(&mut out, asset_id);
    push_str(&mut out, "?t=");
    push_signed_decimal(&mut out, timestamp);
    chars_to_string(&out)
}

} // verus!
