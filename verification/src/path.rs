//! File paths, held as text, and the `std::path` operations on them.
//!
//! Paths are handled as strings; the path syntax (separators, components) is
//! that of `std::path::Path` on the target the crate is built for, which is
//! fixed for a given build.
use vstd::prelude::*;

verus! {

/// `Path::new(p).parent()`, as text.
pub uninterp spec fn path_parent(p: Seq<char>) -> Option<Seq<char>>;

/// `Path::new(base).join(rel)`, as text.
pub uninterp spec fn path_join(base: Seq<char>, rel: Seq<char>) -> Seq<char>;

/// `Path::new(p).file_name()`, as text.
pub uninterp spec fn path_file_name(p: Seq<char>) -> Option<Seq<char>>;

/// `Path::new(p).extension()`, as text.
pub uninterp spec fn path_extension(p: Seq<char>) -> Option<Seq<char>>;

/// The view of an optional owned string.
pub open spec fn opt_view(o: Option<String>) -> Option<Seq<char>> {
    match o {
        Some(s) => Some(s@),
        None => None,
    }
}

/// Calls `Path::parent` on `path`.
///
/// Claims: the result is the named `path_parent(path)`.
#[verifier::external_body]
pub(crate) fn parent_of(path: &str) -> (r: Option<String>)
    ensures
        opt_view(r) == path_parent(path@),
{
    std::path::Path::new(path).parent().map(|p| p.to_string_lossy().into_owned())
}

/// Calls `Path::join` on `base` and `rel`.
///
/// Claims: the result is the named `path_join(base, rel)`.
#[verifier::external_body]
pub(crate) fn join_paths(base: &str, rel: &str) -> (r: String)
    ensures
        r@ == path_join(base@, rel@),
{
    std::path::Path::new(base).join(rel).to_string_lossy().into_owned()
}

/// Calls `Path::file_name` on `path`.
///
/// Claims: the result is the named `path_file_name(path)`.
#[verifier::external_body]
pub(crate) fn file_name_of(path: &str) -> (r: Option<String>)
    ensures
        opt_view(r) == path_file_name(path@),
{
    std::path::Path::new(path).file_name().map(|n| n.to_string_lossy().into_owned())
}

/// Calls `Path::extension` on `path`.
///
/// Claims: the result is the named `path_extension(path)`.
#[verifier::external_body]
pub(crate) fn extension_of(path: &str) -> (r: Option<String>)
    ensures
        opt_view(r) == path_extension(path@),
{
    std::path::Path::new(path).extension().map(|e| e.to_string_lossy().into_owned())
}

/// Whether `e` equals `md` ignoring ASCII case.
pub open spec fn is_md_extension(e: Seq<char>) -> bool {
    e.len() == 2 && (e[0] == 'm' || e[0] == 'M') && (e[1] == 'd' || e[1] == 'D')
}

/// Whether the path names a markdown file: its extension is `md` in any
/// ASCII case.
pub open spec fn names_markdown(path: Seq<char>) -> bool {
    match path_extension(path) {
        Some(e) => is_md_extension(e),
        None => false,
    }
}

/// Whether `e` equals `md`, ignoring ASCII case.
pub fn md_extension(e: &str) -> (b: bool)
    ensures
        b == is_md_extension(e@),
{
    let cs = crate::text::chars_of(e);
    cs.len() == 2 && (cs[0] == 'm' || cs[0] == 'M') && (cs[1] == 'd' || cs[1] == 'D')
}

/// Returns whether `path` has a `.md` extension, in any ASCII case.
pub fn is_markdown(path: &str) -> (b: bool)
    ensures
        b == names_markdown(path@),
{
    match extension_of(path) {
        Some(e) => md_extension(e.as_str()),
        None => false,
    }
}

} // verus!
