//! Path arithmetic on strings, done by `std::path`.
//!
//! Paths are held as text. What the standard library makes of a path (its
//! parent, its final component, the number of its components) is named
//! here and not spelled out. All that is known of it is that a parent has
//! fewer components than the path it was taken from.

use vstd::prelude::*;

verus! {

/// The path without its final component, as `std::path::Path::parent`
/// gives it; `None` where the path ends in a root or is empty.
pub uninterp spec fn std_parent_of(path: Seq<char>) -> Option<Seq<char>>;

/// The final component of the path, as `std::path::Path::file_name` gives
/// it; `None` where the path ends in `..` or has no component.
pub uninterp spec fn file_name_of(path: Seq<char>) -> Option<Seq<char>>;

/// The number of components of the path, as counted by
/// `std::path::Path::components`.
pub uninterp spec fn depth_of(path: Seq<char>) -> usize;

/// The parent of a path: the path without its final component, which
/// has fewer components than the path itself.
pub open spec fn parent_of(path: Seq<char>) -> Option<Seq<char>> {
    match std_parent_of(path) {
        Some(up) => if depth_of(up) < depth_of(path) {
            Some(up)
        } else {
            None
        },
        None => None,
    }
}

/// The characters of an optional string.
pub open spec fn text_of(s: Option<String>) -> Option<Seq<char>> {
    match s {
        Some(t) => Some(t@),
        None => None,
    }
}

/// `std::path::Path::parent`: the path without its final component. The
/// parent is a leading part of the path, so it is text again, and it has
/// fewer components than the path it was taken from.
#[verifier::external_body]
pub(crate) fn path_parent(path: &str) -> (r: Option<String>)
    ensures
        text_of(r) == std_parent_of(path@),
        r matches Some(q) ==> depth_of(q@) < depth_of(path@),
{
    std::path::Path::new(path).parent().map(|p| p.to_string_lossy().into_owned())
}

/// `std::path::Path::file_name`: the final component of the path, which
/// is a part of the path and so text again.
#[verifier::external_body]
pub(crate) fn path_file_name(path: &str) -> (r: Option<String>)
    ensures
        text_of(r) == file_name_of(path@),
{
    std::path::Path::new(path).file_name().map(|n| n.to_string_lossy().into_owned())
}

/// `std::path::Path::components`, counted.
#[verifier::external_body]
pub(crate) fn path_depth(path: &str) -> (r: usize)
    ensures
        r == depth_of(path@),
{
    std::path::Path::new(path).components().count()
}

} // verus!
