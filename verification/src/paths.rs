//! What the standard library's path rules say of a path held as text.
//!
//! The two names below stand for the rules of the platform that the crate is
//! built for. The library reasons about them without knowing them.

use vstd::prelude::*;

verus! {

/// The path without its final component, as `std::path::Path::parent`
/// gives it; `None` for a path that ends in a root and for the empty path.
pub uninterp spec fn path_parent(path: Seq<char>) -> Option<Seq<char>>;

/// The final component of the path, as `std::path::Path::file_name` gives
/// it; `None` for a path that ends in a root or in `..`.
pub uninterp spec fn path_file_name(path: Seq<char>) -> Option<Seq<char>>;

/// `std::path::Path::parent`: the path without its final component. The
/// result is what `path_parent` names, and, a component being dropped, it is
/// shorter than `path`.
#[verifier::external_body]
pub(crate) fn parent_of(path: &String) -> (parent: Option<String>)
    ensures
        match parent {
            Some(p) => path_parent(path@) == Some(p@) && p@.len() < path@.len(),
            None => path_parent(path@) is None,
        },
{
    std::path::Path::new(path).parent().map(|p| p.to_string_lossy().into_owned())
}

/// `std::path::Path::file_name`: the final component of the path. The result
/// is what `path_file_name` names.
#[verifier::external_body]
pub(crate) fn file_name_of(path: &String) -> (name: Option<String>)
    ensures
        match name {
            Some(n) => path_file_name(path@) == Some(n@),
            None => path_file_name(path@) is None,
        },
{
    std::path::Path::new(path).file_name().map(|n| n.to_string_lossy().into_owned())
}

} // verus!
