//! Paths, which the library holds as texts and leaves to `std::path` to
//! take apart, put together and compare.

use vstd::prelude::*;

verus! {

/// What `std::path::Path::parent` gives for the path written as `path`,
/// on the platform that the library is built for: the path without its
/// last component, where it has one.
pub uninterp spec fn path_parent(path: Seq<char>) -> Option<Seq<char>>;

/// What `std::path::Path::file_name` gives for the path written as `path`:
/// its last component, where that is the name of a file or directory.
pub uninterp spec fn path_file_name(path: Seq<char>) -> Option<Seq<char>>;

/// What `std::path::Path::join` gives for the paths written as `base` and
/// `path`: `path` as seen from `base`.
pub uninterp spec fn path_join(base: Seq<char>, path: Seq<char>) -> Seq<char>;

/// Whether the paths written as `a` and `b` are equal as `std::path::Path`
/// compares them, component by component.
pub uninterp spec fn path_equal(a: Seq<char>, b: Seq<char>) -> bool;

/// `std::path::Path::parent`, on a path that is held as a text. Nothing is
/// claimed of the result but that it is `path_parent` of that text.
#[verifier::external_body]
pub(crate) fn parent_of(path: &str) -> (r: Option<String>)
    ensures
        match r {
            Some(parent) => path_parent(path@) == Some(parent@),
            None => path_parent(path@).is_none(),
        },
{
    match std::path::Path::new(path).parent() {
        Some(parent) => Some(parent.to_string_lossy().into_owned()),
        None => None,
    }
}

/// `std::path::Path::file_name`, on a path that is held as a text. Nothing
/// is claimed of the result but that it is `path_file_name` of that text.
#[verifier::external_body]
pub(crate) fn file_name_of(path: &str) -> (r: Option<String>)
    ensures
        match r {
            Some(name) => path_file_name(path@) == Some(name@),
            None => path_file_name(path@).is_none(),
        },
{
    match std::path::Path::new(path).file_name() {
        Some(name) => Some(name.to_string_lossy().into_owned()),
        None => None,
    }
}

/// `std::path::Path::join`, on paths that are held as texts. Nothing is
/// claimed of the result but that it is `path_join` of the two texts.
#[verifier::external_body]
pub(crate) fn join_paths(base: &str, path: &str) -> (r: String)
    ensures
        r@ == path_join(base@, path@),
{
    std::path::Path::new(base).join(path).to_string_lossy().into_owned()
}

/// The equality of `std::path::Path`, on paths that are held as texts.
/// Nothing is claimed of the result but that it is `path_equal` of the
/// two texts.
#[verifier::external_body]
pub(crate) fn same_path(a: &str, b: &str) -> (r: bool)
    ensures
        r == path_equal(a@, b@),
{
    std::path::Path::new(a) == std::path::Path::new(b)
}

} // verus!
