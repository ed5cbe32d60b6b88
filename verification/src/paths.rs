//! The few questions the registry asks of `std::path` about script paths.
//!
//! The answers follow the path rules of the platform the crate is built for; they depend on
//! the text of the path alone, not on what lies on disk. Each is given a name, and the
//! functions that read these names state their results over them.

use vstd::prelude::*;

verus! {

/// Whether `std::path::Path::is_absolute` holds of a path.
pub uninterp spec fn path_is_absolute(path: Seq<char>) -> bool;

/// The text of `std::path::Path::join` of `base` with `tail`.
pub uninterp spec fn path_join(base: Seq<char>, tail: Seq<char>) -> Seq<char>;

/// What `std::path::Path::file_name` gives of a path, as text.
pub uninterp spec fn path_file_name(path: Seq<char>) -> Option<Seq<char>>;

/// What `std::path::Path::extension` gives of a path, as text.
pub uninterp spec fn path_extension(path: Seq<char>) -> Option<Seq<char>>;

/// Calls `std::path::Path::is_absolute`. Trusted to answer `path_is_absolute` of the text
/// it is given.
#[verifier::external_body]
pub(crate) fn is_absolute_path(path: &str) -> (absolute: bool)
    ensures
        absolute == path_is_absolute(path@),
{
    std::path::Path::new(path).is_absolute()
}

/// Calls `std::path::Path::join` and turns the joined path back into text. Trusted to give
/// `path_join` of its two arguments; the text is valid UTF-8, so nothing is lost on the way.
#[verifier::external_body]
pub(crate) fn join_path(base: &str, tail: &str) -> (joined: String)
    ensures
        joined@ == path_join(base@, tail@),
{
    std::path::Path::new(base).join(tail).to_string_lossy().into_owned()
}

/// Calls `std::path::Path::file_name`. Trusted to give `path_file_name` of its argument,
/// `None` exactly where that name is `None`.
#[verifier::external_body]
pub(crate) fn file_name_of(path: &str) -> (name: Option<String>)
    ensures
        match name {
            Some(n) => path_file_name(path@) == Some(n@),
            None => path_file_name(path@) is None,
        },
{
    std::path::Path::new(path).file_name().and_then(|n| n.to_str()).map(|n| n.to_string())
}

/// Calls `std::path::Path::extension`. Trusted to give `path_extension` of its argument,
/// `None` exactly where that name is `None`.
#[verifier::external_body]
pub(crate) fn extension_of(path: &str) -> (ext: Option<String>)
    ensures
        match ext {
            Some(e) => path_extension(path@) == Some(e@),
            None => path_extension(path@) is None,
        },
{
    std::path::Path::new(path).extension().and_then(|e| e.to_str()).map(|e| e.to_string())
}

} // verus!
