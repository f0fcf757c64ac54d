//! The two path questions the scanner asks of a file path: its final component
//! and its extension, as `std::path::Path` answers them.
use vstd::prelude::*;

verus! {

/// What `Path::file_name` returns for a path given as text (`None` for a path that
/// ends in `..` or is a root).
pub uninterp spec fn path_file_name(p: Seq<char>) -> Option<Seq<char>>;

/// What `Path::extension` returns for a path given as text: the part of the final
/// component after its last `.`, `None` where there is no `.`, or the only `.` is the
/// first character.
pub uninterp spec fn path_extension(p: Seq<char>) -> Option<Seq<char>>;

/// Calls `Path::file_name` on the path; the result is named `path_file_name`.
#[verifier::external_body]
pub(crate) fn file_name(path: &str) -> (r: Option<String>)
    ensures
        r matches Some(s) ==> path_file_name(path@) == Some(s@),
        r is None ==> path_file_name(path@) is None,
{
    std::path::Path::new(path).file_name().map(|s| s.to_string_lossy().into_owned())
}

/// Calls `Path::extension` on the path; the result is named `path_extension`.
#[verifier::external_body]
pub(crate) fn extension(path: &str) -> (r: Option<String>)
    ensures
        r matches Some(s) ==> path_extension(path@) == Some(s@),
        r is None ==> path_extension(path@) is None,
{
    std::path::Path::new(path).extension().map(|s| s.to_string_lossy().into_owned())
}

/// The final component of a path, or the empty string where it has none.
pub open spec fn base_name(p: Seq<char>) -> Seq<char> {
    match path_file_name(p) {
        Some(s) => s,
        None => Seq::empty(),
    }
}

/// The extension of a path, or the empty string where it has none.
pub open spec fn ext_name(p: Seq<char>) -> Seq<char> {
    match path_extension(p) {
        Some(s) => s,
        None => Seq::empty(),
    }
}

/// The final component of `path`, or `""`.
pub fn base_name_of(path: &str) -> (r: String)
    ensures
        r@ == base_name(path@),
{
    match file_name(path) {
        Some(s) => s,
        None => String::new(),
    }
}

/// The extension of `path`, or `""`.
pub fn ext_name_of(path: &str) -> (r: String)
    ensures
        r@ == ext_name(path@),
{
    match extension(path) {
        Some(s) => s,
        None => String::new(),
    }
}

} // verus!
