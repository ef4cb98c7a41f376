//! File-name arithmetic on paths held as strings (`std::path`).
use vstd::prelude::*;

verus! {

/// `Path::file_stem` of a path, or the empty string when it has none.
pub uninterp spec fn path_stem(p: Seq<char>) -> Seq<char>;

/// `Path::extension` of a path, when it has one.
pub uninterp spec fn path_extension(p: Seq<char>) -> Option<Seq<char>>;

/// `Path::parent` of a path, when it has one.
pub uninterp spec fn path_parent(p: Seq<char>) -> Option<Seq<char>>;

/// `Path::join` of two paths.
pub uninterp spec fn path_join(base: Seq<char>, name: Seq<char>) -> Seq<char>;

/// The file stem of `p` (`std::path::Path::file_stem`), empty when there is none.
/// Claims only that the result is the stem that `Path` computes for `p`.
#[verifier::external_body]
pub(crate) fn file_stem(p: &str) -> (r: String)
    ensures
        r@ == path_stem(p@),
{
    std::path::Path::new(p).file_stem().map(|s| s.to_string_lossy().into_owned()).unwrap_or_default()
}

/// The extension of `p` without its dot (`std::path::Path::extension`).
/// Claims only that the result is the extension that `Path` computes for `p`.
#[verifier::external_body]
pub(crate) fn file_extension(p: &str) -> (r: Option<String>)
    ensures
        r matches Some(e) ==> path_extension(p@) == Some(e@),
        r is None ==> path_extension(p@) is None,
{
    std::path::Path::new(p).extension().map(|e| e.to_string_lossy().into_owned())
}

/// The parent directory of `p` (`std::path::Path::parent`).
/// Claims only that the result is the parent that `Path` computes for `p`.
#[verifier::external_body]
pub(crate) fn parent_dir(p: &str) -> (r: Option<String>)
    ensures
        r matches Some(d) ==> path_parent(p@) == Some(d@),
        r is None ==> path_parent(p@) is None,
{
    std::path::Path::new(p).parent().map(|d| d.to_string_lossy().into_owned())
}

/// `base` joined with `name` (`std::path::Path::join`).
/// Claims only that the result is the join that `Path` computes.
#[verifier::external_body]
pub(crate) fn join_path(base: &str, name: &str) -> (r: String)
    ensures
        r@ == path_join(base@, name@),
{
    std::path::Path::new(base).join(name).to_string_lossy().into_owned()
}

/// `Path::file_name` of a path, when it has one.
pub uninterp spec fn path_file_name(p: Seq<char>) -> Option<Seq<char>>;

/// The final component of `p` (`std::path::Path::file_name`).
/// Claims only that the result is the file name that `Path` computes for `p`.
#[verifier::external_body]
pub(crate) fn file_name(p: &str) -> (r: Option<String>)
    ensures
        r matches Some(n) ==> path_file_name(p@) == Some(n@),
        r is None ==> path_file_name(p@) is None,
{
    std::path::Path::new(p).file_name().map(|n| n.to_string_lossy().into_owned())
}

} // verus!
