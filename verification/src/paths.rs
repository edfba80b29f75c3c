//! File paths, held as text (`/`-separated, as on the platforms the app runs on).
use vstd::prelude::*;

verus! {

/// The extension of a path's final component, as `Path::extension` computes it.
pub uninterp spec fn extension_of(path: Seq<char>) -> Option<Seq<char>>;

/// Calls `Path::extension` (then `OsStr::to_str`). The contract names the result; std
/// documents that a final component without a dot past its first character has none.
#[verifier::external_body]
pub(crate) fn extension(path: &str) -> (r: Option<String>)
    ensures
        crate::parser::opt_str(r) == extension_of(path@),
        (forall|i: int| 0 <= i < path@.len() ==> path@[i] != '.') ==> r is None,
{
    std::path::Path::new(path).extension().and_then(|e| e.to_str()).map(|e| e.to_string())
}

/// The path with its final component replaced, as `Path::with_file_name` computes it.
pub uninterp spec fn with_file_name_of(path: Seq<char>, name: Seq<char>) -> Seq<char>;

/// Calls `Path::with_file_name` (then `Path::to_string_lossy`, lossless on text that came
/// from a `&str`). The contract names the result.
#[verifier::external_body]
pub(crate) fn with_file_name(path: &str, name: &str) -> (r: String)
    ensures
        r@ == with_file_name_of(path@, name@),
{
    std::path::Path::new(path).with_file_name(name).to_string_lossy().to_string()
}

/// Whether two paths are equal component by component, as `Path`'s `==` decides.
pub uninterp spec fn same_path_of(a: Seq<char>, b: Seq<char>) -> bool;

/// Calls `==` on two `Path`s. The contract names the result; std's component-wise
/// comparison holds equal text equal.
#[verifier::external_body]
pub(crate) fn same_path(a: &str, b: &str) -> (r: bool)
    ensures
        r == same_path_of(a@, b@),
        a@ == b@ ==> r,
{
    std::path::Path::new(a) == std::path::Path::new(b)
}

} // verus!
