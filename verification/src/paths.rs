//! The parts of a file path that the example and template catalogs read.

use vstd::prelude::*;
use crate::cli::args::opt_view;

verus! {

/// The parent of `path`: what `std::path::Path::parent` gives for it.
pub uninterp spec fn path_parent(path: Seq<char>) -> Option<Seq<char>>;

/// The last component of `path`: what `std::path::Path::file_name` gives.
pub uninterp spec fn path_file_name(path: Seq<char>) -> Option<Seq<char>>;

/// The last component of `path` without its extension: what
/// `std::path::Path::file_stem` gives.
pub uninterp spec fn path_file_stem(path: Seq<char>) -> Option<Seq<char>>;

/// `std::path::Path::parent` of `path`, as text. The contract names the
/// result only; how std splits components is not restated.
#[verifier::external_body]
pub(crate) fn parent_of(path: &str) -> (r: Option<String>)
    ensures
        opt_view(r) == path_parent(path@),
{
    std::path::Path::new(path).parent().and_then(|p| p.to_str()).map(|p| p.to_string())
}

/// `std::path::Path::file_name` of `path`, as text. The contract names the
/// result only; how std splits components is not restated.
#[verifier::external_body]
pub(crate) fn file_name_of(path: &str) -> (r: Option<String>)
    ensures
        opt_view(r) == path_file_name(path@),
{
    std::path::Path::new(path).file_name().and_then(|p| p.to_str()).map(|p| p.to_string())
}

/// `std::path::Path::file_stem` of `path`, as text. The contract names the
/// result only; how std splits the name from its extension is not restated.
#[verifier::external_body]
pub(crate) fn file_stem_of(path: &str) -> (r: Option<String>)
    ensures
        opt_view(r) == path_file_stem(path@),
{
    std::path::Path::new(path).file_stem().and_then(|p| p.to_str()).map(|p| p.to_string())
}

/// The name of the directory that holds `path`, if any.
pub open spec fn parent_dir_name(path: Seq<char>) -> Option<Seq<char>> {
    match path_parent(path) {
        Some(p) => path_file_name(p),
        None => None,
    }
}

/// The name of the directory that holds `path`, if any.
pub fn parent_dir_name_of(path: &str) -> (r: Option<String>)
    ensures
        opt_view(r) == parent_dir_name(path@),
{
    match parent_of(path) {
        Some(p) => file_name_of(p.as_str()),
        None => None,
    }
}

/// The name of the file at `path` without its extension, or `unknown`.
pub open spec fn stem_or_unknown(path: Seq<char>) -> Seq<char> {
    match path_file_stem(path) {
        Some(s) => s,
        None => "unknown"@,
    }
}

/// The name of the file at `path` without its extension, or `unknown`.
pub fn file_stem_or_unknown(path: &str) -> (r: String)
    ensures
        r@ == stem_or_unknown(path@),
{
    match file_stem_of(path) {
        Some(s) => s,
        None => "unknown".to_owned(),
    }
}

} // verus!
