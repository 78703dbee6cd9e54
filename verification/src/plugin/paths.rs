//! Directory paths compared as paths, the way `std::path::Path` compares them.
use vstd::prelude::*;

verus! {

/// What `Path::new(a) == Path::new(b)` returns for the texts `a` and `b`.
pub uninterp spec fn spec_same_path(a: Seq<char>, b: Seq<char>) -> bool;

/// Calls `PartialEq::eq` on `Path::new(a)` and `Path::new(b)`, which compares the
/// paths by their components under the platform's rules (separators, and on
/// Windows prefixes). The result is named by `spec_same_path`; of it only that
/// equal texts are the same path is stated.
#[verifier::external_body]
fn same_path(a: &str, b: &str) -> (r: bool)
    ensures
        r == spec_same_path(a@, b@),
        a@ == b@ ==> r,
{
    std::path::Path::new(a) == std::path::Path::new(b)
}

/// `a` and `b` name the same path: the same text, or the same path to
/// `std::path::Path`.
pub open spec fn same_dir(a: Seq<char>, b: Seq<char>) -> bool {
    a == b || spec_same_path(a, b)
}

/// Whether `a` and `b` name the same path (see `same_dir`).
pub fn same_dir_str(a: &str, b: &str) -> (r: bool)
    ensures
        r == same_dir(a@, b@),
{
    same_path(a, b)
}

} // verus!
