//! Paths of the operating system, which are only handed on.

use vstd::prelude::*;

verus! {

/// The standard library's `PathBuf`, of which nothing is known but its
/// identity.
#[verifier::external_type_specification]
#[verifier::external_body]
pub struct ExPathBuf(std::path::PathBuf);

/// Copies a path.
///
/// Calls `Clone::clone` of `std::path::PathBuf`, which returns a duplicate of
/// the path.
#[verifier::external_body]
pub(crate) fn copy_path(path: &std::path::PathBuf) -> (copy: std::path::PathBuf)
    ensures
        copy == *path,
{
    path.clone()
}

} // verus!
