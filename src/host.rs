//! Questions put to the host filesystem. Their answers depend on the state of
//! the filesystem at the time of the call.
use vstd::prelude::*;

use crate::path::SLASH;

verus! {

/// Relies on std's `Path::exists`: whether a node exists at the path. The
/// answer depends on the filesystem, so nothing is promised of it.
#[verifier::external_body]
pub(crate) fn path_exists(path: &String) -> (r: bool) {
    std::path::Path::new(path).exists()
}

/// Relies on std's `Path::canonicalize`: the absolute path with every
/// symbolic link, `.` and `..` resolved, if the path exists. The answer
/// depends on the filesystem; a result that is not UTF-8 counts as a failure.
#[verifier::external_body]
pub(crate) fn canonicalize(path: &String) -> (r: Option<Vec<u8>>)
    ensures
        r matches Some(c) ==> c@.len() > 0 && c@[0] == SLASH,
{
    let canonical = std::path::Path::new(path).canonicalize().ok()?;
    canonical.to_str().map(|s| s.as_bytes().to_vec())
}

/// Relies on std's `Path::read_link`: whether the path names a symbolic link.
/// The answer depends on the filesystem; a path that is not UTF-8 counts as
/// no link.
#[verifier::external_body]
pub(crate) fn is_symlink(path: &[u8]) -> (r: bool) {
    std::str::from_utf8(path).map_or(false, |s| std::path::Path::new(s).read_link().is_ok())
}

} // verus!
