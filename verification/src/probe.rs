//! Questions put to the file system. Each answer is a snapshot: the file
//! system may change between the question and any later use of the path.

use vstd::prelude::*;

verus! {

/// Asks the operating system whether `path` names a file that the current
/// process may execute. Calls `nix::unistd::access` with `X_OK`; any error
/// (missing file, no permission, a path with an interior NUL) counts as "no".
/// Nothing is promised of the answer.
#[verifier::external_body]
pub(crate) fn is_executable(path: &str) -> (r: bool) {
    nix::unistd::access(path, nix::unistd::AccessFlags::X_OK).is_ok()
}

/// Asks the operating system whether `path` names an existing directory.
/// Calls `std::path::Path::is_dir`; any error counts as "no".
/// Nothing is promised of the answer.
#[verifier::external_body]
pub(crate) fn is_directory(path: &str) -> (r: bool) {
    std::path::Path::new(path).is_dir()
}

} // verus!
