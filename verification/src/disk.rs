//! Questions to the file system.
//!
//! The answers depend on what is on disk at the moment of asking, so nothing
//! is promised of them: whoever asks is verified for either answer.

use vstd::prelude::*;

verus! {

/// `std::path::Path::exists`: whether anything is found at `path`. The
/// answer is whatever the file system says at the time.
#[verifier::external_body]
pub(crate) fn path_exists(path: &str) -> (found: bool) {
    std::path::Path::new(path).exists()
}

/// `std::path::Path::is_file`: whether `path` leads to a regular file. The
/// answer is whatever the file system says at the time.
#[verifier::external_body]
pub(crate) fn is_regular_file(path: &str) -> (found: bool) {
    std::path::Path::new(path).is_file()
}

/// `std::path::Path::is_dir`: whether `path` leads to a directory. The
/// answer is whatever the file system says at the time.
#[verifier::external_body]
pub(crate) fn is_directory(path: &str) -> (found: bool) {
    std::path::Path::new(path).is_dir()
}

} // verus!
