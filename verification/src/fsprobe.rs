//! Whether a path names an existing file.

use vstd::prelude::*;

verus! {

/// Whether `path` names an existing file or directory (`Path::exists`).
///
/// Trusted, with nothing stated of the result: it depends on the file system
/// at the time of the call.
#[verifier::external_body]
pub fn path_exists(path: &str) -> bool {
    std::path::Path::new(path).exists()
}

} // verus!
