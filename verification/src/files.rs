//! The filesystem boundary the startup path consumes: an existence check,
//! and the configuration-path validation built on it. Reading file contents
//! stays outside the library; the cache takes disk results as plain values.

use vstd::prelude::*;

verus! {

/// Relies on std::path::Path::exists: asks the filesystem whether the path
/// names an existing entity (false when the query fails). The answer
/// depends on the disk, so nothing is promised of it.
#[verifier::external_body]
pub fn check_if_file_exists(file_path: &String) -> bool {
    std::path::Path::new(file_path).exists()
}

/// Validates a configuration path before startup: the path itself when the
/// file exists on disk right now, nothing otherwise. Startup aborts on
/// `None`; no other failure is fatal.
pub fn config_toml(path: &String) -> (r: Option<&String>)
    ensures
        match r {
            Some(p) => p == path,
            None => true,
        },
{
    if check_if_file_exists(path) {
        Some(path)
    } else {
        None
    }
}

} // verus!
