//! Path arithmetic done by outside code.

use vstd::prelude::*;

verus! {

/// Relies on `pathdiff::diff_paths`: the path leading from directory `base` to
/// `path`, or `None` where there is none (a relative `path` against an
/// absolute `base`, or a `base` that climbs with `..`). How paths split into
/// components is the platform's, so nothing more is stated.
#[verifier::external_body]
pub(crate) fn relative_path(path: &String, base: &String) -> (r: Option<String>) {
    pathdiff::diff_paths(path.as_str(), base.as_str()).map(|p| p.to_string_lossy().into_owned())
}

/// Relies on `std::path::Path::join`: `path` resolved against directory
/// `base`. How paths join is the platform's, so nothing is stated.
#[verifier::external_body]
pub(crate) fn joined_path(base: &String, path: &String) -> (r: String) {
    std::path::Path::new(base.as_str()).join(path.as_str()).to_string_lossy().into_owned()
}

} // verus!
