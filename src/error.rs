use vstd::prelude::*;

use crate::semver::SemanticVersion;

verus! {

/// What can go wrong while resolving and pinning packages.
#[derive(Debug)]
pub enum GraceError {
    /// A version string is not three dot-separated numbers.
    MalformedVersion,
    /// A selector token is none of `=`, `>=`, `~=`.
    InvalidSelector,
    /// A dependency line does not hold exactly three whitespace-separated tokens.
    MalformedRequest,
    /// The lock file exists but cannot be read as a list of pins.
    LockCorrupt,
    /// A registry's catalog exists but is not a valid catalog.
    CatalogCorrupt,
    /// No registry offers a version that the selector accepts.
    PackageUnavailable { name: String, version: SemanticVersion },
    /// The directory holds no project.
    ProjectNotInitialized,
    /// The version-control tool reported a failure.
    CollaboratorFailure,
}

} // verus!
