use vstd::prelude::*;

verus! {

/// The ways a staging run can fail.
#[derive(Clone, Copy, Debug, PartialEq, Eq, Structural)]
pub enum Error {
    /// The manifest file is missing or cannot be read.
    ManifestUnreadable,
    /// A manifest line holds the link marker but no path after it.
    MalformedManifestEntry,
    /// Creating a directory or moving a file into the staging area failed.
    RelocationFailed,
    /// Moving a staged file back to its original place failed.
    RestoreFailed,
    /// The documentation tool could not be started or did not succeed.
    ExternalProcessFailed,
}

} // verus!
