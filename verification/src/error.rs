//! Errors of the library.
use vstd::prelude::*;

verus! {

/// Why an operation of the library failed.
#[derive(Debug)]
pub enum RootratError {
    /// A path that must be absolute is not.
    NotAbsolute { path: String },
    /// The home directory could not be determined.
    NoHomeDir,
    /// There is no local configuration yet: `rootrat init` was never run.
    NotInitialized,
    /// The path is tracked neither as a file nor as a directory.
    NotTracked { path: String },
    /// The path to add does not exist.
    PathMissing { path: String },
    /// The directory to use as the repo does not exist.
    DirectoryMissing { path: String },
    /// The file exists but could not be read.
    Unreadable { path: String },
    /// The file is not valid UTF-8 text.
    NotText { path: String },
    /// A walk met an entry that does not lie under the directory it started at.
    OutsideBase { path: String },
}

} // verus!
