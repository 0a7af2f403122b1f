//! Stopping to track a file or directory.
use vstd::prelude::*;
use crate::error::RootratError;
use crate::manifest::{remove_spec, Manifest};
use crate::paths::{is_absolute, join, join_path};

verus! {

/// Stops tracking `system_path` in `manifest` and returns the copy in the
/// repo at `repo_dir` that goes with it; the file on the system is left
/// alone. `home` is the home directory.
///
/// Fails, changing nothing, when the path is not absolute or not tracked.
pub fn execute(system_path: &str, repo_dir: &str, home: &str, manifest: &mut Manifest) -> (r: Result<
    String,
    RootratError,
>)
    ensures
        match remove_spec(old(manifest)@, system_path@, home@) {
            Some((m, k)) => final(manifest)@ == m && (r matches Ok(dest) && dest@ == join(repo_dir@, k)),
            None => final(manifest)@ == old(manifest)@ && if is_absolute(system_path@) {
                r matches Err(RootratError::NotTracked { path }) && path@ == system_path@
            } else {
                r matches Err(RootratError::NotAbsolute { path }) && path@ == system_path@
            },
        },
{
    match manifest.remove(system_path, home) {
        Ok(repo_path) => Ok(join_path(repo_dir, repo_path.as_str())),
        Err(e) => Err(e),
    }
}

} // verus!
