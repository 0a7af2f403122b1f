//! Starting to track a file or directory.
use vstd::prelude::*;
use crate::error::RootratError;
use crate::manifest::{add_spec, owned, Manifest};
use crate::paths::{join, join_path};

verus! {

/// Tracks `system_path` in `manifest` and returns where its copy goes in the
/// repo at `repo_dir`. `exists` and `is_dir` tell whether the path exists and
/// whether it is a directory; `home` is the home directory.
///
/// A path that does not exist is refused before anything changes; so is a
/// path that is not absolute. Otherwise the manifest gains (or renews) the
/// entry, and the copy goes to `repo_dir` joined with the repo path.
pub fn execute(
    system_path: &str,
    exists: bool,
    is_dir: bool,
    repo_dir: &str,
    home: &str,
    manifest: &mut Manifest,
) -> (r: Result<String, RootratError>)
    ensures
        !exists ==> final(manifest)@ == old(manifest)@ && (r matches Err(
            RootratError::PathMissing { path },
        ) && path@ == system_path@),
        exists ==> match add_spec(old(manifest)@, system_path@, home@, is_dir) {
            Some((m, k)) => final(manifest)@ == m && (r matches Ok(dest) && dest@ == join(repo_dir@, k)),
            None => final(manifest)@ == old(manifest)@ && (r matches Err(
                RootratError::NotAbsolute { path },
            ) && path@ == system_path@),
        },
{
    if !exists {
        return Err(RootratError::PathMissing { path: owned(system_path) });
    }
    match manifest.add(system_path, home, is_dir) {
        Ok(repo_path) => Ok(join_path(repo_dir, repo_path.as_str())),
        Err(e) => Err(e),
    }
}

} // verus!
