use rootrat::commands::{add, rm};
use rootrat::error::RootratError;
use rootrat::manifest::Manifest;

const HOME: &str = "/home/tester";
const REPO: &str = "/home/tester/dotfiles";

#[test]
fn copies_file_to_repo() {
    let mut manifest = Manifest::new();
    let dest = add::execute("/tmp/src/test.conf", true, false, REPO, HOME, &mut manifest).unwrap();
    let repo_path = Manifest::derive_repo_path_with_home("/tmp/src/test.conf", HOME).unwrap();
    assert_eq!(dest, format!("{}/{}", REPO, repo_path));
    assert_eq!(dest, "/home/tester/dotfiles/system/tmp/src/test.conf");
}

#[test]
fn adds_entry_to_manifest() {
    let mut manifest = Manifest::new();
    add::execute("/tmp/src/test.conf", true, false, REPO, HOME, &mut manifest).unwrap();
    assert_eq!(manifest.files.len(), 1);
}

#[test]
fn creates_parent_dirs_in_repo() {
    let mut manifest = Manifest::new();
    let dest = add::execute("/tmp/src/deep/nested/config.toml", true, false, REPO, HOME, &mut manifest).unwrap();
    assert_eq!(dest, "/home/tester/dotfiles/system/tmp/src/deep/nested/config.toml");
}

#[test]
fn fails_if_file_does_not_exist() {
    let mut manifest = Manifest::new();
    let result = add::execute("/tmp/nonexistent_rootrat_test_file", false, false, REPO, HOME, &mut manifest);
    assert!(result.is_err());
    assert!(matches!(result, Err(RootratError::PathMissing { .. })));
    assert!(manifest.files.is_empty());
}

#[test]
fn duplicate_add_updates_file_content() {
    let mut manifest = Manifest::new();
    let a = add::execute("/tmp/src/test.conf", true, false, REPO, HOME, &mut manifest).unwrap();
    let b = add::execute("/tmp/src/test.conf", true, false, REPO, HOME, &mut manifest).unwrap();
    assert_eq!(a, b);
    assert_eq!(manifest.files.len(), 1);
}

#[test]
fn add_directory_goes_to_directories() {
    let mut manifest = Manifest::new();
    let dest = add::execute("/home/tester/.config/nvim", true, true, REPO, HOME, &mut manifest).unwrap();
    assert_eq!(dest, "/home/tester/dotfiles/home/.config/nvim");
    assert_eq!(manifest.directories.get("home/.config/nvim").unwrap(), "~/.config/nvim");
}

#[test]
fn add_relative_path_is_refused() {
    let mut manifest = Manifest::new();
    let result = add::execute("rel/file", true, false, REPO, HOME, &mut manifest);
    assert!(matches!(result, Err(RootratError::NotAbsolute { .. })));
    assert!(manifest.files.is_empty());
}

fn with_entry(system_path: &str, is_dir: bool) -> Manifest {
    let mut manifest = Manifest::new();
    let k = Manifest::derive_repo_path_with_home(system_path, HOME).unwrap();
    if is_dir {
        manifest.directories.insert(k, system_path.to_string());
    } else {
        manifest.files.insert(k, system_path.to_string());
    }
    manifest
}

#[test]
fn removes_file_from_repo() {
    let mut manifest = with_entry("/tmp/sys/test.conf", false);
    let dest = rm::execute("/tmp/sys/test.conf", REPO, HOME, &mut manifest).unwrap();
    assert_eq!(dest, "/home/tester/dotfiles/system/tmp/sys/test.conf");
}

#[test]
fn removes_entry_from_manifest() {
    let mut manifest = with_entry("/tmp/sys/test.conf", false);
    assert_eq!(manifest.files.len(), 1);
    rm::execute("/tmp/sys/test.conf", REPO, HOME, &mut manifest).unwrap();
    assert!(manifest.files.is_empty());
}

#[test]
fn fails_if_not_tracked() {
    let mut manifest = Manifest::new();
    let result = rm::execute("/tmp/sys/untracked.conf", REPO, HOME, &mut manifest);
    assert!(result.is_err());
    assert!(matches!(result, Err(RootratError::NotTracked { .. })));
}

#[test]
fn removes_directory_from_repo() {
    let mut manifest = with_entry("/tmp/sys/nvim", true);
    let dest = rm::execute("/tmp/sys/nvim", REPO, HOME, &mut manifest).unwrap();
    assert_eq!(dest, "/home/tester/dotfiles/system/tmp/sys/nvim");
}

#[test]
fn removes_directory_entry_from_manifest() {
    let mut manifest = with_entry("/tmp/sys/nvim", true);
    assert_eq!(manifest.directories.len(), 1);
    rm::execute("/tmp/sys/nvim", REPO, HOME, &mut manifest).unwrap();
    assert!(manifest.directories.is_empty());
}

#[test]
fn repo_copy_already_missing_still_succeeds() {
    let mut manifest = with_entry("/tmp/sys/test.conf", false);
    rm::execute("/tmp/sys/test.conf", REPO, HOME, &mut manifest).unwrap();
    assert!(manifest.files.is_empty());
}

#[test]
fn rm_relative_path_is_refused() {
    let mut manifest = with_entry("/tmp/sys/test.conf", false);
    let result = rm::execute("test.conf", REPO, HOME, &mut manifest);
    assert!(matches!(result, Err(RootratError::NotAbsolute { .. })));
    assert_eq!(manifest.files.len(), 1);
}
