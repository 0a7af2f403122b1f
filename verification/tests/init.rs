use rootrat::commands::init::{clone_name, clone_target, execute, normalize_url};
use rootrat::error::RootratError;
use rootrat::manifest::Manifest;

const HOME: &str = "/home/tester";

#[test]
fn sets_repo_path_outside_home() {
    let mut manifest = Manifest::new();
    execute("/tmp/dots", true, HOME, &mut manifest).unwrap();
    assert_eq!(manifest.repo.unwrap(), "/tmp/dots");
}

#[test]
fn sets_repo_path_inside_home_with_tilde() {
    let mut manifest = Manifest::new();
    execute("/home/tester/.rootrat_test_init", true, HOME, &mut manifest).unwrap();
    assert_eq!(manifest.repo.unwrap(), "~/.rootrat_test_init");
}

#[test]
fn overwrites_existing_repo_path() {
    let mut manifest = Manifest::new();
    manifest.repo = Some("/old/path".to_string());
    execute("/tmp/dots", true, HOME, &mut manifest).unwrap();
    assert!(manifest.repo.is_some());
    assert_ne!(manifest.repo.unwrap(), "/old/path");
}

#[test]
fn preserves_existing_files() {
    let mut manifest = Manifest::new();
    manifest.files.insert("home/.notes/NOTES.md".to_string(), "~/.notes/NOTES.md".to_string());
    execute("/tmp/dots", true, HOME, &mut manifest).unwrap();
    assert_eq!(manifest.files.len(), 1);
}

#[test]
fn fails_if_dir_does_not_exist() {
    let mut manifest = Manifest::new();
    let result = execute("/nonexistent/path", false, HOME, &mut manifest);
    assert!(result.is_err());
    assert!(matches!(result, Err(RootratError::DirectoryMissing { .. })));
    assert!(manifest.repo.is_none());
}

#[test]
fn normalize_url_adds_https_for_bare_domain() {
    let url = normalize_url("github.com/juljus/dotfiles");
    assert_eq!(url, "https://github.com/juljus/dotfiles");
}

#[test]
fn normalize_url_keeps_https() {
    let url = normalize_url("https://github.com/juljus/dotfiles");
    assert_eq!(url, "https://github.com/juljus/dotfiles");
}

#[test]
fn normalize_url_keeps_ssh() {
    let url = normalize_url("git@github.com:juljus/dotfiles.git");
    assert_eq!(url, "git@github.com:juljus/dotfiles.git");
}

#[test]
fn normalize_url_keeps_local_paths() {
    assert_eq!(normalize_url("/tmp/remote.git"), "/tmp/remote.git");
    assert_eq!(normalize_url("./remote.git"), "./remote.git");
    assert_eq!(normalize_url("~/remote.git"), "~/remote.git");
}

#[test]
fn normalize_url_twice_is_once() {
    for u in ["github.com/a/b", "https://x/y", "git@h:p", "/abs", "plain"] {
        let once = normalize_url(u);
        assert_eq!(normalize_url(&once), once);
    }
}

#[test]
fn clone_name_takes_last_piece_without_git() {
    assert_eq!(clone_name("https://github.com/juljus/dotfiles.git"), "dotfiles");
    assert_eq!(clone_name("git@github.com:juljus/dotfiles.git"), "dotfiles");
    assert_eq!(clone_name("https://github.com/juljus/dotfiles/"), "dotfiles");
    assert_eq!(clone_name("/tmp/x/remote.git"), "remote");
    assert_eq!(clone_name("host:repo"), "repo");
    assert_eq!(clone_name(".git"), ".git");
}

#[test]
fn clone_target_is_inside_dir() {
    assert_eq!(clone_target("/tmp/x/remote.git", "/tmp/clone_target"), "/tmp/clone_target/remote");
}
