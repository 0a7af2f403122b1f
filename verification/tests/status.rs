use rootrat::commands::status::{execute, FileState};
use rootrat::fsview::FsView;
use rootrat::manifest::Manifest;

const HOME: &str = "/home/tester";
const REPO: &str = "/home/tester/dotfiles";

fn repo_file(system_path: &str) -> String {
    let k = Manifest::derive_repo_path_with_home(system_path, HOME).unwrap();
    format!("{}/{}", REPO, k)
}

fn put(fs: &mut FsView, path: &str, content: &str) {
    fs.add_file(path.to_string(), content.as_bytes().to_vec());
}

fn tracked_file(fs: &mut FsView, system_path: &str, repo_content: Option<&str>, system_content: Option<&str>) -> Manifest {
    if let Some(c) = repo_content {
        put(fs, &repo_file(system_path), c);
    }
    if let Some(c) = system_content {
        put(fs, system_path, c);
    }
    let mut manifest = Manifest::new();
    manifest.add(system_path, HOME, false).unwrap();
    manifest
}

fn tracked_dir(fs: &mut FsView, system_dir: &str, repo_files: &[(&str, &str)], system_files: &[(&str, &str)]) -> Manifest {
    let repo_base = repo_file(system_dir);
    for (name, content) in repo_files {
        put(fs, &format!("{}/{}", repo_base, name), content);
    }
    for (name, content) in system_files {
        put(fs, &format!("{}/{}", system_dir, name), content);
    }
    fs.add_dir(repo_base.clone(), repo_files.iter().map(|(n, _)| n.to_string()).collect());
    fs.add_dir(system_dir.to_string(), system_files.iter().map(|(n, _)| n.to_string()).collect());
    let mut manifest = Manifest::new();
    manifest.add(system_dir, HOME, true).unwrap();
    manifest
}

#[test]
fn tests_unchanged_file() {
    let mut fs = FsView::new();
    let manifest = tracked_file(&mut fs, "/tmp/sys/config.toml", Some("same content"), Some("same content"));
    let entries = execute(REPO, &manifest, HOME, &fs).unwrap();
    assert_eq!(entries.len(), 1);
    assert_eq!(entries[0].state, FileState::Unchanged);
}

#[test]
fn modified_file() {
    let mut fs = FsView::new();
    let manifest = tracked_file(&mut fs, "/tmp/sys/config.toml", Some("repo version"), Some("system version"));
    let entries = execute(REPO, &manifest, HOME, &fs).unwrap();
    assert_eq!(entries.len(), 1);
    assert_eq!(entries[0].state, FileState::Modified);
}

#[test]
fn missing_from_system() {
    let mut fs = FsView::new();
    let manifest = tracked_file(&mut fs, "/tmp/sys/config.toml", Some("content"), None);
    let entries = execute(REPO, &manifest, HOME, &fs).unwrap();
    assert_eq!(entries.len(), 1);
    assert_eq!(entries[0].state, FileState::MissingFromSystem);
}

#[test]
fn missing_from_repo() {
    let mut fs = FsView::new();
    let manifest = tracked_file(&mut fs, "/tmp/sys/config.toml", None, Some("content"));
    let entries = execute(REPO, &manifest, HOME, &fs).unwrap();
    assert_eq!(entries.len(), 1);
    assert_eq!(entries[0].state, FileState::MissingFromRepo);
}

#[test]
fn multiple_files_mixed_states() {
    let mut fs = FsView::new();
    put(&mut fs, "/tmp/sys/unchanged.conf", "same");
    put(&mut fs, &repo_file("/tmp/sys/unchanged.conf"), "same");
    put(&mut fs, "/tmp/sys/modified.conf", "new");
    put(&mut fs, &repo_file("/tmp/sys/modified.conf"), "old");
    let mut manifest = Manifest::new();
    manifest.add("/tmp/sys/unchanged.conf", HOME, false).unwrap();
    manifest.add("/tmp/sys/modified.conf", HOME, false).unwrap();
    let entries = execute(REPO, &manifest, HOME, &fs).unwrap();
    assert_eq!(entries.len(), 2);
    assert!(entries.iter().any(|e| e.state == FileState::Unchanged));
    assert!(entries.iter().any(|e| e.state == FileState::Modified));
    // files come in key order
    assert_eq!(entries[0].system_path, "/tmp/sys/modified.conf");
    assert_eq!(entries[1].system_path, "/tmp/sys/unchanged.conf");
}

#[test]
fn tests_empty_manifest_returns_empty() {
    let fs = FsView::new();
    let manifest = Manifest::new();
    let entries = execute(REPO, &manifest, HOME, &fs).unwrap();
    assert!(entries.is_empty());
}

#[test]
fn tests_directory_all_unchanged() {
    let mut fs = FsView::new();
    let files = &[("init.lua", "config"), ("lua/plugins.lua", "plugins")];
    let manifest = tracked_dir(&mut fs, "/tmp/sys/nvim", files, files);
    let entries = execute(REPO, &manifest, HOME, &fs).unwrap();
    assert!(entries.iter().all(|e| e.state == FileState::Unchanged));
    assert_eq!(entries.len(), 2);
    assert_eq!(entries[0].system_path, "/tmp/sys/nvim/init.lua");
    assert_eq!(entries[1].system_path, "/tmp/sys/nvim/lua/plugins.lua");
}

#[test]
fn tests_directory_modified_file() {
    let mut fs = FsView::new();
    let manifest = tracked_dir(&mut fs, "/tmp/sys/nvim", &[("init.lua", "repo version")], &[("init.lua", "system version")]);
    let entries = execute(REPO, &manifest, HOME, &fs).unwrap();
    assert_eq!(entries.len(), 1);
    assert_eq!(entries[0].state, FileState::Modified);
}

#[test]
fn directory_file_only_in_system() {
    let mut fs = FsView::new();
    let manifest = tracked_dir(
        &mut fs,
        "/tmp/sys/nvim",
        &[("init.lua", "config")],
        &[("init.lua", "config"), ("extra.lua", "new file")],
    );
    let entries = execute(REPO, &manifest, HOME, &fs).unwrap();
    assert!(entries.iter().any(|e| e.state == FileState::MissingFromRepo));
    assert_eq!(entries.len(), 2);
}

#[test]
fn tests_directory_file_only_in_repo() {
    let mut fs = FsView::new();
    let manifest = tracked_dir(
        &mut fs,
        "/tmp/sys/nvim",
        &[("init.lua", "config"), ("old.lua", "removed")],
        &[("init.lua", "config")],
    );
    let entries = execute(REPO, &manifest, HOME, &fs).unwrap();
    assert!(entries.iter().any(|e| e.state == FileState::MissingFromSystem));
    assert_eq!(entries.len(), 2);
}

#[test]
fn directory_missing_entirely_from_repo() {
    let mut fs = FsView::new();
    let manifest = tracked_dir(&mut fs, "/tmp/sys/nvim", &[], &[("init.lua", "config")]);
    let entries = execute(REPO, &manifest, HOME, &fs).unwrap();
    assert!(entries.iter().all(|e| e.state == FileState::MissingFromRepo));
    assert_eq!(entries.len(), 1);
}

#[test]
fn status_home_file_uses_tilde_display() {
    let mut fs = FsView::new();
    let manifest = tracked_file(&mut fs, "/home/tester/.vimrc", Some("x"), Some("x"));
    let entries = execute(REPO, &manifest, HOME, &fs).unwrap();
    assert_eq!(entries[0].system_path, "~/.vimrc");
    assert_eq!(entries[0].state, FileState::Unchanged);
}

#[test]
fn status_unreadable_file_stops_listing() {
    let mut fs = FsView::new();
    fs.add_unreadable(repo_file("/tmp/sys/config.toml"));
    put(&mut fs, "/tmp/sys/config.toml", "content");
    let mut manifest = Manifest::new();
    manifest.add("/tmp/sys/config.toml", HOME, false).unwrap();
    let result = execute(REPO, &manifest, HOME, &fs);
    assert!(matches!(result, Err(rootrat::error::RootratError::Unreadable { .. })));
}
