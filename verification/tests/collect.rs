use rootrat::commands::collect::{actions, plan, CollectState};
use rootrat::commands::FsAction;
use rootrat::fsview::FsView;
use rootrat::manifest::Manifest;

const HOME: &str = "/home/tester";
const REPO: &str = "/home/tester/dotfiles";

fn repo_file(system_path: &str) -> String {
    let k = Manifest::derive_repo_path_with_home(system_path, HOME).unwrap();
    format!("{}/{}", REPO, k)
}

fn put(fs: &mut FsView, path: &str, content: &str) {
    fs.add_file(path.to_string(), content.as_bytes().to_vec());
}

fn tracked_file(fs: &mut FsView, system_path: &str, repo_content: Option<&str>, system_content: Option<&str>) -> Manifest {
    if let Some(c) = repo_content {
        put(fs, &repo_file(system_path), c);
    }
    if let Some(c) = system_content {
        put(fs, system_path, c);
    }
    let mut manifest = Manifest::new();
    manifest.files.insert(
        Manifest::derive_repo_path_with_home(system_path, HOME).unwrap(),
        system_path.to_string(),
    );
    manifest
}

fn tracked_dir(fs: &mut FsView, system_dir: &str, repo_files: &[(&str, &str)], system_files: &[(&str, &str)]) -> Manifest {
    let repo_base = repo_file(system_dir);
    for (name, content) in repo_files {
        put(fs, &format!("{}/{}", repo_base, name), content);
    }
    for (name, content) in system_files {
        put(fs, &format!("{}/{}", system_dir, name), content);
    }
    fs.add_dir(repo_base.clone(), repo_files.iter().map(|(n, _)| n.to_string()).collect());
    fs.add_dir(system_dir.to_string(), system_files.iter().map(|(n, _)| n.to_string()).collect());
    let mut manifest = Manifest::new();
    manifest.add(system_dir, HOME, true).unwrap();
    manifest
}

#[test]
fn collect_unchanged_file() {
    let mut fs = FsView::new();
    let manifest = tracked_file(&mut fs, "/tmp/sys/config.toml", Some("same"), Some("same"));
    let entries = plan(REPO, &manifest, HOME, &fs).unwrap();
    assert_eq!(entries.len(), 1);
    assert_eq!(entries[0].state, CollectState::Unchanged);
}

#[test]
fn modified_file_detected() {
    let mut fs = FsView::new();
    let manifest = tracked_file(&mut fs, "/tmp/sys/config.toml", Some("old repo version"), Some("new system version"));
    let entries = plan(REPO, &manifest, HOME, &fs).unwrap();
    assert_eq!(entries.len(), 1);
    assert_eq!(entries[0].state, CollectState::Updated);
}

#[test]
fn missing_system_file() {
    let mut fs = FsView::new();
    let manifest = tracked_file(&mut fs, "/tmp/sys/config.toml", Some("content"), None);
    let entries = plan(REPO, &manifest, HOME, &fs).unwrap();
    assert_eq!(entries.len(), 1);
    assert_eq!(entries[0].state, CollectState::MissingFromSystem);
}

#[test]
fn missing_repo_file_creates() {
    let mut fs = FsView::new();
    let manifest = tracked_file(&mut fs, "/tmp/sys/config.toml", None, Some("new content"));
    let entries = plan(REPO, &manifest, HOME, &fs).unwrap();
    assert_eq!(entries.len(), 1);
    assert_eq!(entries[0].state, CollectState::Created);
}

#[test]
fn collect_copies_system_to_repo() {
    let mut fs = FsView::new();
    let manifest = tracked_file(&mut fs, "/tmp/sys/config.toml", Some("old"), Some("updated on system"));
    let entries = plan(REPO, &manifest, HOME, &fs).unwrap();
    let acts = actions(&entries);
    assert_eq!(acts.len(), 1);
    match &acts[0] {
        FsAction::Copy { from, to } => {
            assert_eq!(from, "/tmp/sys/config.toml");
            assert_eq!(to, &repo_file("/tmp/sys/config.toml"));
        }
        other => panic!("unexpected action {:?}", other),
    }
}

#[test]
fn collect_empty_manifest_returns_empty() {
    let fs = FsView::new();
    let manifest = Manifest::new();
    let entries = plan(REPO, &manifest, HOME, &fs).unwrap();
    assert!(entries.is_empty());
}

#[test]
fn collect_directory_all_unchanged() {
    let mut fs = FsView::new();
    let files = &[("init.lua", "config"), ("lua/plugins.lua", "plugins")];
    let manifest = tracked_dir(&mut fs, "/tmp/sys/nvim", files, files);
    let entries = plan(REPO, &manifest, HOME, &fs).unwrap();
    assert_eq!(entries.len(), 2);
    assert!(entries.iter().all(|e| e.state == CollectState::Unchanged));
}

#[test]
fn collect_directory_modified_file() {
    let mut fs = FsView::new();
    let manifest = tracked_dir(&mut fs, "/tmp/sys/nvim", &[("init.lua", "old")], &[("init.lua", "new")]);
    let entries = plan(REPO, &manifest, HOME, &fs).unwrap();
    assert_eq!(entries.len(), 1);
    assert_eq!(entries[0].state, CollectState::Updated);
}

#[test]
fn directory_new_file_on_system() {
    let mut fs = FsView::new();
    let manifest = tracked_dir(
        &mut fs,
        "/tmp/sys/nvim",
        &[("init.lua", "config")],
        &[("init.lua", "config"), ("lua/new-plugin.lua", "brand new")],
    );
    let entries = plan(REPO, &manifest, HOME, &fs).unwrap();
    let created: Vec<_> = entries.iter().filter(|e| e.state == CollectState::Created).collect();
    assert_eq!(created.len(), 1);
    assert!(created[0].system_path.contains("new-plugin.lua"));
}

#[test]
fn collect_directory_file_only_in_repo() {
    let mut fs = FsView::new();
    let manifest = tracked_dir(
        &mut fs,
        "/tmp/sys/nvim",
        &[("init.lua", "config"), ("old.lua", "removed from system")],
        &[("init.lua", "config")],
    );
    let entries = plan(REPO, &manifest, HOME, &fs).unwrap();
    let deleted: Vec<_> = entries.iter().filter(|e| e.state == CollectState::Deleted).collect();
    assert_eq!(deleted.len(), 1);
    assert!(deleted[0].system_path.contains("old.lua"));
}

#[test]
fn collect_full_directory_flow() {
    let mut fs = FsView::new();
    let manifest = tracked_dir(
        &mut fs,
        "/tmp/sys/nvim",
        &[("init.lua", "old"), ("removed.lua", "gone from system")],
        &[("init.lua", "updated"), ("brand-new.lua", "just added")],
    );
    let entries = plan(REPO, &manifest, HOME, &fs).unwrap();
    assert_eq!(entries.iter().filter(|e| e.state == CollectState::Updated).count(), 1);
    assert_eq!(entries.iter().filter(|e| e.state == CollectState::Created).count(), 1);
    assert_eq!(entries.iter().filter(|e| e.state == CollectState::Deleted).count(), 1);
    let acts = actions(&entries);
    let base = repo_file("/tmp/sys/nvim");
    assert_eq!(acts.len(), 3);
    assert!(matches!(&acts[0], FsAction::CopyCreatingParent { to, .. } if *to == format!("{}/brand-new.lua", base)));
    assert!(matches!(&acts[1], FsAction::Copy { to, .. } if *to == format!("{}/init.lua", base)));
    assert!(matches!(&acts[2], FsAction::RemoveFile { path } if *path == format!("{}/removed.lua", base)));
}

#[test]
fn summarize_groups_collect_plan_by_state() {
    let mut fs = FsView::new();
    let manifest = tracked_dir(
        &mut fs,
        "/tmp/sys/nvim",
        &[("init.lua", "old"), ("removed.lua", "gone")],
        &[("init.lua", "updated"), ("brand-new.lua", "added")],
    );
    let entries = plan(REPO, &manifest, HOME, &fs).unwrap();
    let s = rootrat::commands::collect::summarize(&entries);
    assert_eq!(s.created, vec!["/tmp/sys/nvim/brand-new.lua"]);
    assert_eq!(s.updated, vec!["/tmp/sys/nvim/init.lua"]);
    assert_eq!(s.deleted, vec!["/tmp/sys/nvim/removed.lua"]);
    assert!(s.missing.is_empty());
    assert_eq!(s.unchanged, 0);
}
