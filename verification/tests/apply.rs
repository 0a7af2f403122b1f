use rootrat::commands::apply::{actions, execute, plan, ApplyState};
use rootrat::commands::FsAction;
use rootrat::fsview::FsView;
use rootrat::manifest::Manifest;

const HOME: &str = "/home/tester";
const REPO: &str = "/home/tester/dotfiles";

fn repo_file(system_path: &str) -> String {
    let k = Manifest::derive_repo_path_with_home(system_path, HOME).unwrap();
    format!("{}/{}", REPO, k)
}

fn put(fs: &mut FsView, path: &str, content: &str) {
    fs.add_file(path.to_string(), content.as_bytes().to_vec());
}

fn tracked_file(fs: &mut FsView, system_path: &str, repo_content: Option<&str>, system_content: Option<&str>) -> Manifest {
    if let Some(c) = repo_content {
        put(fs, &repo_file(system_path), c);
    }
    if let Some(c) = system_content {
        put(fs, system_path, c);
    }
    let mut manifest = Manifest::new();
    manifest.files.insert(
        Manifest::derive_repo_path_with_home(system_path, HOME).unwrap(),
        system_path.to_string(),
    );
    manifest
}

fn tracked_dir(fs: &mut FsView, system_dir: &str, repo_files: &[(&str, &str)], system_files: &[(&str, &str)]) -> Manifest {
    let repo_base = repo_file(system_dir);
    for (name, content) in repo_files {
        put(fs, &format!("{}/{}", repo_base, name), content);
    }
    for (name, content) in system_files {
        put(fs, &format!("{}/{}", system_dir, name), content);
    }
    fs.add_dir(repo_base.clone(), repo_files.iter().map(|(n, _)| n.to_string()).collect());
    fs.add_dir(system_dir.to_string(), system_files.iter().map(|(n, _)| n.to_string()).collect());
    let mut manifest = Manifest::new();
    manifest.add(system_dir, HOME, true).unwrap();
    manifest
}

fn copies(acts: &[FsAction]) -> Vec<(String, String)> {
    acts.iter()
        .filter_map(|a| match a {
            FsAction::CopyCreatingParent { from, to } | FsAction::Copy { from, to } => Some((from.clone(), to.clone())),
            _ => None,
        })
        .collect()
}

#[test]
fn applies_file_to_system() {
    let mut fs = FsView::new();
    let manifest = tracked_file(&mut fs, "/tmp/sys/config.toml", Some("repo content"), None);
    let (results, acts) = execute(REPO, &manifest, HOME, &fs).unwrap();
    assert_eq!(results.len(), 1);
    assert_eq!(results[0].state, ApplyState::Created);
    assert_eq!(acts.len(), 1);
    match &acts[0] {
        FsAction::CopyCreatingParent { from, to } => {
            assert_eq!(from, &repo_file("/tmp/sys/config.toml"));
            assert_eq!(to, "/tmp/sys/config.toml");
        }
        other => panic!("unexpected action {:?}", other),
    }
}

#[test]
fn overwrites_existing_file() {
    let mut fs = FsView::new();
    let manifest = tracked_file(&mut fs, "/tmp/sys/config.toml", Some("new repo content"), Some("old system content"));
    let (results, acts) = execute(REPO, &manifest, HOME, &fs).unwrap();
    assert_eq!(results.len(), 1);
    assert_eq!(results[0].state, ApplyState::Updated);
    assert!(matches!(&acts[0], FsAction::Copy { to, .. } if to == "/tmp/sys/config.toml"));
}

#[test]
fn skips_unchanged_files() {
    let mut fs = FsView::new();
    let manifest = tracked_file(&mut fs, "/tmp/sys/config.toml", Some("same content"), Some("same content"));
    let (results, acts) = execute(REPO, &manifest, HOME, &fs).unwrap();
    assert_eq!(results.len(), 1);
    assert_eq!(results[0].state, ApplyState::Unchanged);
    assert!(acts.is_empty());
}

#[test]
fn creates_parent_dirs_on_system() {
    let mut fs = FsView::new();
    let manifest = tracked_file(&mut fs, "/tmp/sys/deep/nested/dir/config.toml", Some("nested content"), None);
    let (_, acts) = execute(REPO, &manifest, HOME, &fs).unwrap();
    assert!(matches!(&acts[0], FsAction::CopyCreatingParent { to, .. } if to == "/tmp/sys/deep/nested/dir/config.toml"));
}

#[test]
fn missing_repo_file_reports_error_state() {
    let mut fs = FsView::new();
    let manifest = tracked_file(&mut fs, "/tmp/sys/config.toml", None, None);
    let (results, acts) = execute(REPO, &manifest, HOME, &fs).unwrap();
    assert_eq!(results.len(), 1);
    assert_eq!(results[0].state, ApplyState::MissingFromRepo);
    assert!(acts.is_empty());
}

#[test]
fn applies_multiple_files() {
    let mut fs = FsView::new();
    put(&mut fs, &repo_file("/tmp/sys/a.conf"), "content a");
    put(&mut fs, &repo_file("/tmp/sys/b.conf"), "content b");
    let mut manifest = Manifest::new();
    manifest.files.insert(Manifest::derive_repo_path_with_home("/tmp/sys/a.conf", HOME).unwrap(), "/tmp/sys/a.conf".to_string());
    manifest.files.insert(Manifest::derive_repo_path_with_home("/tmp/sys/b.conf", HOME).unwrap(), "/tmp/sys/b.conf".to_string());
    let (results, acts) = execute(REPO, &manifest, HOME, &fs).unwrap();
    assert_eq!(results.len(), 2);
    let c = copies(&acts);
    assert_eq!(c.len(), 2);
    assert_eq!(c[0].1, "/tmp/sys/a.conf");
    assert_eq!(c[1].1, "/tmp/sys/b.conf");
}

#[test]
fn apply_empty_manifest_returns_empty() {
    let fs = FsView::new();
    let manifest = Manifest::new();
    let (results, acts) = execute(REPO, &manifest, HOME, &fs).unwrap();
    assert!(results.is_empty());
    assert!(acts.is_empty());
}

#[test]
fn applies_directory_to_system() {
    let mut fs = FsView::new();
    let manifest = tracked_dir(&mut fs, "/tmp/sys/nvim", &[("init.lua", "config"), ("lua/plugins.lua", "plugins")], &[]);
    let (results, acts) = execute(REPO, &manifest, HOME, &fs).unwrap();
    assert_eq!(results.len(), 2);
    assert!(results.iter().all(|e| e.state == ApplyState::Created));
    let c = copies(&acts);
    assert_eq!(c[0].1, "/tmp/sys/nvim/init.lua");
    assert_eq!(c[1].1, "/tmp/sys/nvim/lua/plugins.lua");
}

#[test]
fn directory_skips_unchanged_files() {
    let mut fs = FsView::new();
    let files = &[("init.lua", "same")];
    let manifest = tracked_dir(&mut fs, "/tmp/sys/nvim", files, files);
    let (results, _) = execute(REPO, &manifest, HOME, &fs).unwrap();
    assert_eq!(results.len(), 1);
    assert_eq!(results[0].state, ApplyState::Unchanged);
}

#[test]
fn directory_updates_modified_files() {
    let mut fs = FsView::new();
    let manifest = tracked_dir(&mut fs, "/tmp/sys/nvim", &[("init.lua", "new version")], &[("init.lua", "old version")]);
    let (results, acts) = execute(REPO, &manifest, HOME, &fs).unwrap();
    assert_eq!(results.len(), 1);
    assert_eq!(results[0].state, ApplyState::Updated);
    assert_eq!(copies(&acts)[0].1, "/tmp/sys/nvim/init.lua");
}

#[test]
fn directory_plan_marks_system_only_files_deleted() {
    let mut fs = FsView::new();
    let manifest = tracked_dir(&mut fs, "/tmp/sys/nvim", &[("init.lua", "x")], &[("init.lua", "x"), ("stale.lua", "y")]);
    let entries = plan(REPO, &manifest, HOME, &fs).unwrap();
    assert_eq!(entries.len(), 2);
    assert_eq!(entries[1].state, ApplyState::Deleted);
    assert_eq!(entries[1].system_path, "/tmp/sys/nvim/stale.lua");
    let with_deletes = actions(&entries, true);
    assert!(matches!(&with_deletes[0], FsAction::RemoveFile { path } if path == "/tmp/sys/nvim/stale.lua"));
    let (_, safe) = execute(REPO, &manifest, HOME, &fs).unwrap();
    assert!(safe.is_empty());
}

#[test]
fn summarize_groups_plan_by_state() {
    let mut fs = FsView::new();
    let manifest = tracked_dir(
        &mut fs,
        "/tmp/sys/nvim",
        &[("a.lua", "new"), ("b.lua", "same"), ("c.lua", "x")],
        &[("a.lua", "old"), ("b.lua", "same"), ("z.lua", "stale")],
    );
    let entries = plan(REPO, &manifest, HOME, &fs).unwrap();
    let s = rootrat::commands::apply::summarize(&entries);
    assert_eq!(s.created, vec!["/tmp/sys/nvim/c.lua"]);
    assert_eq!(s.updated, vec!["/tmp/sys/nvim/a.lua"]);
    assert_eq!(s.deleted, vec!["/tmp/sys/nvim/z.lua"]);
    assert!(s.missing.is_empty());
    assert_eq!(s.unchanged, 1);
}
