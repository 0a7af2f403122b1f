use rootrat::commands::diff::{execute, format_diff, render_changes, ChangeKind, LineChange};
use rootrat::error::RootratError;
use rootrat::fsview::FsView;
use rootrat::manifest::Manifest;

const HOME: &str = "/home/tester";
const REPO: &str = "/home/tester/dotfiles";

fn repo_file(system_path: &str) -> String {
    let k = Manifest::derive_repo_path_with_home(system_path, HOME).unwrap();
    format!("{}/{}", REPO, k)
}

fn put(fs: &mut FsView, path: &str, content: &str) {
    fs.add_file(path.to_string(), content.as_bytes().to_vec());
}

fn tracked_file(fs: &mut FsView, manifest: &mut Manifest, system_path: &str, repo_content: Option<&str>, system_content: Option<&str>) {
    if let Some(c) = repo_content {
        put(fs, &repo_file(system_path), c);
    }
    if let Some(c) = system_content {
        put(fs, system_path, c);
    }
    manifest.add(system_path, HOME, false).unwrap();
}

#[test]
fn identical_files_returns_empty() {
    let mut fs = FsView::new();
    let mut manifest = Manifest::new();
    tracked_file(&mut fs, &mut manifest, "/tmp/sys/config.toml", Some("same content"), Some("same content"));
    let entries = execute(REPO, &manifest, HOME, &fs, None).unwrap();
    assert!(entries.is_empty());
}

#[test]
fn modified_file_shows_diff() {
    let mut fs = FsView::new();
    let mut manifest = Manifest::new();
    tracked_file(&mut fs, &mut manifest, "/tmp/sys/config.toml", Some("line one\nline two\n"), Some("line one\nline changed\n"));
    let entries = execute(REPO, &manifest, HOME, &fs, None).unwrap();
    assert_eq!(entries.len(), 1);
    assert!(entries[0].diff.contains("line two"));
    assert!(entries[0].diff.contains("line changed"));
    assert_eq!(entries[0].system_path, "/tmp/sys/config.toml");
    assert_eq!(entries[0].diff, "  line one\n- line two\n+ line changed\n");
}

#[test]
fn missing_system_file_shows_error_state() {
    let mut fs = FsView::new();
    let mut manifest = Manifest::new();
    tracked_file(&mut fs, &mut manifest, "/tmp/sys/config.toml", Some("content"), None);
    let entries = execute(REPO, &manifest, HOME, &fs, None).unwrap();
    assert_eq!(entries.len(), 1);
    assert!(entries[0].diff.contains("missing from system"));
    assert_eq!(entries[0].diff, "  [missing from system: /tmp/sys/config.toml]");
}

#[test]
fn missing_repo_file_shows_error_state() {
    let mut fs = FsView::new();
    let mut manifest = Manifest::new();
    tracked_file(&mut fs, &mut manifest, "/tmp/sys/config.toml", None, Some("content"));
    let entries = execute(REPO, &manifest, HOME, &fs, None).unwrap();
    assert_eq!(entries.len(), 1);
    assert!(entries[0].diff.contains("missing from repo"));
    assert_eq!(entries[0].diff, "  [missing from repo: system/tmp/sys/config.toml]");
}

#[test]
fn filter_by_path() {
    let mut fs = FsView::new();
    let mut manifest = Manifest::new();
    tracked_file(&mut fs, &mut manifest, "/tmp/sys/a.conf", Some("new"), Some("old"));
    tracked_file(&mut fs, &mut manifest, "/tmp/sys/b.conf", Some("new"), Some("old"));
    let entries = execute(REPO, &manifest, HOME, &fs, Some("/tmp/sys/a.conf")).unwrap();
    assert_eq!(entries.len(), 1);
    assert_eq!(entries[0].system_path, "/tmp/sys/a.conf");
}

#[test]
fn format_diff_marks_each_line() {
    let out = format_diff("a\nb\n", "a\nc\n");
    assert_eq!(out, "  a\n- b\n+ c\n");
}

#[test]
fn format_diff_of_equal_texts_keeps_every_line() {
    let out = format_diff("x\ny\n", "x\ny\n");
    assert_eq!(out, "  x\n  y\n");
}

#[test]
fn diff_directory_member_shows_both_paths() {
    let mut fs = FsView::new();
    let base = repo_file("/tmp/sys/nvim");
    put(&mut fs, &format!("{}/init.lua", base), "old\n");
    put(&mut fs, "/tmp/sys/nvim/init.lua", "new\n");
    put(&mut fs, "/tmp/sys/nvim/extra.lua", "x\n");
    fs.add_dir(base.clone(), vec!["init.lua".to_string()]);
    fs.add_dir("/tmp/sys/nvim".to_string(), vec!["init.lua".to_string(), "extra.lua".to_string()]);
    let mut manifest = Manifest::new();
    manifest.add("/tmp/sys/nvim", HOME, true).unwrap();
    let entries = execute(REPO, &manifest, HOME, &fs, None).unwrap();
    assert_eq!(entries.len(), 2);
    assert_eq!(entries[0].system_path, "/tmp/sys/nvim/extra.lua");
    assert_eq!(entries[0].diff, "  [missing from repo: system/tmp/sys/nvim/extra.lua]");
    assert_eq!(entries[1].system_path, "/tmp/sys/nvim/init.lua");
    assert_eq!(entries[1].diff, "- old\n+ new\n");
}

#[test]
fn diff_of_non_text_file_fails() {
    let mut fs = FsView::new();
    let mut manifest = Manifest::new();
    fs.add_file(repo_file("/tmp/sys/blob"), vec![0xff, 0xfe]);
    put(&mut fs, "/tmp/sys/blob", "text");
    manifest.add("/tmp/sys/blob", HOME, false).unwrap();
    let result = execute(REPO, &manifest, HOME, &fs, None);
    assert!(matches!(result, Err(RootratError::NotText { .. })));
}

#[test]
fn diff_of_unreadable_file_fails() {
    let mut fs = FsView::new();
    let mut manifest = Manifest::new();
    put(&mut fs, &repo_file("/tmp/sys/locked"), "text");
    fs.add_unreadable("/tmp/sys/locked".to_string());
    manifest.add("/tmp/sys/locked", HOME, false).unwrap();
    let result = execute(REPO, &manifest, HOME, &fs, None);
    assert!(matches!(result, Err(RootratError::Unreadable { .. })));
}

#[test]
fn render_changes_puts_markers_in_front() {
    let changes = vec![
        LineChange { kind: ChangeKind::Equal, text: "a\n".to_string() },
        LineChange { kind: ChangeKind::Delete, text: "b\n".to_string() },
        LineChange { kind: ChangeKind::Insert, text: "c".to_string() },
    ];
    assert_eq!(render_changes(&changes), "  a\n- b\n+ c");
    assert_eq!(render_changes(&Vec::new()), "");
}

#[test]
fn filter_keeps_exactly_the_named_entries() {
    let mut fs = FsView::new();
    let mut manifest = Manifest::new();
    tracked_file(&mut fs, &mut manifest, "/tmp/sys/a.conf", Some("new\n"), Some("old\n"));
    tracked_file(&mut fs, &mut manifest, "/tmp/sys/b.conf", Some("x\n"), Some("x\n"));
    tracked_file(&mut fs, &mut manifest, "/tmp/sys/c.conf", None, Some("c\n"));
    let all = execute(REPO, &manifest, HOME, &fs, None).unwrap();
    for f in ["/tmp/sys/a.conf", "/tmp/sys/b.conf", "/tmp/sys/c.conf", "/tmp/sys/none"] {
        let got = execute(REPO, &manifest, HOME, &fs, Some(f)).unwrap();
        let want: Vec<(String, String)> =
            all.iter().filter(|e| e.system_path == f).map(|e| (e.system_path.clone(), e.diff.clone())).collect();
        let got: Vec<(String, String)> = got.iter().map(|e| (e.system_path.clone(), e.diff.clone())).collect();
        assert_eq!(got, want);
    }
}
