use rootrat::commands::apply::{self, ApplyState};
use rootrat::commands::collect::{self, CollectState};
use rootrat::commands::status::{self, FileState};
use rootrat::commands::{diff, FsAction};
use rootrat::fsview::FsView;
use rootrat::manifest::Manifest;

const HOME: &str = "/home/tester";
const REPO: &str = "/home/tester/dotfiles";

fn repo_file(system_path: &str) -> String {
    let k = Manifest::derive_repo_path_with_home(system_path, HOME).unwrap();
    format!("{}/{}", REPO, k)
}

fn view(files: &[(String, &str)]) -> FsView {
    let mut fs = FsView::new();
    for (p, c) in files {
        fs.add_file(p.clone(), c.as_bytes().to_vec());
    }
    fs
}

fn manifest_for(paths: &[&str]) -> Manifest {
    let mut m = Manifest::new();
    for p in paths {
        m.add(p, HOME, false).unwrap();
    }
    m
}

#[test]
fn commands_agree_on_each_state() {
    let cases: Vec<(Option<&str>, Option<&str>)> = vec![
        (Some("x"), Some("x")),
        (Some("x"), Some("y")),
        (None, Some("y")),
        (Some("x"), None),
    ];
    for (r, s) in cases {
        let mut files = Vec::new();
        if let Some(c) = r {
            files.push((repo_file("/tmp/sys/f"), c));
        }
        if let Some(c) = s {
            files.push(("/tmp/sys/f".to_string(), c));
        }
        let fs = view(&files);
        let m = manifest_for(&["/tmp/sys/f"]);
        let st = status::execute(REPO, &m, HOME, &fs).unwrap()[0].state;
        let ap = apply::plan(REPO, &m, HOME, &fs).unwrap()[0].state;
        let co = collect::plan(REPO, &m, HOME, &fs).unwrap()[0].state;
        assert_eq!(st == FileState::Unchanged, ap == ApplyState::Unchanged);
        assert_eq!(st == FileState::Unchanged, co == CollectState::Unchanged);
        assert_eq!(st == FileState::Modified, ap == ApplyState::Updated);
        assert_eq!(st == FileState::Modified, co == CollectState::Updated);
        assert_eq!(st == FileState::MissingFromRepo, ap == ApplyState::MissingFromRepo);
        let shown = diff::execute(REPO, &m, HOME, &fs, None).unwrap();
        if r.is_some() && s.is_some() {
            assert_eq!(!shown.is_empty(), st == FileState::Modified);
        }
    }
}

#[test]
fn apply_then_status_is_clean() {
    let before = view(&[(repo_file("/tmp/sys/f"), "repo"), ("/tmp/sys/f".to_string(), "old")]);
    let m = manifest_for(&["/tmp/sys/f"]);
    let (_, acts) = apply::execute(REPO, &m, HOME, &before).unwrap();
    assert_eq!(acts.len(), 1);
    let (from, to) = match &acts[0] {
        FsAction::Copy { from, to } => (from.clone(), to.clone()),
        other => panic!("unexpected {:?}", other),
    };
    assert_eq!(from, repo_file("/tmp/sys/f"));
    let after = view(&[(from, "repo"), (to, "repo")]);
    assert_eq!(status::execute(REPO, &m, HOME, &after).unwrap()[0].state, FileState::Unchanged);
    assert!(apply::execute(REPO, &m, HOME, &after).unwrap().1.is_empty());
    assert!(collect::actions(&collect::plan(REPO, &m, HOME, &after).unwrap()).is_empty());
}

#[test]
fn collect_then_status_is_clean() {
    let before = view(&[("/tmp/sys/f".to_string(), "system")]);
    let m = manifest_for(&["/tmp/sys/f"]);
    let entries = collect::plan(REPO, &m, HOME, &before).unwrap();
    assert_eq!(entries[0].state, CollectState::Created);
    let acts = collect::actions(&entries);
    let (from, to) = match &acts[0] {
        FsAction::CopyCreatingParent { from, to } => (from.clone(), to.clone()),
        other => panic!("unexpected {:?}", other),
    };
    let after = view(&[(from, "system"), (to, "system")]);
    assert_eq!(status::execute(REPO, &m, HOME, &after).unwrap()[0].state, FileState::Unchanged);
}

fn carry_out(disk: &mut Vec<(String, String)>, acts: &[FsAction]) {
    for a in acts {
        match a {
            FsAction::CopyCreatingParent { from, to } | FsAction::Copy { from, to } => {
                let content = disk.iter().find(|(p, _)| p == from).unwrap().1.clone();
                disk.retain(|(p, _)| p != to);
                disk.push((to.clone(), content));
            }
            FsAction::RemoveFile { path } => disk.retain(|(p, _)| p != path),
        }
    }
}

fn dir_view(disk: &[(String, String)], bases: &[&str]) -> FsView {
    let mut fs = FsView::new();
    for (p, c) in disk {
        fs.add_file(p.clone(), c.as_bytes().to_vec());
    }
    for b in bases {
        let prefix = format!("{}/", b);
        let listing: Vec<String> = disk
            .iter()
            .filter_map(|(p, _)| p.strip_prefix(&prefix).map(|r| r.to_string()))
            .collect();
        fs.add_dir(b.to_string(), listing);
    }
    fs
}

#[test]
fn apply_whole_plan_then_status_is_clean() {
    let base = repo_file("/tmp/sys/nvim");
    let mut disk: Vec<(String, String)> = vec![
        (format!("{}/init.lua", base), "new".to_string()),
        (format!("{}/lua/a.lua", base), "a".to_string()),
        ("/tmp/sys/nvim/init.lua".to_string(), "old".to_string()),
        ("/tmp/sys/nvim/stale.lua".to_string(), "x".to_string()),
        (repo_file("/tmp/sys/f"), "same".to_string()),
        ("/tmp/sys/f".to_string(), "same".to_string()),
    ];
    let mut m = manifest_for(&["/tmp/sys/f"]);
    m.add("/tmp/sys/nvim", HOME, true).unwrap();
    let bases = [base.as_str(), "/tmp/sys/nvim"];
    let before = dir_view(&disk, &bases);
    let entries = apply::plan(REPO, &m, HOME, &before).unwrap();
    carry_out(&mut disk, &apply::actions(&entries, true));
    let after = dir_view(&disk, &bases);
    let states = status::execute(REPO, &m, HOME, &after).unwrap();
    assert_eq!(states.len(), 3);
    assert!(states.iter().all(|e| e.state == FileState::Unchanged));
}

#[test]
fn collect_whole_plan_then_status_is_clean() {
    let base = repo_file("/tmp/sys/nvim");
    let mut disk: Vec<(String, String)> = vec![
        (format!("{}/init.lua", base), "old".to_string()),
        (format!("{}/removed.lua", base), "gone".to_string()),
        ("/tmp/sys/nvim/init.lua".to_string(), "updated".to_string()),
        ("/tmp/sys/nvim/brand-new.lua".to_string(), "just added".to_string()),
    ];
    let mut m = Manifest::new();
    m.add("/tmp/sys/nvim", HOME, true).unwrap();
    let bases = [base.as_str(), "/tmp/sys/nvim"];
    let before = dir_view(&disk, &bases);
    let entries = collect::plan(REPO, &m, HOME, &before).unwrap();
    carry_out(&mut disk, &collect::actions(&entries));
    let after = dir_view(&disk, &bases);
    let states = status::execute(REPO, &m, HOME, &after).unwrap();
    assert_eq!(states.len(), 2);
    assert!(states.iter().all(|e| e.state == FileState::Unchanged));
}

#[test]
fn apply_then_plan_again_leaves_nothing_to_do() {
    let base = repo_file("/tmp/sys/nvim");
    let mut disk: Vec<(String, String)> = vec![
        (format!("{}/init.lua", base), "new".to_string()),
        (format!("{}/lua/a.lua", base), "a".to_string()),
        ("/tmp/sys/nvim/init.lua".to_string(), "old".to_string()),
        ("/tmp/sys/nvim/stale.lua".to_string(), "x".to_string()),
        ("/tmp/sys/f".to_string(), "only on system".to_string()),
    ];
    let mut m = manifest_for(&["/tmp/sys/f"]);
    m.add("/tmp/sys/nvim", HOME, true).unwrap();
    let bases = [base.as_str(), "/tmp/sys/nvim"];
    let before = dir_view(&disk, &bases);
    let entries = apply::plan(REPO, &m, HOME, &before).unwrap();
    let kept = entries.iter().filter(|e| e.state != ApplyState::Deleted).count();
    carry_out(&mut disk, &apply::actions(&entries, true));
    let after = dir_view(&disk, &bases);
    let again = apply::plan(REPO, &m, HOME, &after).unwrap();
    assert_eq!(again.len(), kept);
    assert!(again.iter().all(|e| e.state == ApplyState::Unchanged || e.state == ApplyState::MissingFromRepo));
    assert_eq!(again[0].state, ApplyState::MissingFromRepo);
}

#[test]
fn collect_then_plan_again_leaves_nothing_to_do() {
    let base = repo_file("/tmp/sys/nvim");
    let mut disk: Vec<(String, String)> = vec![
        (format!("{}/init.lua", base), "old".to_string()),
        (format!("{}/removed.lua", base), "gone".to_string()),
        ("/tmp/sys/nvim/init.lua".to_string(), "updated".to_string()),
        ("/tmp/sys/nvim/brand-new.lua".to_string(), "just added".to_string()),
    ];
    let mut m = Manifest::new();
    m.add("/tmp/sys/nvim", HOME, true).unwrap();
    let bases = [base.as_str(), "/tmp/sys/nvim"];
    let before = dir_view(&disk, &bases);
    let entries = collect::plan(REPO, &m, HOME, &before).unwrap();
    let kept = entries.iter().filter(|e| e.state != CollectState::Deleted).count();
    carry_out(&mut disk, &collect::actions(&entries));
    let after = dir_view(&disk, &bases);
    let again = collect::plan(REPO, &m, HOME, &after).unwrap();
    assert_eq!(again.len(), kept);
    assert!(again.iter().all(|e| e.state == CollectState::Unchanged));
}
