use rootrat::commands::walk::{
    walk_dir, DirEntry, PendingDir, classify_entry, gitignore_lines, gitignore_verdict, is_gitignored, is_ignored_name, GitignoreFile, IgnoreMatch, WalkStep,
};

fn matcher(root: &str, lines: &[&str]) -> GitignoreFile {
    GitignoreFile { root: root.to_string(), lines: lines.iter().map(|l| l.to_string()).collect() }
}

fn ignore_list() -> Vec<String> {
    vec![".DS_Store".to_string(), "Thumbs.db".to_string(), ".git".to_string()]
}

#[test]
fn collect_files_respects_gitignore() {
    let lines = gitignore_lines(&b"*.log\n".to_vec());
    let stack = vec![GitignoreFile { root: "/w".to_string(), lines }];
    let none: Vec<String> = Vec::new();
    let keep = classify_entry(&none, &stack, "/w", "/w/a.txt", "a.txt", false);
    let drop = classify_entry(&none, &stack, "/w", "/w/b.log", "b.log", false);
    let itself = classify_entry(&none, &stack, "/w", "/w/.gitignore", ".gitignore", false);
    assert!(matches!(keep, WalkStep::Keep(ref r) if r == "a.txt"));
    assert!(matches!(drop, WalkStep::Skip));
    assert!(matches!(itself, WalkStep::Keep(ref r) if r == ".gitignore"));
}

#[test]
fn collect_files_nested_gitignore() {
    let outer = matcher("/w", &["*.tmp"]);
    let inner = matcher("/w/sub", &["secret.txt"]);
    let stack = vec![outer, inner];
    let ig = ignore_list();
    assert!(matches!(classify_entry(&ig, &stack, "/w", "/w/sub/visible.txt", "visible.txt", false), WalkStep::Keep(ref r) if r == "sub/visible.txt"));
    assert!(matches!(classify_entry(&ig, &stack, "/w", "/w/sub/secret.txt", "secret.txt", false), WalkStep::Skip));
    assert!(matches!(classify_entry(&ig, &stack, "/w", "/w/sub/also_drop.tmp", "also_drop.tmp", false), WalkStep::Skip));
}

#[test]
fn collect_files_gitignore_negation() {
    let stack = vec![matcher("/w", &["*.log", "!important.log"])];
    let ig = ignore_list();
    assert!(matches!(classify_entry(&ig, &stack, "/w", "/w/debug.log", "debug.log", false), WalkStep::Skip));
    assert!(matches!(classify_entry(&ig, &stack, "/w", "/w/important.log", "important.log", false), WalkStep::Keep(_)));
    assert!(matches!(classify_entry(&ig, &stack, "/w", "/w/readme.txt", "readme.txt", false), WalkStep::Keep(_)));
}

#[test]
fn collect_files_gitignore_directory_pattern() {
    let stack = vec![matcher("/w", &["build/"])];
    let ig = ignore_list();
    assert!(matches!(classify_entry(&ig, &stack, "/w", "/w/build", "build", true), WalkStep::Skip));
    assert!(matches!(classify_entry(&ig, &stack, "/w", "/w/src.txt", "src.txt", false), WalkStep::Keep(_)));
    assert!(matches!(classify_entry(&ig, &stack, "/w", "/w/lib", "lib", true), WalkStep::Descend));
}

#[test]
fn ignore_list_names_are_skipped_first() {
    let stack: Vec<GitignoreFile> = Vec::new();
    assert!(matches!(classify_entry(&ignore_list(), &stack, "/w", "/w/.git", ".git", true), WalkStep::Skip));
    assert!(is_ignored_name(&ignore_list(), "Thumbs.db"));
    assert!(!is_ignored_name(&ignore_list(), "thumbs.db"));
}

#[test]
fn stray_entry_is_reported() {
    let stack: Vec<GitignoreFile> = Vec::new();
    assert!(matches!(classify_entry(&ignore_list(), &stack, "/w", "/elsewhere/f", "f", false), WalkStep::Stray));
}

#[test]
fn innermost_matcher_decides() {
    assert!(!gitignore_verdict(&vec![]));
    assert!(gitignore_verdict(&vec![IgnoreMatch::Ignored, IgnoreMatch::Unmatched]));
    assert!(!gitignore_verdict(&vec![IgnoreMatch::Ignored, IgnoreMatch::Whitelisted]));
    assert!(gitignore_verdict(&vec![IgnoreMatch::Whitelisted, IgnoreMatch::Ignored]));
}

#[test]
fn gitignore_stack_inner_whitelist_wins() {
    let stack = vec![matcher("/w", &["*.log"]), matcher("/w/sub", &["!keep.log"])];
    assert!(!is_gitignored(&stack, "/w/sub/keep.log", false));
    assert!(is_gitignored(&stack, "/w/sub/other.log", false));
    assert!(!is_gitignored(&Vec::new(), "/w/x.log", false));
}

#[test]
fn gitignore_comments_and_blank_lines_match_nothing() {
    let stack = vec![matcher("/w", &["# *.txt", "", "   "])];
    assert!(!is_gitignored(&stack, "/w/a.txt", false));
}

#[test]
fn gitignore_odd_line_leaves_other_patterns_working() {
    let stack = vec![matcher("/w", &["[", "*.tmp"])];
    assert!(is_gitignored(&stack, "/w/x.tmp", false));
    assert!(!is_gitignored(&stack, "/w/x.txt", false));
}

#[test]
fn gitignore_lines_read_as_bufread_lines() {
    let read = |b: &[u8]| gitignore_lines(&b.to_vec());
    assert_eq!(read(b""), Vec::<String>::new());
    assert_eq!(read(b"a"), vec!["a"]);
    assert_eq!(read(b"a\r\nb\n"), vec!["a", "b"]);
    assert_eq!(read(b"a\n\n"), vec!["a", ""]);
    assert_eq!(read(b"a\r"), vec!["a\r"]);
    assert_eq!(read("\u{feff}\u{feff}x\n\u{feff}y".as_bytes()), vec!["x", "\u{feff}y"]);
    assert_eq!(read(b"ok\n\xff bad\nlater\n"), vec!["ok"]);
}

/// A directory tree in memory: paths of directories and files (with bytes).
struct Tree {
    dirs: Vec<&'static str>,
    files: Vec<(&'static str, &'static str)>,
}

fn walk(tree: &Tree, base: &str, ignore: &Vec<String>) -> Vec<String> {
    let mut out = Vec::new();
    let mut pending = vec![PendingDir { path: base.to_string(), gitignores: Vec::new() }];
    while let Some(dir) = pending.pop() {
        let prefix = format!("{}/", dir.path);
        let child = |p: &str| p.strip_prefix(&prefix).map(|r| !r.contains('/')).unwrap_or(false);
        let mut entries = Vec::new();
        for d in &tree.dirs {
            if child(d) {
                entries.push(DirEntry { name: d.rsplit('/').next().unwrap().to_string(), path: d.to_string(), is_dir: true });
            }
        }
        let mut own = None;
        for (f, c) in &tree.files {
            if child(f) {
                let name = f.rsplit('/').next().unwrap().to_string();
                if name == ".gitignore" {
                    own = Some(c.as_bytes().to_vec());
                }
                entries.push(DirEntry { name, path: f.to_string(), is_dir: false });
            }
        }
        let (kept, dirs) = walk_dir(base, ignore, &dir, own.as_ref(), &entries).unwrap();
        out.extend(kept);
        pending.extend(dirs);
    }
    out.sort();
    out
}

#[test]
fn walk_respects_nested_gitignore_and_ignore_list() {
    let tree = Tree {
        dirs: vec!["/w/sub", "/w/.git", "/w/build"],
        files: vec![
            ("/w/.gitignore", "*.tmp\nbuild/\n"),
            ("/w/keep.txt", "k"),
            ("/w/drop.tmp", "d"),
            ("/w/.git/HEAD", "h"),
            ("/w/build/out.bin", "b"),
            ("/w/sub/.gitignore", "secret.txt\n"),
            ("/w/sub/visible.txt", "v"),
            ("/w/sub/secret.txt", "s"),
            ("/w/sub/also_drop.tmp", "a"),
        ],
    };
    let got = walk(&tree, "/w", &ignore_list());
    assert_eq!(got, vec![".gitignore", "keep.txt", "sub/.gitignore", "sub/visible.txt"]);
}

#[test]
fn walk_negation_keeps_whitelisted_file() {
    let tree = Tree {
        dirs: vec![],
        files: vec![
            ("/w/.gitignore", "*.log\n!important.log\n"),
            ("/w/debug.log", "d"),
            ("/w/important.log", "i"),
            ("/w/readme.txt", "r"),
        ],
    };
    let got = walk(&tree, "/w", &Vec::new());
    assert_eq!(got, vec![".gitignore", "important.log", "readme.txt"]);
}

#[test]
fn walk_never_keeps_ignored_names_at_any_depth() {
    let tree = Tree {
        dirs: vec!["/w/a", "/w/a/.git", "/w/a/b", "/w/a/b/.DS_Store"],
        files: vec![
            ("/w/a/.git/config", "c"),
            ("/w/a/b/.DS_Store/x", "x"),
            ("/w/a/b/Thumbs.db", "t"),
            ("/w/a/b/ok", "o"),
        ],
    };
    let got = walk(&tree, "/w", &ignore_list());
    assert_eq!(got, vec!["a/b/ok"]);
}
