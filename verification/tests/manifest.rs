use rootrat::error::RootratError;
use rootrat::manifest::{LocalConfig, Manifest};

const HOME: &str = "/home/tester";

#[test]
fn local_config_default_path_is_in_home_config() {
    let path = LocalConfig::default_path_with_home(HOME);
    assert_eq!(path, "/home/tester/.config/rootrat/rootrat.toml");
}

#[test]
fn local_config_default_path_for_current_user_ends_in_config() {
    if let Ok(path) = LocalConfig::default_path() {
        assert!(path.ends_with("/.config/rootrat/rootrat.toml"));
    }
}

#[test]
fn local_config_repo_dir_expands_tilde() {
    let config = LocalConfig { repo: "~/Projects/dotfiles".to_string() };
    assert_eq!(config.repo_dir_with_home(HOME), "/home/tester/Projects/dotfiles");
}

#[test]
fn local_config_repo_dir_keeps_absolute_path() {
    let config = LocalConfig { repo: "/srv/dotfiles".to_string() };
    assert_eq!(config.repo_dir_with_home(HOME), "/srv/dotfiles");
    assert_eq!(config.repo_dir().unwrap(), "/srv/dotfiles");
}

#[test]
fn local_config_load_default_without_file_is_not_initialized() {
    let result = LocalConfig::load_default(None);
    assert!(matches!(result, Err(RootratError::NotInitialized)));
}

#[test]
fn local_config_load_default_keeps_found_config() {
    let found = LocalConfig { repo: "~/dotfiles".to_string() };
    let config = LocalConfig::load_default(Some(found)).unwrap();
    assert_eq!(config.repo, "~/dotfiles");
}

#[test]
fn local_config_save_default_targets_default_path() {
    let config = LocalConfig { repo: "~/dotfiles".to_string() };
    match (config.save_default(), LocalConfig::default_path()) {
        (Ok(a), Ok(b)) => assert_eq!(a, b),
        (a, b) => {
            assert!(matches!(a, Err(RootratError::NoHomeDir)));
            assert!(matches!(b, Err(RootratError::NoHomeDir)));
        }
    }
}

#[test]
fn new_manifest_has_empty_maps() {
    let manifest = Manifest::new();
    assert!(manifest.files.is_empty());
    assert!(manifest.directories.is_empty());
}

#[test]
fn new_manifest_has_no_repo() {
    let manifest = Manifest::new();
    assert!(manifest.repo.is_none());
}

#[test]
fn derive_repo_path_from_home_dir() {
    let repo_path = Manifest::derive_repo_path_with_home("/home/tester/.notes/NOTES.md", HOME).unwrap();
    assert_eq!(repo_path, "home/.notes/NOTES.md");
}

#[test]
fn derive_repo_path_from_system_dir() {
    let repo_path = Manifest::derive_repo_path_with_home("/etc/some-config", HOME).unwrap();
    assert_eq!(repo_path, "system/etc/some-config");
    let repo_path = Manifest::derive_repo_path("/etc/some-config");
    if let Ok(p) = repo_path {
        assert_eq!(p, "system/etc/some-config");
    }
}

#[test]
fn derive_repo_path_rejects_relative_path() {
    let result = Manifest::derive_repo_path_with_home("relative/path.txt", HOME);
    assert!(matches!(result, Err(RootratError::NotAbsolute { .. })));
    let result = Manifest::derive_repo_path("relative/path.txt");
    assert!(matches!(result, Err(RootratError::NotAbsolute { .. })));
}

fn std_repo_path(p: &str, home: &str) -> String {
    let path = std::path::Path::new(p);
    match path.strip_prefix(home) {
        Ok(rel) => format!("home/{}", rel.display()),
        Err(_) => format!("system/{}", path.strip_prefix("/").unwrap().display()),
    }
}

#[test]
fn derive_repo_path_keeps_inner_separators() {
    let repo_path = Manifest::derive_repo_path_with_home("//etc//nginx/./nginx.conf", HOME).unwrap();
    assert_eq!(repo_path, "system/etc//nginx/./nginx.conf");
    let repo_path = Manifest::derive_repo_path_with_home("/e//x", HOME).unwrap();
    assert_eq!(repo_path, "system/e//x");
    let repo_path = Manifest::derive_repo_path_with_home("/home/tester/", HOME).unwrap();
    assert_eq!(repo_path, "home/");
    assert_eq!(Manifest::to_display_path_with_home("/home/tester/a//b", HOME), "~/a//b");
}

#[test]
fn derive_repo_path_matches_std_path() {
    for p in [
        "/etc/hosts", "/e//x", "//etc/./a/", "/home/tester", "/home/tester/.config//nvim/./init.lua",
        "/home//tester/x/.", "/home/tester/./", "/home/testerx/y", "/", "///a//",
    ] {
        assert_eq!(Manifest::derive_repo_path_with_home(p, HOME).unwrap(), std_repo_path(p, HOME), "{}", p);
    }
}

#[test]
fn derive_repo_path_home_prefix_is_by_component() {
    let repo_path = Manifest::derive_repo_path_with_home("/home/testerx/file", HOME).unwrap();
    assert_eq!(repo_path, "system/home/testerx/file");
}

#[test]
fn to_display_path_uses_tilde_inside_home() {
    assert_eq!(Manifest::to_display_path_with_home("/home/tester/.vimrc", HOME), "~/.vimrc");
    assert_eq!(Manifest::to_display_path_with_home("/etc/hosts", HOME), "/etc/hosts");
}

#[test]
fn expand_tilde_variants() {
    assert_eq!(Manifest::expand_tilde_with_home("~/.vimrc", HOME), "/home/tester/.vimrc");
    assert_eq!(Manifest::expand_tilde_with_home("~.vimrc", HOME), "/home/tester/.vimrc");
    assert_eq!(Manifest::expand_tilde_with_home("~", HOME), "/home/tester/");
    assert_eq!(Manifest::expand_tilde_with_home("/etc/hosts", HOME), "/etc/hosts");
    assert_eq!(Manifest::expand_tilde("/etc/hosts").unwrap(), "/etc/hosts");
}

#[test]
fn add_creates_mapping() {
    let mut manifest = Manifest::new();
    let repo_path = manifest.add("/home/tester/.config/ghostty/config", HOME, false).unwrap();
    assert_eq!(repo_path, "home/.config/ghostty/config");
    assert_eq!(
        manifest.files.get("home/.config/ghostty/config").unwrap(),
        "~/.config/ghostty/config"
    );
}

#[test]
fn add_system_path_creates_mapping() {
    let mut manifest = Manifest::new();
    let repo_path = manifest.add("/etc/nginx/nginx.conf", HOME, false).unwrap();
    assert_eq!(repo_path, "system/etc/nginx/nginx.conf");
    assert_eq!(
        manifest.files.get("system/etc/nginx/nginx.conf").unwrap(),
        "/etc/nginx/nginx.conf"
    );
}

#[test]
fn add_duplicate_is_idempotent() {
    let mut manifest = Manifest::new();
    manifest.add("/home/tester/.notes/NOTES.md", HOME, false).unwrap();
    manifest.add("/home/tester/.notes/NOTES.md", HOME, false).unwrap();
    assert_eq!(manifest.files.len(), 1);
}

#[test]
fn add_relative_path_is_refused_and_changes_nothing() {
    let mut manifest = Manifest::new();
    let result = manifest.add("notes.txt", HOME, false);
    assert!(matches!(result, Err(RootratError::NotAbsolute { .. })));
    assert!(manifest.files.is_empty());
    assert!(manifest.directories.is_empty());
}

#[test]
fn load_from_repo_returns_empty_when_missing() {
    let manifest = Manifest::load_from_repo(None);
    assert!(manifest.files.is_empty());
    assert!(manifest.directories.is_empty());
    assert_eq!(manifest.ignore, vec![".DS_Store".to_string(), "Thumbs.db".to_string(), ".git".to_string()]);
}

#[test]
fn load_from_repo_keeps_stored_manifest() {
    let mut stored = Manifest::new();
    stored.files.insert("home/.testrc".to_string(), "~/.testrc".to_string());
    let manifest = Manifest::load_from_repo(Some(stored));
    assert_eq!(manifest.files.get("home/.testrc").unwrap(), "~/.testrc");
}

#[test]
fn save_to_repo_targets_repo_manifest_file() {
    let manifest = Manifest::new();
    assert_eq!(manifest.save_to_repo("/home/tester/dotfiles"), "/home/tester/dotfiles/rootrat.toml");
    assert_eq!(Manifest::repo_manifest_path("/srv/dots/"), "/srv/dots/rootrat.toml");
}

#[test]
fn add_directory_creates_mapping() {
    let mut manifest = Manifest::new();
    let repo_path = manifest.add("/home/tester/.config/nvim", HOME, true).unwrap();
    assert_eq!(repo_path, "home/.config/nvim");
    assert_eq!(manifest.directories.get("home/.config/nvim").unwrap(), "~/.config/nvim");
    assert!(manifest.files.is_empty());
}

#[test]
fn add_directory_system_path_creates_mapping() {
    let mut manifest = Manifest::new();
    let repo_path = manifest.add("/tmp/x/etc/nginx", HOME, true).unwrap();
    assert!(manifest.directories.contains_key(&repo_path));
    assert!(manifest.files.is_empty());
}

#[test]
fn add_file_still_goes_to_files() {
    let mut manifest = Manifest::new();
    manifest.add("/tmp/x/test.conf", HOME, false).unwrap();
    assert!(manifest.directories.is_empty());
    assert_eq!(manifest.files.len(), 1);
}

#[test]
fn add_directory_duplicate_is_idempotent() {
    let mut manifest = Manifest::new();
    manifest.add("/tmp/x/mydir", HOME, true).unwrap();
    manifest.add("/tmp/x/mydir", HOME, true).unwrap();
    assert_eq!(manifest.directories.len(), 1);
}

#[test]
fn new_manifest_has_default_ignore() {
    let manifest = Manifest::new();
    assert!(manifest.ignore.contains(&".DS_Store".to_string()));
    assert!(manifest.ignore.contains(&"Thumbs.db".to_string()));
    assert!(manifest.ignore.contains(&".git".to_string()));
}

#[test]
fn remove_file_entry() {
    let mut manifest = Manifest::new();
    manifest.files.insert("home/.config/ghostty/config".to_string(), "~/.config/ghostty/config".to_string());
    let repo_path = manifest.remove("/home/tester/.config/ghostty/config", HOME).unwrap();
    assert_eq!(repo_path, "home/.config/ghostty/config");
    assert!(manifest.files.is_empty());
}

#[test]
fn remove_directory_entry() {
    let mut manifest = Manifest::new();
    manifest.directories.insert("home/.config/nvim".to_string(), "~/.config/nvim".to_string());
    let repo_path = manifest.remove("/home/tester/.config/nvim", HOME).unwrap();
    assert_eq!(repo_path, "home/.config/nvim");
    assert!(manifest.directories.is_empty());
}

#[test]
fn remove_nonexistent_errors() {
    let mut manifest = Manifest::new();
    let result = manifest.remove("/etc/not-tracked", HOME);
    assert!(result.is_err());
    assert!(matches!(result, Err(RootratError::NotTracked { .. })));
}

#[test]
fn remove_relative_path_errors() {
    let mut manifest = Manifest::new();
    let result = manifest.remove("not/absolute", HOME);
    assert!(matches!(result, Err(RootratError::NotAbsolute { .. })));
}

#[test]
fn remove_leaves_other_entries() {
    let mut manifest = Manifest::new();
    manifest.files.insert("home/.config/a.conf".to_string(), "~/.config/a.conf".to_string());
    manifest.files.insert("home/.config/b.conf".to_string(), "~/.config/b.conf".to_string());
    manifest.remove("/home/tester/.config/a.conf", HOME).unwrap();
    assert_eq!(manifest.files.len(), 1);
    assert!(manifest.files.contains_key("home/.config/b.conf"));
}

#[test]
fn remove_after_add_restores_manifest() {
    let mut manifest = Manifest::new();
    manifest.add("/etc/hosts", HOME, false).unwrap();
    let before_len = manifest.files.len();
    manifest.add("/home/tester/.zshrc", HOME, false).unwrap();
    let k = manifest.remove("/home/tester/.zshrc", HOME).unwrap();
    assert_eq!(k, "home/.zshrc");
    assert_eq!(manifest.files.len(), before_len);
    assert!(manifest.files.contains_key("system/etc/hosts"));
    assert!(!manifest.files.contains_key("home/.zshrc"));
}

#[test]
fn display_then_expand_returns_to_the_path() {
    for p in ["/home/tester/.config/nvim/init.lua", "/etc/hosts", "/home/tester"] {
        let shown = Manifest::to_display_path_with_home(p, HOME);
        let back = Manifest::expand_tilde_with_home(&shown, HOME);
        let a = Manifest::derive_repo_path_with_home(p, "/nowhere").unwrap();
        let b = Manifest::derive_repo_path_with_home(&back, "/nowhere").unwrap();
        assert_eq!(a, b);
    }
}

#[test]
fn distinct_paths_get_distinct_repo_paths() {
    let a = Manifest::derive_repo_path_with_home("/home/tester/etc/x", HOME).unwrap();
    let b = Manifest::derive_repo_path_with_home("/etc/x", HOME).unwrap();
    assert_ne!(a, b);
}
