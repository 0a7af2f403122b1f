//! The local configuration and the manifest of tracked paths.
use vstd::prelude::*;
use crate::error::RootratError;
use crate::paths::{
    after_components, components, is_absolute, join, join_path, lemma_components_after,
    lemma_components_join, lemma_components_trim_tail, lemma_strip_rest, path_is_absolute, skip_empty,
    strip_path_prefix, strip_prefix, trim_tail,
};
use crate::sorted::views;
use crate::string_map::StringMap;
use crate::text::{chars_of, string_of, concat_str};

verus! {

/// The user's home directory (`dirs::home_dir`), as text; `None` when the
/// operating system gives none. Which directory comes back depends on the
/// environment (`$HOME`, the password database), so nothing is stated of it.
#[verifier::external_body]
fn home_dir() -> (h: Option<String>) {
    match dirs::home_dir() {
        Some(p) => Some(p.to_string_lossy().into_owned()),
        None => None,
    }
}

/// Where the local configuration lives under the home directory `home`.
pub open spec fn config_path_of(home: Seq<char>) -> Seq<char> {
    join(join(join(home, ".config"@), "rootrat"@), "rootrat.toml"@)
}

/// The path in the repo under which the system path `p` is kept: below
/// `home/` when `p` lies in the home directory `home`, with what is left of
/// `p` after `home`; below `system/` otherwise, with what is left of `p`
/// after its root (see [`strip_prefix`]).
pub open spec fn repo_path_of(p: Seq<char>, home: Seq<char>) -> Seq<char> {
    match strip_prefix(p, home) {
        Some(rel) => "home/"@ + rel,
        None => "system/"@ + trim_tail(skip_empty(p), 0),
    }
}

/// How the system path `p` is written in the manifest: `~/...` inside the
/// home directory `home`, unchanged elsewhere.
pub open spec fn display_path_of(p: Seq<char>, home: Seq<char>) -> Seq<char> {
    match strip_prefix(p, home) {
        Some(rel) => "~/"@ + rel,
        None => p,
    }
}

/// The path `p` with a leading `~` replaced by the home directory `home`.
pub open spec fn expand_tilde_of(p: Seq<char>, home: Seq<char>) -> Seq<char> {
    if p.len() > 0 && p[0] == '~' {
        if p.len() >= 2 && p[1] == '/' {
            join(home, p.skip(2))
        } else {
            join(home, p.skip(1))
        }
    } else {
        p
    }
}

/// The local configuration: where the repo is.
#[derive(Debug)]
pub struct LocalConfig {
    pub repo: String,
}

impl LocalConfig {
    /// The path of the local configuration file for the home directory `home`:
    /// `<home>/.config/rootrat/rootrat.toml`.
    pub fn default_path_with_home(home: &str) -> (p: String)
        ensures
            p@ == config_path_of(home@),
    {
        let a = join_path(home, ".config");
        let b = join_path(a.as_str(), "rootrat");
        join_path(b.as_str(), "rootrat.toml")
    }

    /// The path of the local configuration file of the current user.
    pub fn default_path() -> (r: Result<String, RootratError>)
        ensures
            match r {
                Ok(p) => exists|h: Seq<char>| p@ == config_path_of(h),
                Err(e) => e is NoHomeDir,
            },
    {
        match home_dir() {
            Some(h) => Ok(Self::default_path_with_home(h.as_str())),
            None => Err(RootratError::NoHomeDir),
        }
    }

    /// The local configuration of the current user, given what the default
    /// configuration file held: `found` is `None` when there is no such
    /// file, which means that rootrat was never initialized.
    pub fn load_default(found: Option<LocalConfig>) -> (r: Result<LocalConfig, RootratError>)
        ensures
            match found {
                Some(c) => r matches Ok(d) && d.repo@ == c.repo@,
                None => r matches Err(RootratError::NotInitialized),
            },
    {
        match found {
            Some(c) => Ok(c),
            None => Err(RootratError::NotInitialized),
        }
    }

    /// Where this configuration is saved for the current user: the default
    /// configuration file (see [`LocalConfig::default_path`]). The caller
    /// writes the file.
    pub fn save_default(&self) -> (r: Result<String, RootratError>)
        ensures
            match r {
                Ok(p) => exists|h: Seq<char>| p@ == config_path_of(h),
                Err(e) => e is NoHomeDir,
            },
    {
        Self::default_path()
    }

    /// The repo directory, with `~` expanded against the home directory `home`.
    pub fn repo_dir_with_home(&self, home: &str) -> (d: String)
        ensures
            d@ == expand_tilde_of(self.repo@, home@),
    {
        Manifest::expand_tilde_with_home(self.repo.as_str(), home)
    }

    /// The repo directory, with `~` expanded against the user's home.
    pub fn repo_dir(&self) -> (r: Result<String, RootratError>)
        ensures
            match r {
                Ok(d) => exists|h: Seq<char>| d@ == expand_tilde_of(self.repo@, h),
                Err(e) => e is NoHomeDir,
            },
    {
        Manifest::expand_tilde(self.repo.as_str())
    }
}

/// The abstract content of a manifest.
pub struct ManifestView {
    pub files: Map<Seq<char>, Seq<char>>,
    pub directories: Map<Seq<char>, Seq<char>>,
    pub ignore: Seq<Seq<char>>,
    pub repo: Option<Seq<char>>,
}

/// The names that a new manifest ignores.
pub open spec fn default_ignore_names() -> Seq<Seq<char>> {
    seq![".DS_Store"@, "Thumbs.db"@, ".git"@]
}

/// What adding the system path `p` does to the manifest `m`: the new
/// manifest and the repo path, or `None` when `p` is not absolute.
pub open spec fn add_spec(m: ManifestView, p: Seq<char>, home: Seq<char>, is_dir: bool) -> Option<
    (ManifestView, Seq<char>),
> {
    if !is_absolute(p) {
        None
    } else {
        let k = repo_path_of(p, home);
        let v = display_path_of(p, home);
        if is_dir {
            Some((ManifestView { directories: m.directories.insert(k, v), ..m }, k))
        } else {
            Some((ManifestView { files: m.files.insert(k, v), ..m }, k))
        }
    }
}

/// What removing the system path `p` does to the manifest `m`: the new
/// manifest and the repo path that was removed, or `None` when `p` is not
/// absolute or not tracked.
pub open spec fn remove_spec(m: ManifestView, p: Seq<char>, home: Seq<char>) -> Option<
    (ManifestView, Seq<char>),
> {
    if !is_absolute(p) {
        None
    } else {
        let k = repo_path_of(p, home);
        if m.files.contains_key(k) {
            Some((ManifestView { files: m.files.remove(k), ..m }, k))
        } else if m.directories.contains_key(k) {
            Some((ManifestView { directories: m.directories.remove(k), ..m }, k))
        } else {
            None
        }
    }
}

/// The manifest: tracked files and directories, each keyed by its path in
/// the repo and mapped to its system path; names to ignore inside tracked
/// directories; and the repo directory once it is set.
#[derive(Debug)]
pub struct Manifest {
    pub files: StringMap,
    pub directories: StringMap,
    pub ignore: Vec<String>,
    pub repo: Option<String>,
}

impl View for Manifest {
    type V = ManifestView;

    open spec fn view(&self) -> ManifestView {
        ManifestView {
            files: self.files@,
            directories: self.directories@,
            ignore: views(self.ignore@),
            repo: match self.repo {
                Some(r) => Some(r@),
                None => None,
            },
        }
    }
}

/// An owned copy of a string slice.
pub fn owned(s: &str) -> (r: String)
    ensures
        r@ == s@,
{
    s.to_owned()
}

/// The names that a new manifest ignores: `.DS_Store`, `Thumbs.db`, `.git`.
pub fn default_ignore() -> (v: Vec<String>)
    ensures
        views(v@) == default_ignore_names(),
{
    let mut v: Vec<String> = Vec::new();
    v.push(owned(".DS_Store"));
    v.push(owned("Thumbs.db"));
    v.push(owned(".git"));
    assert(views(v@) =~= default_ignore_names());
    v
}

impl Manifest {
    /// The content of a new manifest: nothing tracked, the default ignore
    /// list, no repo directory.
    pub open spec fn new_view() -> ManifestView {
        ManifestView {
            files: Map::empty(),
            directories: Map::empty(),
            ignore: default_ignore_names(),
            repo: None,
        }
    }

    /// An empty manifest with the default ignore list.
    pub fn new() -> (m: Self)
        ensures
            m@ == Manifest::new_view(),
            m@.files == Map::<Seq<char>, Seq<char>>::empty(),
            m@.directories == Map::<Seq<char>, Seq<char>>::empty(),
            m@.ignore == default_ignore_names(),
            m@.repo is None,
            m.files.pairs().len() == 0,
            m.directories.pairs().len() == 0,
    {
        Manifest {
            files: StringMap::new(),
            directories: StringMap::new(),
            ignore: default_ignore(),
            repo: None,
        }
    }

    /// The manifest file of the repo at `repo_dir`: `<repo_dir>/rootrat.toml`.
    pub fn repo_manifest_path(repo_dir: &str) -> (p: String)
        ensures
            p@ == join(repo_dir@, "rootrat.toml"@),
    {
        join_path(repo_dir, "rootrat.toml")
    }

    /// The manifest of a repo, given what its manifest file held: `stored`
    /// is `None` when the repo has no manifest file, and then the manifest
    /// is a new, empty one.
    pub fn load_from_repo(stored: Option<Manifest>) -> (m: Manifest)
        ensures
            match stored {
                Some(s) => m@ == s@,
                None => m@ == Manifest::new_view(),
            },
    {
        match stored {
            Some(s) => s,
            None => Manifest::new(),
        }
    }

    /// Where this manifest is saved for the repo at `repo_dir`: the repo's
    /// manifest file (see [`Manifest::repo_manifest_path`]). The caller
    /// writes the file.
    pub fn save_to_repo(&self, repo_dir: &str) -> (p: String)
        ensures
            p@ == join(repo_dir@, "rootrat.toml"@),
    {
        Self::repo_manifest_path(repo_dir)
    }

    /// The repo path of the system path `system_path`, given the home
    /// directory `home`; fails when `system_path` is not absolute.
    pub fn derive_repo_path_with_home(system_path: &str, home: &str) -> (r: Result<String, RootratError>)
        ensures
            match r {
                Ok(k) => is_absolute(system_path@) && k@ == repo_path_of(system_path@, home@),
                Err(e) => !is_absolute(system_path@) && (e matches RootratError::NotAbsolute { path }
                    && path@ == system_path@),
            },
    {
        if !path_is_absolute(system_path) {
            return Err(RootratError::NotAbsolute { path: owned(system_path) });
        }
        match strip_path_prefix(system_path, home) {
            Some(rel) => Ok(concat_str("home/", rel.as_str())),
            None => {
                proof {
                    reveal_strlit("/");
                    assert("/"@ =~= seq!['/']);
                    assert(seq!['/'].drop_first() =~= Seq::<char>::empty());
                    assert(components("/"@) == crate::paths::finish(seq![]) + crate::paths::scan(
                        seq![],
                        Seq::<char>::empty(),
                    ));
                    assert(components("/"@) =~= Seq::<Seq<char>>::empty());
                    assert(components(system_path@).take(0) =~= Seq::<Seq<char>>::empty());
                }
                match strip_path_prefix(system_path, "/") {
                    Some(rest) => Ok(concat_str("system/", rest.as_str())),
                    None => Err(RootratError::NotAbsolute { path: owned(system_path) }),
                }
            },
        }
    }

    /// The repo path of the system path `system_path` for the current user.
    pub fn derive_repo_path(system_path: &str) -> (r: Result<String, RootratError>)
        ensures
            !is_absolute(system_path@) ==> (r matches Err(RootratError::NotAbsolute { path }) && path@
                == system_path@),
            is_absolute(system_path@) ==> match r {
                Ok(k) => exists|h: Seq<char>| k@ == repo_path_of(system_path@, h),
                Err(e) => e is NoHomeDir,
            },
    {
        if !path_is_absolute(system_path) {
            return Err(RootratError::NotAbsolute { path: owned(system_path) });
        }
        match home_dir() {
            Some(h) => Self::derive_repo_path_with_home(system_path, h.as_str()),
            None => Err(RootratError::NoHomeDir),
        }
    }

    /// How `system_path` is written in the manifest, given the home directory
    /// `home`.
    pub fn to_display_path_with_home(system_path: &str, home: &str) -> (d: String)
        ensures
            d@ == display_path_of(system_path@, home@),
    {
        match strip_path_prefix(system_path, home) {
            Some(rel) => concat_str("~/", rel.as_str()),
            None => owned(system_path),
        }
    }

    /// How `system_path` is written in the manifest for the current user.
    pub fn to_display_path(system_path: &str) -> (r: Result<String, RootratError>)
        ensures
            match r {
                Ok(d) => exists|h: Seq<char>| d@ == display_path_of(system_path@, h),
                Err(e) => e is NoHomeDir,
            },
    {
        match home_dir() {
            Some(h) => Ok(Self::to_display_path_with_home(system_path, h.as_str())),
            None => Err(RootratError::NoHomeDir),
        }
    }

    /// `path` with a leading `~` replaced by the home directory `home`.
    pub fn expand_tilde_with_home(path: &str, home: &str) -> (p: String)
        ensures
            p@ == expand_tilde_of(path@, home@),
    {
        let cs = chars_of(path);
        if cs.len() > 0 && cs[0] == '~' {
            let skip: usize = if cs.len() >= 2 && cs[1] == '/' { 2 } else { 1 };
            let mut rest: Vec<char> = Vec::new();
            let mut i: usize = skip;
            while i < cs.len()
                invariant
                    skip <= i <= cs.len(),
                    rest@ == cs@.subrange(skip as int, i as int),
                decreases cs.len() - i,
            {
                rest.push(cs[i]);
                i = i + 1;
                assert(rest@ =~= cs@.subrange(skip as int, i as int));
            }
            assert(rest@ =~= path@.skip(skip as int));
            let rest_s = string_of(&rest);
            join_path(home, rest_s.as_str())
        } else {
            owned(path)
        }
    }

    /// `path` with a leading `~` replaced by the current user's home
    /// directory; a path without `~` is returned as it is.
    pub fn expand_tilde(path: &str) -> (r: Result<String, RootratError>)
        ensures
            !(path@.len() > 0 && path@[0] == '~') ==> (r matches Ok(p) && p@ == path@),
            match r {
                Ok(p) => exists|h: Seq<char>| p@ == expand_tilde_of(path@, h),
                Err(e) => e is NoHomeDir,
            },
    {
        let cs = chars_of(path);
        if cs.len() > 0 && cs[0] == '~' {
            match home_dir() {
                Some(h) => Ok(Self::expand_tilde_with_home(path, h.as_str())),
                None => Err(RootratError::NoHomeDir),
            }
        } else {
            let p = owned(path);
            assert(p@ == expand_tilde_of(path@, seq![]));
            Ok(p)
        }
    }

    /// Tracks the system path `system_path`, in `directories` when `is_dir`
    /// and in `files` otherwise, under its repo path (with `home` as the home
    /// directory). Returns the repo path. Fails, changing nothing, when
    /// `system_path` is not absolute.
    pub fn add(&mut self, system_path: &str, home: &str, is_dir: bool) -> (r: Result<String, RootratError>)
        ensures
            match r {
                Ok(k) => add_spec(old(self)@, system_path@, home@, is_dir) == Some((final(self)@, k@)),
                Err(e) => add_spec(old(self)@, system_path@, home@, is_dir) is None && final(self)@
                    == old(self)@ && (e matches RootratError::NotAbsolute { path } && path@
                    == system_path@),
            },
    {
        let repo_path = match Self::derive_repo_path_with_home(system_path, home) {
            Ok(k) => k,
            Err(e) => {
                return Err(e);
            },
        };
        let display = Self::to_display_path_with_home(system_path, home);
        let ghost k = repo_path@;
        let key = repo_path.clone();
        if is_dir {
            let _ = self.directories.insert(key, display);
        } else {
            let _ = self.files.insert(key, display);
        }
        assert(final(self)@ == add_spec(old(self)@, system_path@, home@, is_dir).unwrap().0);
        Ok(repo_path)
    }

    /// Stops tracking the system path `system_path` (with `home` as the home
    /// directory): removes its entry from `files`, or else from
    /// `directories`. Returns the repo path that was removed. Fails, changing
    /// nothing, when the path is not absolute or is not tracked.
    pub fn remove(&mut self, system_path: &str, home: &str) -> (r: Result<String, RootratError>)
        ensures
            match r {
                Ok(k) => remove_spec(old(self)@, system_path@, home@) == Some((final(self)@, k@)),
                Err(e) => remove_spec(old(self)@, system_path@, home@) is None && final(self)@
                    == old(self)@ && (if is_absolute(system_path@) {
                    e matches RootratError::NotTracked { path } && path@ == system_path@
                } else {
                    e matches RootratError::NotAbsolute { path } && path@ == system_path@
                }),
            },
    {
        let repo_path = match Self::derive_repo_path_with_home(system_path, home) {
            Ok(k) => k,
            Err(e) => {
                return Err(e);
            },
        };
        if self.files.remove(repo_path.as_str()).is_some() {
            return Ok(repo_path);
        }
        assert(self.files@ =~= old(self).files@);
        if self.directories.remove(repo_path.as_str()).is_some() {
            assert(final(self)@ == remove_spec(old(self)@, system_path@, home@).unwrap().0);
            return Ok(repo_path);
        }
        assert(self.directories@ =~= old(self).directories@);
        assert(final(self)@ == old(self)@);
        Err(RootratError::NotTracked { path: owned(system_path) })
    }
}

/// A system path written as the manifest writes it and read back with `~`
/// expanded against the same home directory names the same place: it has
/// the components it had. So the entry that `add` records leads `status`,
/// `diff`, `apply` and `collect` back to the file that was added. (The text
/// may differ where the path repeats a separator or holds a `.` piece, as
/// with `std::path`.)
pub proof fn display_path_round_trip(p: Seq<char>, home: Seq<char>)
    requires
        is_absolute(p),
    ensures
        components(expand_tilde_of(display_path_of(p, home), home)) == components(p),
{
    match strip_prefix(p, home) {
        Some(rel) => {
            lemma_strip_rest(p, home);
            let cp = components(p);
            let cb = components(home);
            let d = "~/"@ + rel;
            assert(d.len() >= 2 && d[0] == '~' && d[1] == '/') by {
                reveal_strlit("~/");
            }
            assert(d.skip(2) =~= rel) by {
                reveal_strlit("~/");
            }
            assert(display_path_of(p, home) == d);
            assert(expand_tilde_of(d, home) == join(home, d.skip(2)));
            if home.len() > 0 {
                lemma_components_join(home, rel);
                assert(cb + cp.skip(cb.len() as int) =~= cp);
            } else {
                assert(join(home, rel) == rel);
                assert(cp.skip(0) =~= cp);
            }
        },
        None => {
            assert(p[0] != '~');
        },
    }
}

/// Two absolute system paths that get the same repo path name the same
/// place (have the same components): tracked paths never share a copy in
/// the repo.
pub proof fn repo_path_injective(p: Seq<char>, q: Seq<char>, home: Seq<char>)
    requires
        is_absolute(p),
        is_absolute(q),
        repo_path_of(p, home) == repo_path_of(q, home),
    ensures
        components(p) == components(q),
{
    let cp = components(p);
    let cq = components(q);
    let cb = components(home);
    let h = "home/"@;
    let sy = "system/"@;
    assert(h.len() == 5 && h[0] == 'h') by {
        reveal_strlit("home/");
    }
    assert(sy.len() == 7 && sy[0] == 's') by {
        reveal_strlit("system/");
    }
    match (strip_prefix(p, home), strip_prefix(q, home)) {
        (Some(a), Some(b)) => {
            assert((h + a).skip(5) =~= a);
            assert((h + b).skip(5) =~= b);
            lemma_strip_rest(p, home);
            lemma_strip_rest(q, home);
            assert(cp =~= cp.take(cb.len() as int) + cp.skip(cb.len() as int));
            assert(cq =~= cq.take(cb.len() as int) + cq.skip(cb.len() as int));
        },
        (None, None) => {
            let a = trim_tail(skip_empty(p), 0);
            let b = trim_tail(skip_empty(q), 0);
            assert((sy + a).skip(7) =~= a);
            assert((sy + b).skip(7) =~= b);
            lemma_components_after(p, 0);
            lemma_components_after(q, 0);
            lemma_components_trim_tail(skip_empty(p), 0);
            lemma_components_trim_tail(skip_empty(q), 0);
            assert(cp.skip(0) =~= cp);
            assert(cq.skip(0) =~= cq);
        },
        (Some(a), None) => {
            assert((h + a)[0] == 'h');
            assert((sy + trim_tail(skip_empty(q), 0))[0] == 's');
        },
        (None, Some(b)) => {
            assert((h + b)[0] == 'h');
            assert((sy + trim_tail(skip_empty(p), 0))[0] == 's');
        },
    }
}

/// Adding a path that is already tracked changes nothing: a second `add`
/// of the same path gives the same manifest and the same repo path.
pub proof fn add_idempotent(m: ManifestView, p: Seq<char>, home: Seq<char>, is_dir: bool)
    requires
        is_absolute(p),
    ensures
        add_spec(m, p, home, is_dir) matches Some((m1, k)) && add_spec(m1, p, home, is_dir) == Some(
            (m1, k),
        ),
{
    let k = repo_path_of(p, home);
    let v = display_path_of(p, home);
    assert(m.files.insert(k, v).insert(k, v) =~= m.files.insert(k, v));
    assert(m.directories.insert(k, v).insert(k, v) =~= m.directories.insert(k, v));
}

/// Removing a path right after adding it gives back the manifest as it was,
/// when the path's repo path was not tracked before.
pub proof fn remove_undoes_add(m: ManifestView, p: Seq<char>, home: Seq<char>, is_dir: bool)
    requires
        is_absolute(p),
        !m.files.contains_key(repo_path_of(p, home)),
        !m.directories.contains_key(repo_path_of(p, home)),
    ensures
        add_spec(m, p, home, is_dir) matches Some((m1, k)) && remove_spec(m1, p, home) == Some((m, k)),
{
    let k = repo_path_of(p, home);
    let v = display_path_of(p, home);
    assert(m.files.insert(k, v).remove(k) =~= m.files);
    assert(m.directories.insert(k, v).remove(k) =~= m.directories);
}

} // verus!
