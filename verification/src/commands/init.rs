//! Setting up the repo: where it is, and where a clone of it goes.
use vstd::prelude::*;
use crate::error::RootratError;
use crate::manifest::{display_path_of, owned, Manifest, ManifestView};
use crate::paths::join_path;
use crate::text::{chars_of, concat_str, string_of};

verus! {

/// Records `repo_dir` as the manifest's repo directory, written as the
/// manifest writes system paths (`~/...` inside the home directory `home`).
/// `exists` tells whether the directory exists; when it does not, nothing
/// changes and the directory is reported missing.
pub fn execute(repo_dir: &str, exists: bool, home: &str, manifest: &mut Manifest) -> (r: Result<(), RootratError>)
    ensures
        exists ==> r is Ok && final(manifest)@ == (ManifestView {
            repo: Some(display_path_of(repo_dir@, home@)),
            ..old(manifest)@
        }),
        !exists ==> final(manifest)@ == old(manifest)@ && (r matches Err(
            RootratError::DirectoryMissing { path },
        ) && path@ == repo_dir@),
{
    if !exists {
        return Err(RootratError::DirectoryMissing { path: owned(repo_dir) });
    }
    manifest.repo = Some(Manifest::to_display_path_with_home(repo_dir, home));
    Ok(())
}

/// Whether a clone source is used as written: a local path (starting with
/// `/`, `.` or `~`), or a source with a `:` before its first `/` (a URL with
/// a scheme, or `user@host:path`).
pub open spec fn keeps_url(url: Seq<char>) -> bool {
    ||| (url.len() > 0 && (url[0] == '/' || url[0] == '.' || url[0] == '~'))
    ||| exists|i: int| 0 <= i < url.len() && url[i] == ':' && forall|j: int| 0 <= j < i ==> url[j] != '/'
}

/// The clone source for `url`: a bare `host/path` gets `https://` in front;
/// anything else is kept.
pub open spec fn normalized_url(url: Seq<char>) -> Seq<char> {
    if keeps_url(url) {
        url
    } else {
        "https://"@ + url
    }
}

/// Normalizing a clone source twice gives what normalizing it once gave:
/// a source that got `https://` in front is then kept as it is.
pub proof fn normalize_url_idempotent(url: Seq<char>)
    ensures
        normalized_url(normalized_url(url)) == normalized_url(url),
{
    if !keeps_url(url) {
        let n = "https://"@ + url;
        assert(n.len() > 5 && n[5] == ':' && forall|j: int| 0 <= j < 5 ==> n[j] != '/') by {
            reveal_strlit("https://");
        }
        assert(keeps_url(n));
    }
}

/// The clone source for `url` (see [`normalized_url`]).
pub fn normalize_url(url: &str) -> (r: String)
    ensures
        r@ == normalized_url(url@),
{
    let cs = chars_of(url);
    if cs.len() > 0 && (cs[0] == '/' || cs[0] == '.' || cs[0] == '~') {
        return owned(url);
    }
    let mut i: usize = 0;
    while i < cs.len() && cs[i] != '/'
        invariant
            i <= cs.len(),
            cs@ == url@,
            forall|j: int| 0 <= j < i ==> cs@[j] != '/' && cs@[j] != ':',
        decreases cs.len() - i,
    {
        if cs[i] == ':' {
            assert(keeps_url(url@));
            return owned(url);
        }
        i = i + 1;
    }
    assert(!keeps_url(url@)) by {
        if exists|k: int| 0 <= k < url@.len() && url@[k] == ':' && forall|j: int| 0 <= j < k ==> url@[j] != '/' {
            let k = choose|k: int| 0 <= k < url@.len() && url@[k] == ':' && forall|j: int| 0 <= j < k ==> url@[j] != '/';
            if k >= i {
                assert(url@[i as int] == '/');
            }
        }
    }
    concat_str("https://", url)
}

/// The last piece of `s` after its last `/` or `:`.
pub open spec fn last_piece(s: Seq<char>) -> Seq<char>
    decreases s.len(),
{
    if s.len() == 0 {
        s
    } else if s.last() == '/' || s.last() == ':' {
        Seq::empty()
    } else {
        last_piece(s.drop_last()).push(s.last())
    }
}

/// `s` without the `/` characters it ends with.
pub open spec fn trim_trailing_slashes(s: Seq<char>) -> Seq<char>
    decreases s.len(),
{
    if s.len() > 0 && s.last() == '/' {
        trim_trailing_slashes(s.drop_last())
    } else {
        s
    }
}

/// The directory name that a clone of `url` gets: the last piece of the
/// source, without trailing `/` and without a `.git` ending when something
/// is left before it.
pub open spec fn clone_name_of(url: Seq<char>) -> Seq<char> {
    let piece = last_piece(trim_trailing_slashes(url));
    if piece.len() > 4 && piece.skip(piece.len() - 4) == ".git"@ {
        piece.take(piece.len() - 4)
    } else {
        piece
    }
}

/// The directory name that a clone of `url` gets (see [`clone_name_of`]).
pub fn clone_name(url: &str) -> (r: String)
    ensures
        r@ == clone_name_of(url@),
{
    let cs = chars_of(url);
    let mut end: usize = cs.len();
    assert(cs@.take(cs.len() as int) =~= cs@);
    while end > 0 && cs[end - 1] == '/'
        invariant
            end <= cs.len(),
            trim_trailing_slashes(cs@) == trim_trailing_slashes(cs@.take(end as int)),
        decreases end,
    {
        assert(cs@.take(end as int).drop_last() =~= cs@.take(end - 1));
        end = end - 1;
    }
    let ghost trimmed = cs@.take(end as int);
    assert(trim_trailing_slashes(trimmed) == trimmed);
    let mut start: usize = end;
    while start > 0 && cs[start - 1] != '/' && cs[start - 1] != ':'
        invariant
            start <= end <= cs.len(),
            trimmed == cs@.take(end as int),
            last_piece(trimmed) == last_piece(cs@.take(start as int)) + cs@.subrange(start as int, end as int),
        decreases start,
    {
        assert(cs@.take(start as int).drop_last() =~= cs@.take(start - 1));
        assert(cs@.subrange(start - 1, end as int) =~= seq![cs@[start - 1]] + cs@.subrange(start as int, end as int));
        assert(last_piece(cs@.take(start as int)) =~= last_piece(cs@.take(start - 1)).push(cs@[start - 1]));
        start = start - 1;
    }
    assert(last_piece(cs@.take(start as int)) =~= Seq::<char>::empty()) by {
        if start > 0 {
            assert(cs@.take(start as int).last() == cs@[start - 1]);
        }
    }
    let ghost piece = cs@.subrange(start as int, end as int);
    assert(last_piece(trimmed) =~= piece);
    let mut stop = end;
    let n = end - start;
    if n > 4 && cs[end - 4] == '.' && cs[end - 3] == 'g' && cs[end - 2] == 'i' && cs[end - 1] == 't' {
        stop = end - 4;
    }
    proof {
        let suffix = piece.skip(piece.len() - 4);
        if n > 4 {
            assert(".git"@ =~= seq!['.', 'g', 'i', 't']) by {
                reveal_strlit(".git");
            }
            if suffix == ".git"@ {
                assert(suffix[0] == cs@[end - 4] && suffix[1] == cs@[end - 3]);
                assert(suffix[2] == cs@[end - 2] && suffix[3] == cs@[end - 1]);
            }
            if stop == end - 4 {
                assert(suffix =~= seq!['.', 'g', 'i', 't']);
            }
        }
    }
    let mut out: Vec<char> = Vec::new();
    let mut i = start;
    while i < stop
        invariant
            start <= i <= stop <= end <= cs.len(),
            out@ == cs@.subrange(start as int, i as int),
        decreases stop - i,
    {
        out.push(cs[i]);
        i = i + 1;
        assert(out@ =~= cs@.subrange(start as int, i as int));
    }
    assert(out@ =~= clone_name_of(url@));
    string_of(&out)
}

/// Where a clone of `url` goes inside the directory `dir`.
pub fn clone_target(url: &str, dir: &str) -> (r: String)
    ensures
        r@ == crate::paths::join(dir@, clone_name_of(url@)),
{
    let name = clone_name(url);
    join_path(dir, name.as_str())
}

} // verus!
