//! Line differences between the repo's copies and the system's files.
use vstd::prelude::*;
use vstd::utf8::{decode_utf8, valid_utf8};
use crate::commands::{
    dir_bases, fault_of, file_pair, file_pair_paths, lemma_flatten_alt_split, member_pair,
    member_paths, Fault, FilePair,
};
use crate::commands::status::dir_members;
use crate::error::RootratError;
use crate::fsview::{str_equal, FsView, Probe};
use crate::manifest::{expand_tilde_of, Manifest};
use crate::path_set::PathSet;
use crate::paths::join;
use crate::text::{concat_str, push_str};

verus! {

/// The kind of a line in a line diff.
#[derive(PartialEq, Eq, Structural, Debug, Clone, Copy)]
pub enum ChangeKind {
    /// The line is on both sides.
    Equal,
    /// The line is only in the old text.
    Delete,
    /// The line is only in the new text.
    Insert,
}

/// One line of a line diff, with its line ending.
#[derive(Debug)]
pub struct LineChange {
    pub kind: ChangeKind,
    pub text: String,
}

/// The content of one line of a line diff.
pub struct LineChangeView {
    pub kind: ChangeKind,
    pub text: Seq<char>,
}

/// The contents of a list of diff lines.
pub open spec fn line_views(cs: Seq<LineChange>) -> Seq<LineChangeView> {
    cs.map_values(|c: LineChange| LineChangeView { kind: c.kind, text: c.text@ })
}

/// The line diff that the `similar` crate computes from `old` to `new`.
pub uninterp spec fn line_diff(old: Seq<char>, new: Seq<char>) -> Seq<LineChangeView>;

/// The lines of the old side, in order: all but the inserted ones.
pub open spec fn old_side(cs: Seq<LineChangeView>) -> Seq<char>
    decreases cs.len(),
{
    if cs.len() == 0 {
        Seq::empty()
    } else if cs.last().kind == ChangeKind::Insert {
        old_side(cs.drop_last())
    } else {
        old_side(cs.drop_last()) + cs.last().text
    }
}

/// The lines of the new side, in order: all but the deleted ones.
pub open spec fn new_side(cs: Seq<LineChangeView>) -> Seq<char>
    decreases cs.len(),
{
    if cs.len() == 0 {
        Seq::empty()
    } else if cs.last().kind == ChangeKind::Delete {
        new_side(cs.drop_last())
    } else {
        new_side(cs.drop_last()) + cs.last().text
    }
}

/// The line diff of `old` and `new` (`similar::TextDiff::from_lines` and
/// `iter_all_changes`): every line of both texts, each marked as kept,
/// deleted or inserted. Which lines are matched up is the crate's choice and
/// is named, not stated; what is stated is that the kept and deleted lines
/// make up `old`, and the kept and inserted lines make up `new`.
#[verifier::external_body]
fn diff_lines(old: &str, new: &str) -> (r: Vec<LineChange>)
    ensures
        line_views(r@) == line_diff(old@, new@),
        old_side(line_views(r@)) == old@,
        new_side(line_views(r@)) == new@,
{
    let diff = similar::TextDiff::from_lines(old, new);
    let mut out = Vec::new();
    for change in diff.iter_all_changes() {
        let kind = match change.tag() {
            similar::ChangeTag::Equal => ChangeKind::Equal,
            similar::ChangeTag::Delete => ChangeKind::Delete,
            similar::ChangeTag::Insert => ChangeKind::Insert,
        };
        out.push(LineChange { kind, text: change.value().to_string() });
    }
    out
}

/// The text that bytes encode (`String::from_utf8`): `None` exactly when
/// they are not valid UTF-8.
#[verifier::external_body]
pub(crate) fn text_of(bytes: &Vec<u8>) -> (r: Option<String>)
    ensures
        r is Some == valid_utf8(bytes@),
        r matches Some(s) ==> s@ == decode_utf8(bytes@),
{
    String::from_utf8(bytes.clone()).ok()
}

/// The marker in front of a line of a shown diff.
pub open spec fn marker(k: ChangeKind) -> Seq<char> {
    match k {
        ChangeKind::Delete => "- "@,
        ChangeKind::Insert => "+ "@,
        ChangeKind::Equal => "  "@,
    }
}

/// A line diff as shown: each line behind its marker.
pub open spec fn render(cs: Seq<LineChangeView>) -> Seq<char>
    decreases cs.len(),
{
    if cs.len() == 0 {
        Seq::empty()
    } else {
        render(cs.drop_last()) + marker(cs.last().kind) + cs.last().text
    }
}

/// Showing two runs of changes one after the other shows the first, then
/// the second: how a line is shown does not depend on its neighbours.
pub proof fn render_concat(a: Seq<LineChangeView>, b: Seq<LineChangeView>)
    ensures
        render(a + b) == render(a) + render(b),
    decreases b.len(),
{
    if b.len() == 0 {
        assert(a + b =~= a);
        assert(render(a) + render(b) =~= render(a));
    } else {
        render_concat(a, b.drop_last());
        assert((a + b).drop_last() =~= a + b.drop_last());
        assert((a + b).last() == b.last());
        let m = marker(b.last().kind);
        assert(render(a) + render(b.drop_last()) + m + b.last().text =~= render(a) + (render(
            b.drop_last(),
        ) + m + b.last().text));
    }
}

/// One change is shown as the marker of its own kind followed by its text:
/// `- ` for a deleted line, `+ ` for an inserted one, two spaces for an
/// unchanged one.
pub proof fn render_line(c: LineChangeView)
    ensures
        render(seq![c]) == (match c.kind {
            ChangeKind::Delete => "- "@,
            ChangeKind::Insert => "+ "@,
            ChangeKind::Equal => "  "@,
        }) + c.text,
{
    let one = seq![c];
    assert(one.drop_last() =~= Seq::<LineChangeView>::empty());
    assert(render(one.drop_last()) == Seq::<char>::empty());
    assert(one.last() == c);
    assert(render(one) == render(one.drop_last()) + marker(c.kind) + c.text);
    assert(Seq::<char>::empty() + marker(c.kind) + c.text =~= marker(c.kind) + c.text);
}

/// Shows a line diff: each line behind its marker, `- ` for a line only on
/// the old side, `+ ` for a line only on the new side, two spaces for a line
/// on both.
pub fn render_changes(changes: &Vec<LineChange>) -> (out: String)
    ensures
        out@ == render(line_views(changes@)),
{
    let ghost cs = line_views(changes@);
    let mut out = String::new();
    let mut i: usize = 0;
    while i < changes.len()
        invariant
            i <= changes.len(),
            cs == line_views(changes@),
            out@ == render(cs.take(i as int)),
        decreases changes.len() - i,
    {
        let c = &changes[i];
        let m = match c.kind {
            ChangeKind::Delete => "- ",
            ChangeKind::Insert => "+ ",
            ChangeKind::Equal => "  ",
        };
        push_str(&mut out, m);
        push_str(&mut out, c.text.as_str());
        assert(cs.take(i + 1).drop_last() =~= cs.take(i as int));
        assert(cs[i as int] == LineChangeView { kind: c.kind, text: c.text@ });
        i = i + 1;
    }
    assert(cs.take(changes.len() as int) =~= cs);
    out
}

/// Shows the line diff from `repo_content` to `system_content`, each line
/// behind its marker: `- ` for a line only in the repo, `+ ` for a line only
/// on the system, two spaces for a line on both.
pub fn format_diff(repo_content: &str, system_content: &str) -> (out: String)
    ensures
        out@ == render(line_diff(repo_content@, system_content@)),
{
    let changes = diff_lines(repo_content, system_content);
    render_changes(&changes)
}

/// A shown difference for one file.
#[derive(Debug)]
pub struct DiffEntry {
    pub system_path: String,
    pub diff: String,
}

/// The content of a shown difference.
pub struct DiffEntryView {
    pub system_path: Seq<char>,
    pub diff: Seq<char>,
}

impl View for DiffEntry {
    type V = DiffEntryView;

    open spec fn view(&self) -> DiffEntryView {
        DiffEntryView { system_path: self.system_path@, diff: self.diff@ }
    }
}

/// The entries of a list of shown differences.
pub open spec fn diff_views(es: Seq<DiffEntry>) -> Seq<DiffEntryView> {
    es.map_values(|e: DiffEntry| e@)
}

/// The shown values of a sequence of steps, each of which shows one value
/// or none: all of them, or the fault of the first step that failed.
pub open spec fn collect_shown<T>(s: Seq<Result<Option<T>, Fault>>) -> Result<Seq<T>, Fault>
    decreases s.len(),
{
    if s.len() == 0 {
        Ok(Seq::empty())
    } else {
        match collect_shown(s.drop_last()) {
            Err(f) => Err(f),
            Ok(v) => match s.last() {
                Ok(Some(x)) => Ok(v.push(x)),
                Ok(None) => Ok(v),
                Err(f) => Err(f),
            },
        }
    }
}

proof fn lemma_shown_push<T>(a: Seq<Result<Option<T>, Fault>>, r: Result<Option<T>, Fault>)
    ensures
        collect_shown(a.push(r)) == match collect_shown(a) {
            Err(f) => Err(f),
            Ok(v) => match r {
                Ok(Some(x)) => Ok(v.push(x)),
                Ok(None) => Ok(v),
                Err(f) => Err(f),
            },
        },
{
    assert(a.push(r).drop_last() =~= a);
}

proof fn lemma_shown_err_extends<T>(a: Seq<Result<Option<T>, Fault>>, b: Seq<Result<Option<T>, Fault>>)
    requires
        collect_shown(a) is Err,
    ensures
        collect_shown(a + b) == collect_shown(a),
    decreases b.len(),
{
    if b.len() == 0 {
        assert(a + b =~= a);
    } else {
        lemma_shown_err_extends(a, b.drop_last());
        assert((a + b).drop_last() =~= a + b.drop_last());
    }
}

/// The text of the path `p`: `None` when it does not exist; a fault when it
/// cannot be read or is not UTF-8.
pub open spec fn text_probe(fs: &FsView, p: Seq<char>) -> Option<Result<Seq<char>, Fault>> {
    match fs.probe(p) {
        Probe::Absent => None,
        Probe::Unreadable => Some(Err(Fault::Unreadable(p))),
        Probe::Content(b) => Some(
            if valid_utf8(b) {
                Ok(decode_utf8(b))
            } else {
                Err(Fault::NotText(p))
            },
        ),
    }
}

/// The note shown for a file that the repo lacks.
pub open spec fn missing_from_repo_note(repo_display: Seq<char>) -> Seq<char> {
    "  [missing from repo: "@ + repo_display + "]"@
}

/// The note shown for a file that the system lacks.
pub open spec fn missing_from_system_note(display: Seq<char>) -> Seq<char> {
    "  [missing from system: "@ + display + "]"@
}

/// What is shown for `pair` (with `repo_display` as the repo path shown):
/// nothing when a filter is given and names another path; a note when
/// either side lacks the file; nothing when both texts are equal; otherwise
/// their line diff. Reading the repo copy comes first; a file that cannot be
/// read as text stops the listing.
pub open spec fn diff_step(fs: &FsView, pair: FilePair, repo_display: Seq<char>, filter: Option<Seq<char>>) -> Result<
    Option<DiffEntryView>,
    Fault,
> {
    if filter matches Some(f) && pair.display != f {
        Ok(None)
    } else if fs.probe(pair.repo_file) is Absent {
        Ok(Some(DiffEntryView { system_path: pair.display, diff: missing_from_repo_note(repo_display) }))
    } else if fs.probe(pair.system_file) is Absent {
        Ok(Some(DiffEntryView { system_path: pair.display, diff: missing_from_system_note(pair.display) }))
    } else {
        match text_probe(fs, pair.repo_file) {
            Some(Err(f)) => Err(f),
            Some(Ok(a)) => match text_probe(fs, pair.system_file) {
                Some(Err(f)) => Err(f),
                Some(Ok(b)) => if a == b {
                    Ok(None)
                } else {
                    Ok(Some(DiffEntryView { system_path: pair.display, diff: render(line_diff(a, b)) }))
                },
                None => Ok(None),
            },
            None => Ok(None),
        }
    }
}

/// The filter as text.
pub open spec fn filter_view(filter: Option<&str>) -> Option<Seq<char>> {
    match filter {
        Some(f) => Some(f@),
        None => None,
    }
}

/// The steps for a tracked directory with repo path `k` and system path `v`:
/// one per file on either side, in path order.
pub open spec fn diff_dir_steps(
    repo_dir: Seq<char>,
    home: Seq<char>,
    fs: &FsView,
    k: Seq<char>,
    v: Seq<char>,
    filter: Option<Seq<char>>,
) -> Seq<Result<Option<DiffEntryView>, Fault>> {
    dir_members(repo_dir, home, fs, k, v).map_values(
        |rel: Seq<char>|
            diff_step(fs, member_pair(repo_dir, home, k, v, rel), k + "/"@ + rel, filter),
    )
}

/// All steps: the tracked files in key order, then the tracked directories
/// in key order.
pub open spec fn diff_steps(
    repo_dir: Seq<char>,
    home: Seq<char>,
    m: &Manifest,
    fs: &FsView,
    filter: Option<Seq<char>>,
) -> Seq<Result<Option<DiffEntryView>, Fault>> {
    m.files.pairs().map_values(
        |kv: (Seq<char>, Seq<char>)| diff_step(fs, file_pair(repo_dir, home, kv.0, kv.1), kv.0, filter),
    ) + m.directories.pairs().map_values(
        |kv: (Seq<char>, Seq<char>)| diff_dir_steps(repo_dir, home, fs, kv.0, kv.1, filter),
    ).flatten_alt()
}

fn read_text(fs: &FsView, i: usize, path: &String) -> (r: Result<String, RootratError>)
    requires
        i < fs.files@.len(),
        fs.probe(path@) == match fs.files@[i as int].content {
            Some(c) => Probe::Content(c@),
            None => Probe::Unreadable,
        },
    ensures
        match r {
            Ok(s) => text_probe(fs, path@) == Some(Ok::<Seq<char>, Fault>(s@)),
            Err(e) => text_probe(fs, path@) == Some(Err::<Seq<char>, Fault>(fault_of(e))),
        },
{
    match &fs.files[i].content {
        None => Err(RootratError::Unreadable { path: path.clone() }),
        Some(b) => match text_of(b) {
            Some(s) => Ok(s),
            None => Err(RootratError::NotText { path: path.clone() }),
        },
    }
}

fn diff_file(
    fs: &FsView,
    repo_file: String,
    system_file: String,
    display: String,
    repo_display: String,
    filter: Option<&str>,
) -> (r: Result<Option<DiffEntry>, RootratError>)
    ensures
        match r {
            Ok(Some(e)) => diff_step(
                fs,
                FilePair { display: display@, repo_file: repo_file@, system_file: system_file@ },
                repo_display@,
                filter_view(filter),
            ) == Ok::<Option<DiffEntryView>, Fault>(Some(e@)),
            Ok(None) => diff_step(
                fs,
                FilePair { display: display@, repo_file: repo_file@, system_file: system_file@ },
                repo_display@,
                filter_view(filter),
            ) == Ok::<Option<DiffEntryView>, Fault>(None),
            Err(e) => diff_step(
                fs,
                FilePair { display: display@, repo_file: repo_file@, system_file: system_file@ },
                repo_display@,
                filter_view(filter),
            ) == Err::<Option<DiffEntryView>, Fault>(fault_of(e)),
        },
{
    if let Some(f) = filter {
        if !str_equal(display.as_str(), f) {
            return Ok(None);
        }
    }
    let ri = match fs.find_file(repo_file.as_str()) {
        None => {
            let a = concat_str("  [missing from repo: ", repo_display.as_str());
            let note = concat_str(a.as_str(), "]");
            return Ok(Some(DiffEntry { system_path: display, diff: note }));
        },
        Some(ri) => ri,
    };
    let si = match fs.find_file(system_file.as_str()) {
        None => {
            let a = concat_str("  [missing from system: ", display.as_str());
            let note = concat_str(a.as_str(), "]");
            return Ok(Some(DiffEntry { system_path: display, diff: note }));
        },
        Some(si) => si,
    };
    let repo_text = read_text(fs, ri, &repo_file)?;
    let system_text = read_text(fs, si, &system_file)?;
    if str_equal(repo_text.as_str(), system_text.as_str()) {
        return Ok(None);
    }
    let diff = format_diff(repo_text.as_str(), system_text.as_str());
    Ok(Some(DiffEntry { system_path: display, diff }))
}

/// Shows the differences between the repo's copies and the system's files:
/// the tracked files in key order, then the files of each tracked directory
/// in key order, each file found on either side once, in path order. Files
/// that are equal on both sides are left out. With a `filter`, only the file
/// shown under that system path is considered. `home` is the home
/// directory; `fs` is what the filesystem holds.
pub fn execute(repo_dir: &str, manifest: &Manifest, home: &str, fs: &FsView, filter: Option<&str>) -> (r: Result<
    Vec<DiffEntry>,
    RootratError,
>)
    ensures
        match r {
            Ok(es) => collect_shown(diff_steps(repo_dir@, home@, manifest, fs, filter_view(filter)))
                == Ok::<Seq<DiffEntryView>, Fault>(diff_views(es@)),
            Err(e) => collect_shown(diff_steps(repo_dir@, home@, manifest, fs, filter_view(filter)))
                == Err::<Seq<DiffEntryView>, Fault>(fault_of(e)),
        },
{
    let ghost fv = filter_view(filter);
    let ghost file_steps = manifest.files.pairs().map_values(
        |kv: (Seq<char>, Seq<char>)| diff_step(fs, file_pair(repo_dir@, home@, kv.0, kv.1), kv.0, fv),
    );
    let ghost dir_steps = manifest.directories.pairs().map_values(
        |kv: (Seq<char>, Seq<char>)| diff_dir_steps(repo_dir@, home@, fs, kv.0, kv.1, fv),
    );
    let ghost all = file_steps + dir_steps.flatten_alt();
    assert(diff_steps(repo_dir@, home@, manifest, fs, fv) == all);
    let mut out: Vec<DiffEntry> = Vec::new();
    let n = manifest.files.len();
    let mut i: usize = 0;
    assert(file_steps.take(0) =~= Seq::<Result<Option<DiffEntryView>, Fault>>::empty());
    assert(diff_views(out@) =~= Seq::<DiffEntryView>::empty());
    while i < n
        invariant
            i <= n == manifest.files.pairs().len(),
            fv == filter_view(filter),
            file_steps.len() == n,
            file_steps == manifest.files.pairs().map_values(
                |kv: (Seq<char>, Seq<char>)| diff_step(fs, file_pair(repo_dir@, home@, kv.0, kv.1), kv.0, fv),
            ),
            all == file_steps + dir_steps.flatten_alt(),
            diff_steps(repo_dir@, home@, manifest, fs, fv) == all,
            collect_shown(file_steps.take(i as int)) == Ok::<Seq<DiffEntryView>, Fault>(
                diff_views(out@),
            ),
        decreases n - i,
    {
        let k = manifest.files.key_at(i);
        let v = manifest.files.value_at(i);
        let (repo_file, system_file) = file_pair_paths(repo_dir, home, k.as_str(), v.as_str());
        let step = diff_file(fs, repo_file, system_file, v.clone(), k.clone(), filter);
        proof {
            assert(file_steps[i as int] == diff_step(fs, file_pair(repo_dir@, home@, k@, v@), k@, fv));
            assert(file_steps.take(i + 1) =~= file_steps.take(i as int).push(file_steps[i as int]));
            lemma_shown_push(file_steps.take(i as int), file_steps[i as int]);
        }
        let ghost old_views = diff_views(out@);
        match step {
            Ok(Some(e)) => {
                out.push(e);
                assert(diff_views(out@) =~= old_views.push(out@.last()@));
            },
            Ok(None) => {},
            Err(e) => {
                proof {
                    lemma_shown_err_extends(file_steps.take(i + 1), file_steps.skip(i + 1) + dir_steps.flatten_alt());
                    assert(file_steps.take(i + 1) + file_steps.skip(i + 1) =~= file_steps);
                    assert(file_steps.take(i + 1) + (file_steps.skip(i + 1) + dir_steps.flatten_alt()) =~= all);
                }
                return Err(e);
            },
        }
        i = i + 1;
    }
    assert(file_steps.take(n as int) =~= file_steps);
    let nd = manifest.directories.len();
    let mut j: usize = 0;
    assert(dir_steps.take(0).flatten_alt() =~= Seq::<Result<Option<DiffEntryView>, Fault>>::empty());
    assert(file_steps + dir_steps.take(0).flatten_alt() =~= file_steps);
    while j < nd
        invariant
            j <= nd == manifest.directories.pairs().len(),
            fv == filter_view(filter),
            dir_steps.len() == nd,
            dir_steps == manifest.directories.pairs().map_values(
                |kv: (Seq<char>, Seq<char>)| diff_dir_steps(repo_dir@, home@, fs, kv.0, kv.1, fv),
            ),
            all == file_steps + dir_steps.flatten_alt(),
            diff_steps(repo_dir@, home@, manifest, fs, fv) == all,
            collect_shown(file_steps + dir_steps.take(j as int).flatten_alt()) == Ok::<
                Seq<DiffEntryView>,
                Fault,
            >(diff_views(out@)),
        decreases nd - j,
    {
        let k = manifest.directories.key_at(j);
        let v = manifest.directories.value_at(j);
        let ghost before = file_steps + dir_steps.take(j as int).flatten_alt();
        assert(dir_steps.take(j + 1).drop_last() =~= dir_steps.take(j as int));
        assert(dir_steps.take(j + 1).flatten_alt() == dir_steps.take(j as int).flatten_alt()
            + dir_steps[j as int]);
        let r = diff_directory(repo_dir, home, fs, k.as_str(), v.as_str(), filter, &mut out, Ghost(before));
        match r {
            Ok(()) => {
                assert(file_steps + dir_steps.take(j + 1).flatten_alt() =~= before + dir_steps[j as int]);
            },
            Err(e) => {
                proof {
                    let rest = dir_steps.skip(j + 1).flatten_alt();
                    lemma_shown_err_extends(before + dir_steps[j as int], rest);
                    lemma_flatten_alt_split(dir_steps, j + 1);
                    assert(dir_steps.take(j + 1).flatten_alt() + rest == dir_steps.flatten_alt());
                    assert(before + dir_steps[j as int] + rest =~= all);
                }
                return Err(e);
            },
        }
        j = j + 1;
    }
    assert(dir_steps.take(nd as int) =~= dir_steps);
    Ok(out)
}

fn diff_directory(
    repo_dir: &str,
    home: &str,
    fs: &FsView,
    k: &str,
    v: &str,
    filter: Option<&str>,
    out: &mut Vec<DiffEntry>,
    Ghost(before): Ghost<Seq<Result<Option<DiffEntryView>, Fault>>>,
) -> (r: Result<(), RootratError>)
    requires
        collect_shown(before) == Ok::<Seq<DiffEntryView>, Fault>(diff_views(old(out)@)),
    ensures
        match r {
            Ok(()) => collect_shown(before + diff_dir_steps(repo_dir@, home@, fs, k@, v@, filter_view(filter)))
                == Ok::<Seq<DiffEntryView>, Fault>(diff_views(final(out)@)),
            Err(e) => collect_shown(before + diff_dir_steps(repo_dir@, home@, fs, k@, v@, filter_view(filter)))
                == Err::<Seq<DiffEntryView>, Fault>(fault_of(e)),
        },
{
    let (repo_base, system_base) = dir_bases(repo_dir, home, k, v);
    let empty = PathSet::new();
    let repo_files: &PathSet = match fs.find_dir(repo_base.as_str()) {
        Some(di) => &fs.dirs[di].files,
        None => &empty,
    };
    let system_files: &PathSet = match fs.find_dir(system_base.as_str()) {
        Some(di) => &fs.dirs[di].files,
        None => &empty,
    };
    let members = repo_files.union(system_files);
    let ghost fv = filter_view(filter);
    let ghost steps = diff_dir_steps(repo_dir@, home@, fs, k@, v@, fv);
    assert(members@ == dir_members(repo_dir@, home@, fs, k@, v@));
    let mut i: usize = 0;
    assert(before + steps.take(0) =~= before);
    while i < members.len()
        invariant
            i <= members@.len() == steps.len(),
            fv == filter_view(filter),
            members@ == dir_members(repo_dir@, home@, fs, k@, v@),
            steps == diff_dir_steps(repo_dir@, home@, fs, k@, v@, fv),
            repo_base@ == join(repo_dir@, k@),
            system_base@ == expand_tilde_of(v@, home@),
            collect_shown(before + steps.take(i as int)) == Ok::<Seq<DiffEntryView>, Fault>(
                diff_views(out@),
            ),
        decreases members@.len() - i,
    {
        let rel = members.at(i);
        let (display, repo_file, system_file) = member_paths(
            repo_base.as_str(),
            system_base.as_str(),
            v,
            rel.as_str(),
        );
        let shown_k = concat_str(k, "/");
        let repo_display = concat_str(shown_k.as_str(), rel.as_str());
        let step = diff_file(fs, repo_file, system_file, display, repo_display, filter);
        proof {
            assert(steps[i as int] == diff_step(fs, member_pair(repo_dir@, home@, k@, v@, rel@), k@ + "/"@ + rel@, fv));
            assert(before + steps.take(i + 1) =~= (before + steps.take(i as int)).push(steps[i as int]));
            lemma_shown_push(before + steps.take(i as int), steps[i as int]);
        }
        let ghost old_views = diff_views(out@);
        match step {
            Ok(Some(e)) => {
                out.push(e);
                assert(diff_views(out@) =~= old_views.push(out@.last()@));
            },
            Ok(None) => {},
            Err(e) => {
                proof {
                    lemma_shown_err_extends(before + steps.take(i + 1), steps.skip(i + 1));
                    assert(steps.take(i + 1) + steps.skip(i + 1) =~= steps);
                    assert(before + steps.take(i + 1) + steps.skip(i + 1) =~= before + steps);
                }
                return Err(e);
            },
        }
        i = i + 1;
    }
    assert(steps.take(steps.len() as int) =~= steps);
    Ok(())
}

} // verus!
