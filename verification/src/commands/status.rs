//! The state of each tracked file.
use vstd::prelude::*;
use crate::commands::{
    collect_results, dir_bases, fault_of, file_pair, file_pair_paths, lemma_collect_err_extends, lemma_collect_ok,
    lemma_collect_push, lemma_flatten_alt_index, lemma_flatten_alt_len, lemma_flatten_alt_split, member_pair,
    member_paths, total_len, Fault, FilePair,
};
use crate::error::RootratError;
use crate::fsview::{bytes_equal, FsView, Probe};
use crate::manifest::{expand_tilde_of, Manifest};
use crate::path_set::{in_path_order, PathSet};
use crate::paths::join;

verus! {

/// How a tracked file stands.
#[derive(PartialEq, Eq, Structural, Debug, Clone, Copy)]
pub enum FileState {
    /// The same on both sides.
    Unchanged,
    /// Different on the two sides.
    Modified,
    /// In the repo but not on the system.
    MissingFromSystem,
    /// Not in the repo.
    MissingFromRepo,
}

/// The state of one tracked file, under its shown system path.
#[derive(Debug)]
pub struct StatusEntry {
    pub system_path: String,
    pub state: FileState,
}

/// The content of a status entry.
pub struct StatusEntryView {
    pub system_path: Seq<char>,
    pub state: FileState,
}

impl View for StatusEntry {
    type V = StatusEntryView;

    open spec fn view(&self) -> StatusEntryView {
        StatusEntryView { system_path: self.system_path@, state: self.state }
    }
}

/// The entries of a list of status entries.
pub open spec fn status_views(es: Seq<StatusEntry>) -> Seq<StatusEntryView> {
    es.map_values(|e: StatusEntry| e@)
}

/// How `pair` stands: missing from the repo if the repo has no copy; else
/// missing from the system if the system has no file; else unchanged or
/// modified by content. A file that cannot be read stops the listing.
pub open spec fn status_step(fs: &FsView, pair: FilePair) -> Result<StatusEntryView, Fault> {
    match fs.probe(pair.repo_file) {
        Probe::Absent => Ok(StatusEntryView { system_path: pair.display, state: FileState::MissingFromRepo }),
        Probe::Unreadable => match fs.probe(pair.system_file) {
            Probe::Absent => Ok(
                StatusEntryView { system_path: pair.display, state: FileState::MissingFromSystem },
            ),
            _ => Err(Fault::Unreadable(pair.repo_file)),
        },
        Probe::Content(a) => match fs.probe(pair.system_file) {
            Probe::Absent => Ok(
                StatusEntryView { system_path: pair.display, state: FileState::MissingFromSystem },
            ),
            Probe::Unreadable => Err(Fault::Unreadable(pair.system_file)),
            Probe::Content(b) => Ok(
                StatusEntryView {
                    system_path: pair.display,
                    state: if a == b {
                        FileState::Unchanged
                    } else {
                        FileState::Modified
                    },
                },
            ),
        },
    }
}

/// The files of a tracked directory with repo path `k` and system path `v`:
/// those on either side, each once, in path order.
pub open spec fn dir_members(repo_dir: Seq<char>, home: Seq<char>, fs: &FsView, k: Seq<char>, v: Seq<char>) -> Seq<Seq<char>> {
    in_path_order(
        fs.listing(join(repo_dir, k)).to_set() + fs.listing(expand_tilde_of(v, home)).to_set(),
    )
}

/// The steps for a tracked directory: one per member, in path order.
pub open spec fn status_dir_steps(
    repo_dir: Seq<char>,
    home: Seq<char>,
    fs: &FsView,
    k: Seq<char>,
    v: Seq<char>,
) -> Seq<Result<StatusEntryView, Fault>> {
    dir_members(repo_dir, home, fs, k, v).map_values(
        |rel: Seq<char>| status_step(fs, member_pair(repo_dir, home, k, v, rel)),
    )
}

/// All steps: the tracked files in key order, then the tracked directories
/// in key order.
pub open spec fn status_steps(repo_dir: Seq<char>, home: Seq<char>, m: &Manifest, fs: &FsView) -> Seq<
    Result<StatusEntryView, Fault>,
> {
    m.files.pairs().map_values(
        |kv: (Seq<char>, Seq<char>)| status_step(fs, file_pair(repo_dir, home, kv.0, kv.1)),
    ) + m.directories.pairs().map_values(
        |kv: (Seq<char>, Seq<char>)| status_dir_steps(repo_dir, home, fs, kv.0, kv.1),
    ).flatten_alt()
}

fn compare_files(fs: &FsView, repo_file: String, system_file: String, display: String) -> (r: Result<
    StatusEntry,
    RootratError,
>)
    ensures
        match r {
            Ok(e) => status_step(
                fs,
                FilePair { display: display@, repo_file: repo_file@, system_file: system_file@ },
            ) == Ok::<StatusEntryView, Fault>(e@),
            Err(e) => status_step(
                fs,
                FilePair { display: display@, repo_file: repo_file@, system_file: system_file@ },
            ) == Err::<StatusEntryView, Fault>(fault_of(e)),
        },
{
    let state = match fs.find_file(repo_file.as_str()) {
        None => FileState::MissingFromRepo,
        Some(ri) => match fs.find_file(system_file.as_str()) {
            None => FileState::MissingFromSystem,
            Some(si) => match &fs.files[ri].content {
                None => {
                    return Err(RootratError::Unreadable { path: repo_file });
                },
                Some(a) => match &fs.files[si].content {
                    None => {
                        return Err(RootratError::Unreadable { path: system_file });
                    },
                    Some(b) => {
                        if bytes_equal(a, b) {
                            FileState::Unchanged
                        } else {
                            FileState::Modified
                        }
                    },
                },
            },
        },
    };
    Ok(StatusEntry { system_path: display, state })
}

/// The state of every tracked file: the tracked files in key order, then
/// the files of each tracked directory, in key order, each file found on
/// either side once, in path order. `home` is the home directory; `fs` is
/// what the filesystem holds.
pub fn execute(repo_dir: &str, manifest: &Manifest, home: &str, fs: &FsView) -> (r: Result<
    Vec<StatusEntry>,
    RootratError,
>)
    ensures
        match r {
            Ok(es) => collect_results(status_steps(repo_dir@, home@, manifest, fs)) == Ok::<
                Seq<StatusEntryView>,
                Fault,
            >(status_views(es@)) && es@.len() == manifest.files.pairs().len() + members_total(
                repo_dir@,
                home@,
                fs,
                manifest.directories.pairs(),
            ),
            Err(e) => collect_results(status_steps(repo_dir@, home@, manifest, fs)) == Err::<
                Seq<StatusEntryView>,
                Fault,
            >(fault_of(e)),
        },
{
    let ghost file_steps = manifest.files.pairs().map_values(
        |kv: (Seq<char>, Seq<char>)| status_step(fs, file_pair(repo_dir@, home@, kv.0, kv.1)),
    );
    let ghost dir_steps = manifest.directories.pairs().map_values(
        |kv: (Seq<char>, Seq<char>)| status_dir_steps(repo_dir@, home@, fs, kv.0, kv.1),
    );
    let ghost all = file_steps + dir_steps.flatten_alt();
    assert(status_steps(repo_dir@, home@, manifest, fs) == all);
    let mut out: Vec<StatusEntry> = Vec::new();
    let n = manifest.files.len();
    let mut i: usize = 0;
    assert(file_steps.take(0) =~= Seq::<Result<StatusEntryView, Fault>>::empty());
    assert(status_views(out@) =~= Seq::<StatusEntryView>::empty());
    while i < n
        invariant
            i <= n == manifest.files.pairs().len(),
            file_steps.len() == n,
            file_steps == manifest.files.pairs().map_values(
                |kv: (Seq<char>, Seq<char>)| status_step(fs, file_pair(repo_dir@, home@, kv.0, kv.1)),
            ),
            all == file_steps + dir_steps.flatten_alt(),
            status_steps(repo_dir@, home@, manifest, fs) == all,
            collect_results(file_steps.take(i as int)) == Ok::<Seq<StatusEntryView>, Fault>(
                status_views(out@),
            ),
        decreases n - i,
    {
        let k = manifest.files.key_at(i);
        let v = manifest.files.value_at(i);
        let (repo_file, system_file) = file_pair_paths(repo_dir, home, k.as_str(), v.as_str());
        let shown = v.clone();
        let step = compare_files(fs, repo_file, system_file, shown);
        proof {
            assert(file_steps[i as int] == status_step(fs, file_pair(repo_dir@, home@, k@, v@)));
            assert(file_steps.take(i + 1) =~= file_steps.take(i as int).push(file_steps[i as int]));
            lemma_collect_push(file_steps.take(i as int), file_steps[i as int]);
        }
        let ghost old_views = status_views(out@);
        match step {
            Ok(e) => {
                out.push(e);
                assert(status_views(out@) =~= old_views.push(out@.last()@));
            },
            Err(e) => {
                proof {
                    lemma_collect_err_extends(file_steps.take(i + 1), file_steps.skip(i + 1) + dir_steps.flatten_alt());
                    assert(file_steps.take(i + 1) + file_steps.skip(i + 1) =~= file_steps);
                    assert(file_steps.take(i + 1) + (file_steps.skip(i + 1) + dir_steps.flatten_alt()) =~= all);
                }
                return Err(e);
            },
        }
        i = i + 1;
    }
    assert(file_steps.take(n as int) =~= file_steps);
    let nd = manifest.directories.len();
    let mut j: usize = 0;
    assert(dir_steps.take(0).flatten_alt() =~= Seq::<Result<StatusEntryView, Fault>>::empty());
    assert(file_steps + dir_steps.take(0).flatten_alt() =~= file_steps);
    while j < nd
        invariant
            j <= nd == manifest.directories.pairs().len(),
            dir_steps.len() == nd,
            dir_steps == manifest.directories.pairs().map_values(
                |kv: (Seq<char>, Seq<char>)| status_dir_steps(repo_dir@, home@, fs, kv.0, kv.1),
            ),
            all == file_steps + dir_steps.flatten_alt(),
            status_steps(repo_dir@, home@, manifest, fs) == all,
            collect_results(file_steps + dir_steps.take(j as int).flatten_alt()) == Ok::<
                Seq<StatusEntryView>,
                Fault,
            >(status_views(out@)),
        decreases nd - j,
    {
        let k = manifest.directories.key_at(j);
        let v = manifest.directories.value_at(j);
        let ghost before = file_steps + dir_steps.take(j as int).flatten_alt();
        assert(dir_steps.take(j + 1).drop_last() =~= dir_steps.take(j as int));
        assert(dir_steps.take(j + 1).flatten_alt() == dir_steps.take(j as int).flatten_alt()
            + dir_steps[j as int]);
        let r = status_directory(repo_dir, home, fs, k.as_str(), v.as_str(), &mut out, Ghost(before));
        match r {
            Ok(()) => {
                assert(file_steps + dir_steps.take(j + 1).flatten_alt() =~= before + dir_steps[j as int]);
            },
            Err(e) => {
                proof {
                    let rest = dir_steps.skip(j + 1).flatten_alt();
                    lemma_collect_err_extends(before + dir_steps[j as int], rest);
                    lemma_flatten_alt_split(dir_steps, j + 1);
                    assert(dir_steps.take(j + 1).flatten_alt() + rest == dir_steps.flatten_alt());
                    assert(before + dir_steps[j as int] + rest =~= all);
                }
                return Err(e);
            },
        }
        j = j + 1;
    }
    assert(dir_steps.take(nd as int) =~= dir_steps);
    proof {
        lemma_collect_ok(all, status_views(out@));
        status_covers_everything(repo_dir@, home@, manifest, fs);
    }
    Ok(out)
}

fn status_directory(
    repo_dir: &str,
    home: &str,
    fs: &FsView,
    k: &str,
    v: &str,
    out: &mut Vec<StatusEntry>,
    Ghost(before): Ghost<Seq<Result<StatusEntryView, Fault>>>,
) -> (r: Result<(), RootratError>)
    requires
        collect_results(before) == Ok::<Seq<StatusEntryView>, Fault>(status_views(old(out)@)),
    ensures
        match r {
            Ok(()) => collect_results(before + status_dir_steps(repo_dir@, home@, fs, k@, v@)) == Ok::<
                Seq<StatusEntryView>,
                Fault,
            >(status_views(final(out)@)),
            Err(e) => collect_results(before + status_dir_steps(repo_dir@, home@, fs, k@, v@))
                == Err::<Seq<StatusEntryView>, Fault>(fault_of(e)),
        },
{
    let (repo_base, system_base) = dir_bases(repo_dir, home, k, v);
    let empty = PathSet::new();
    let repo_files: &PathSet = match fs.find_dir(repo_base.as_str()) {
        Some(di) => &fs.dirs[di].files,
        None => &empty,
    };
    let system_files: &PathSet = match fs.find_dir(system_base.as_str()) {
        Some(di) => &fs.dirs[di].files,
        None => &empty,
    };
    let members = repo_files.union(system_files);
    let ghost steps = status_dir_steps(repo_dir@, home@, fs, k@, v@);
    assert(members@ == dir_members(repo_dir@, home@, fs, k@, v@));
    let mut i: usize = 0;
    assert(before + steps.take(0) =~= before);
    while i < members.len()
        invariant
            i <= members@.len() == steps.len(),
            members@ == dir_members(repo_dir@, home@, fs, k@, v@),
            steps == status_dir_steps(repo_dir@, home@, fs, k@, v@),
            repo_base@ == join(repo_dir@, k@),
            system_base@ == expand_tilde_of(v@, home@),
            collect_results(before + steps.take(i as int)) == Ok::<Seq<StatusEntryView>, Fault>(
                status_views(out@),
            ),
        decreases members@.len() - i,
    {
        let rel = members.at(i);
        let (display, repo_file, system_file) = member_paths(
            repo_base.as_str(),
            system_base.as_str(),
            v,
            rel.as_str(),
        );
        let step = compare_files(fs, repo_file, system_file, display);
        proof {
            assert(steps[i as int] == status_step(fs, member_pair(repo_dir@, home@, k@, v@, rel@)));
            assert(before + steps.take(i + 1) =~= (before + steps.take(i as int)).push(steps[i as int]));
            lemma_collect_push(before + steps.take(i as int), steps[i as int]);
        }
        let ghost old_views = status_views(out@);
        match step {
            Ok(e) => {
                out.push(e);
                assert(status_views(out@) =~= old_views.push(out@.last()@));
            },
            Err(e) => {
                proof {
                    lemma_collect_err_extends(before + steps.take(i + 1), steps.skip(i + 1));
                    assert(steps.take(i + 1) + steps.skip(i + 1) =~= steps);
                    assert(before + steps.take(i + 1) + steps.skip(i + 1) =~= before + steps);
                }
                return Err(e);
            },
        }
        i = i + 1;
    }
    assert(steps.take(steps.len() as int) =~= steps);
    Ok(())
}

/// How many files the tracked directories `ds` (repo path, system path)
/// hold together, each directory counting the files found on either of its
/// two sides once.
pub open spec fn members_total(
    repo_dir: Seq<char>,
    home: Seq<char>,
    fs: &FsView,
    ds: Seq<(Seq<char>, Seq<char>)>,
) -> nat
    decreases ds.len(),
{
    if ds.len() == 0 {
        0
    } else {
        members_total(repo_dir, home, fs, ds.drop_last()) + dir_members(
            repo_dir,
            home,
            fs,
            ds.last().0,
            ds.last().1,
        ).len()
    }
}

proof fn lemma_dir_steps_total(repo_dir: Seq<char>, home: Seq<char>, fs: &FsView, ds: Seq<(Seq<char>, Seq<char>)>)
    ensures
        total_len(
            ds.map_values(
                |kv: (Seq<char>, Seq<char>)| status_dir_steps(repo_dir, home, fs, kv.0, kv.1),
            ),
        ) == members_total(repo_dir, home, fs, ds),
    decreases ds.len(),
{
    if ds.len() > 0 {
        lemma_dir_steps_total(repo_dir, home, fs, ds.drop_last());
        assert(ds.map_values(
            |kv: (Seq<char>, Seq<char>)| status_dir_steps(repo_dir, home, fs, kv.0, kv.1),
        ).drop_last() =~= ds.drop_last().map_values(
            |kv: (Seq<char>, Seq<char>)| status_dir_steps(repo_dir, home, fs, kv.0, kv.1),
        ));
    }
}

/// Status gives one entry for each tracked file and one for each file of
/// each tracked directory (every tracked directory, each file found on
/// either side once): no tracked file or directory is left out.
pub proof fn status_covers_everything(repo_dir: Seq<char>, home: Seq<char>, m: &Manifest, fs: &FsView)
    ensures
        status_steps(repo_dir, home, m, fs).len() == m.files.pairs().len() + members_total(
            repo_dir,
            home,
            fs,
            m.directories.pairs(),
        ),
{
    let dir_steps = m.directories.pairs().map_values(
        |kv: (Seq<char>, Seq<char>)| status_dir_steps(repo_dir, home, fs, kv.0, kv.1),
    );
    lemma_flatten_alt_len(dir_steps);
    lemma_dir_steps_total(repo_dir, home, fs, m.directories.pairs());
}

/// The entry at place `i` of the status is the state of the `i`-th tracked
/// file (in key order).
pub proof fn status_reports_file(repo_dir: Seq<char>, home: Seq<char>, m: &Manifest, fs: &FsView, i: int)
    requires
        0 <= i < m.files.pairs().len(),
    ensures
        status_steps(repo_dir, home, m, fs)[i] == status_step(
            fs,
            file_pair(repo_dir, home, m.files.pairs()[i].0, m.files.pairs()[i].1),
        ),
{
}

/// The file `j` (in path order) of the tracked directory `d` (in key order)
/// is reported after the tracked files and after the files of the tracked
/// directories before `d`, with its own state.
pub proof fn status_reports_member(
    repo_dir: Seq<char>,
    home: Seq<char>,
    m: &Manifest,
    fs: &FsView,
    d: int,
    j: int,
)
    requires
        0 <= d < m.directories.pairs().len(),
        0 <= j < dir_members(
            repo_dir,
            home,
            fs,
            m.directories.pairs()[d].0,
            m.directories.pairs()[d].1,
        ).len(),
    ensures
        status_steps(repo_dir, home, m, fs)[m.files.pairs().len() + members_total(
            repo_dir,
            home,
            fs,
            m.directories.pairs().take(d),
        ) + j] == status_step(
            fs,
            member_pair(
                repo_dir,
                home,
                m.directories.pairs()[d].0,
                m.directories.pairs()[d].1,
                dir_members(
                    repo_dir,
                    home,
                    fs,
                    m.directories.pairs()[d].0,
                    m.directories.pairs()[d].1,
                )[j],
            ),
        ),
{
    let ds = m.directories.pairs();
    let dir_steps = ds.map_values(
        |kv: (Seq<char>, Seq<char>)| status_dir_steps(repo_dir, home, fs, kv.0, kv.1),
    );
    let file_steps = m.files.pairs().map_values(
        |kv: (Seq<char>, Seq<char>)| status_step(fs, file_pair(repo_dir, home, kv.0, kv.1)),
    );
    lemma_flatten_alt_index(dir_steps, d, j);
    lemma_dir_steps_total(repo_dir, home, fs, ds.take(d));
    assert(dir_steps.take(d) =~= ds.take(d).map_values(
        |kv: (Seq<char>, Seq<char>)| status_dir_steps(repo_dir, home, fs, kv.0, kv.1),
    ));
    let at = total_len(dir_steps.take(d)) + j;
    lemma_flatten_alt_len(dir_steps);
    assert((file_steps + dir_steps.flatten_alt())[file_steps.len() + at] == dir_steps.flatten_alt()[at]);
}

} // verus!
