//! Planning how the system's files are collected into the repo.
use vstd::prelude::*;
use crate::commands::{
    action_views, gather, ActionView, FsAction,
    collect_results, dir_bases, fault_of, file_pair, file_pair_paths, lemma_collect_err_extends,
    lemma_collect_push, lemma_filter_prefix, lemma_flatten_alt_split, member_pair, member_paths, Fault,
    FilePair,
};
use crate::error::RootratError;
use crate::fsview::{bytes_equal, FsView, Probe};
use crate::manifest::{expand_tilde_of, Manifest};
use crate::path_set::PathSet;
use crate::paths::join;
use crate::text::concat_str;

verus! {

/// What collecting does to one file of the repo.
#[derive(PartialEq, Eq, Structural, Debug, Clone, Copy)]
pub enum CollectState {
    /// The repo has no copy yet; the system's file is copied there.
    Created,
    /// The repo's copy differs and is overwritten.
    Updated,
    /// The file is the same on both sides.
    Unchanged,
    /// The file is in the repo, inside a tracked directory, but no longer on
    /// the system.
    Deleted,
    /// The system has no file for a tracked file.
    MissingFromSystem,
}

/// One planned change.
#[derive(Debug)]
pub struct CollectEntry {
    pub system_path: String,
    pub state: CollectState,
    pub repo_file: String,
    pub system_file: String,
}

/// The content of a planned change.
pub struct CollectEntryView {
    pub system_path: Seq<char>,
    pub state: CollectState,
    pub repo_file: Seq<char>,
    pub system_file: Seq<char>,
}

impl View for CollectEntry {
    type V = CollectEntryView;

    open spec fn view(&self) -> CollectEntryView {
        CollectEntryView {
            system_path: self.system_path@,
            state: self.state,
            repo_file: self.repo_file@,
            system_file: self.system_file@,
        }
    }
}

/// The entries of a list of planned changes.
pub open spec fn collect_views(es: Seq<CollectEntry>) -> Seq<CollectEntryView> {
    es.map_values(|e: CollectEntry| e@)
}

/// The entry of `pair` in state `s`.
pub open spec fn collect_entry(pair: FilePair, s: CollectState) -> CollectEntryView {
    CollectEntryView {
        system_path: pair.display,
        state: s,
        repo_file: pair.repo_file,
        system_file: pair.system_file,
    }
}

/// What collecting does to `pair`: nothing when the system has no file; a
/// creation when the repo has no copy; otherwise an update exactly when the
/// contents differ. Reading the repo copy comes first; a file that cannot be
/// read stops the plan.
pub open spec fn collect_step(fs: &FsView, pair: FilePair) -> Result<CollectEntryView, Fault> {
    match fs.probe(pair.system_file) {
        Probe::Absent => Ok(collect_entry(pair, CollectState::MissingFromSystem)),
        _ => match fs.probe(pair.repo_file) {
            Probe::Absent => Ok(collect_entry(pair, CollectState::Created)),
            Probe::Unreadable => Err(Fault::Unreadable(pair.repo_file)),
            Probe::Content(a) => match fs.probe(pair.system_file) {
                Probe::Content(b) => Ok(
                    collect_entry(
                        pair,
                        if a == b {
                            CollectState::Unchanged
                        } else {
                            CollectState::Updated
                        },
                    ),
                ),
                _ => Err(Fault::Unreadable(pair.system_file)),
            },
        },
    }
}

/// The steps for a tracked directory with repo path `k` and system path `v`:
/// each file on the system, in path order, and then each file that is only
/// in the repo, in path order, as a deletion.
pub open spec fn collect_dir_steps(
    repo_dir: Seq<char>,
    home: Seq<char>,
    fs: &FsView,
    k: Seq<char>,
    v: Seq<char>,
) -> Seq<Result<CollectEntryView, Fault>> {
    let repo_files = fs.listing(join(repo_dir, k));
    let system_files = fs.listing(expand_tilde_of(v, home));
    system_files.map_values(
        |rel: Seq<char>| collect_step(fs, member_pair(repo_dir, home, k, v, rel)),
    ) + repo_files.filter(|rel: Seq<char>| !system_files.contains(rel)).map_values(
        |rel: Seq<char>|
            Ok::<CollectEntryView, Fault>(
                collect_entry(member_pair(repo_dir, home, k, v, rel), CollectState::Deleted),
            ),
    )
}

/// All steps of the plan: the tracked files in key order, then the tracked
/// directories in key order.
pub open spec fn collect_steps(repo_dir: Seq<char>, home: Seq<char>, m: &Manifest, fs: &FsView) -> Seq<
    Result<CollectEntryView, Fault>,
> {
    m.files.pairs().map_values(
        |kv: (Seq<char>, Seq<char>)| collect_step(fs, file_pair(repo_dir, home, kv.0, kv.1)),
    ) + m.directories.pairs().map_values(
        |kv: (Seq<char>, Seq<char>)| collect_dir_steps(repo_dir, home, fs, kv.0, kv.1),
    ).flatten_alt()
}

fn plan_file(fs: &FsView, repo_file: String, system_file: String, display: String) -> (r: Result<
    CollectEntry,
    RootratError,
>)
    ensures
        match r {
            Ok(e) => collect_step(
                fs,
                FilePair { display: display@, repo_file: repo_file@, system_file: system_file@ },
            ) == Ok::<CollectEntryView, Fault>(e@),
            Err(e) => collect_step(
                fs,
                FilePair { display: display@, repo_file: repo_file@, system_file: system_file@ },
            ) == Err::<CollectEntryView, Fault>(fault_of(e)),
        },
{
    let ghost pair = FilePair { display: display@, repo_file: repo_file@, system_file: system_file@ };
    let state = match fs.find_file(system_file.as_str()) {
        None => CollectState::MissingFromSystem,
        Some(si) => match fs.find_file(repo_file.as_str()) {
            None => CollectState::Created,
            Some(ri) => match &fs.files[ri].content {
                None => {
                    return Err(RootratError::Unreadable { path: repo_file });
                },
                Some(a) => match &fs.files[si].content {
                    None => {
                        return Err(RootratError::Unreadable { path: system_file });
                    },
                    Some(b) => {
                        if bytes_equal(a, b) {
                            CollectState::Unchanged
                        } else {
                            CollectState::Updated
                        }
                    },
                },
            },
        },
    };
    Ok(CollectEntry { system_path: display, state, repo_file, system_file })
}

/// Plans how the system's files are collected into the repo, without
/// changing anything. Tracked files come first, in key order; then the files
/// of each tracked directory, in key order; the files that are only in the
/// repo inside a tracked directory are planned as deletions. `home` is the
/// home directory; `fs` is what the filesystem holds.
pub fn plan(repo_dir: &str, manifest: &Manifest, home: &str, fs: &FsView) -> (r: Result<
    Vec<CollectEntry>,
    RootratError,
>)
    ensures
        match r {
            Ok(es) => collect_results(collect_steps(repo_dir@, home@, manifest, fs)) == Ok::<
                Seq<CollectEntryView>,
                Fault,
            >(collect_views(es@)),
            Err(e) => collect_results(collect_steps(repo_dir@, home@, manifest, fs)) == Err::<
                Seq<CollectEntryView>,
                Fault,
            >(fault_of(e)),
        },
{
    let ghost file_steps = manifest.files.pairs().map_values(
        |kv: (Seq<char>, Seq<char>)| collect_step(fs, file_pair(repo_dir@, home@, kv.0, kv.1)),
    );
    let ghost dir_steps = manifest.directories.pairs().map_values(
        |kv: (Seq<char>, Seq<char>)| collect_dir_steps(repo_dir@, home@, fs, kv.0, kv.1),
    );
    let ghost all = file_steps + dir_steps.flatten_alt();
    assert(collect_steps(repo_dir@, home@, manifest, fs) == all);
    let mut out: Vec<CollectEntry> = Vec::new();
    let n = manifest.files.len();
    let mut i: usize = 0;
    assert(file_steps.take(0) =~= Seq::<Result<CollectEntryView, Fault>>::empty());
    assert(collect_views(out@) =~= Seq::<CollectEntryView>::empty());
    while i < n
        invariant
            i <= n == manifest.files.pairs().len(),
            file_steps.len() == n,
            file_steps == manifest.files.pairs().map_values(
                |kv: (Seq<char>, Seq<char>)| collect_step(fs, file_pair(repo_dir@, home@, kv.0, kv.1)),
            ),
            all == file_steps + dir_steps.flatten_alt(),
            collect_steps(repo_dir@, home@, manifest, fs) == all,
            collect_results(file_steps.take(i as int)) == Ok::<Seq<CollectEntryView>, Fault>(
                collect_views(out@),
            ),
        decreases n - i,
    {
        let k = manifest.files.key_at(i);
        let v = manifest.files.value_at(i);
        let (repo_file, system_file) = file_pair_paths(repo_dir, home, k.as_str(), v.as_str());
        let shown = v.clone();
        let step = plan_file(fs, repo_file, system_file, shown);
        proof {
            assert(file_steps[i as int] == collect_step(fs, file_pair(repo_dir@, home@, k@, v@)));
            assert(file_steps.take(i + 1) =~= file_steps.take(i as int).push(file_steps[i as int]));
            lemma_collect_push(file_steps.take(i as int), file_steps[i as int]);
        }
        let ghost old_views = collect_views(out@);
        match step {
            Ok(e) => {
                out.push(e);
                assert(collect_views(out@) =~= old_views.push(out@.last()@));
            },
            Err(e) => {
                proof {
                    lemma_collect_err_extends(file_steps.take(i + 1), file_steps.skip(i + 1) + dir_steps.flatten_alt());
                    assert(file_steps.take(i + 1) + file_steps.skip(i + 1) =~= file_steps);
                    assert(file_steps.take(i + 1) + (file_steps.skip(i + 1) + dir_steps.flatten_alt()) =~= all);
                }
                return Err(e);
            },
        }
        i = i + 1;
    }
    assert(file_steps.take(n as int) =~= file_steps);
    let nd = manifest.directories.len();
    let mut j: usize = 0;
    assert(dir_steps.take(0).flatten_alt() =~= Seq::<Result<CollectEntryView, Fault>>::empty());
    assert(file_steps + dir_steps.take(0).flatten_alt() =~= file_steps);
    while j < nd
        invariant
            j <= nd == manifest.directories.pairs().len(),
            dir_steps.len() == nd,
            dir_steps == manifest.directories.pairs().map_values(
                |kv: (Seq<char>, Seq<char>)| collect_dir_steps(repo_dir@, home@, fs, kv.0, kv.1),
            ),
            all == file_steps + dir_steps.flatten_alt(),
            collect_steps(repo_dir@, home@, manifest, fs) == all,
            collect_results(file_steps + dir_steps.take(j as int).flatten_alt()) == Ok::<
                Seq<CollectEntryView>,
                Fault,
            >(collect_views(out@)),
        decreases nd - j,
    {
        let k = manifest.directories.key_at(j);
        let v = manifest.directories.value_at(j);
        let ghost before = file_steps + dir_steps.take(j as int).flatten_alt();
        assert(dir_steps.take(j + 1).drop_last() =~= dir_steps.take(j as int));
        assert(dir_steps.take(j + 1).flatten_alt() == dir_steps.take(j as int).flatten_alt()
            + dir_steps[j as int]);
        let r = plan_directory(repo_dir, home, fs, k.as_str(), v.as_str(), &mut out, Ghost(before));
        match r {
            Ok(()) => {
                assert(file_steps + dir_steps.take(j + 1).flatten_alt() =~= before + dir_steps[j as int]);
            },
            Err(e) => {
                proof {
                    let rest = dir_steps.skip(j + 1).flatten_alt();
                    lemma_collect_err_extends(before + dir_steps[j as int], rest);
                    lemma_flatten_alt_split(dir_steps, j + 1);
                    assert(dir_steps.take(j + 1).flatten_alt() + rest == dir_steps.flatten_alt());
                    assert(before + dir_steps[j as int] + rest =~= all);
                }
                return Err(e);
            },
        }
        j = j + 1;
    }
    assert(dir_steps.take(nd as int) =~= dir_steps);
    Ok(out)
}

fn plan_directory(
    repo_dir: &str,
    home: &str,
    fs: &FsView,
    k: &str,
    v: &str,
    out: &mut Vec<CollectEntry>,
    Ghost(before): Ghost<Seq<Result<CollectEntryView, Fault>>>,
) -> (r: Result<(), RootratError>)
    requires
        collect_results(before) == Ok::<Seq<CollectEntryView>, Fault>(collect_views(old(out)@)),
    ensures
        match r {
            Ok(()) => collect_results(before + collect_dir_steps(repo_dir@, home@, fs, k@, v@)) == Ok::<
                Seq<CollectEntryView>,
                Fault,
            >(collect_views(final(out)@)),
            Err(e) => collect_results(before + collect_dir_steps(repo_dir@, home@, fs, k@, v@))
                == Err::<Seq<CollectEntryView>, Fault>(fault_of(e)),
        },
{
    let (repo_base, system_base) = dir_bases(repo_dir, home, k, v);
    let empty = PathSet::new();
    let repo_files: &PathSet = match fs.find_dir(repo_base.as_str()) {
        Some(di) => &fs.dirs[di].files,
        None => &empty,
    };
    let system_files: &PathSet = match fs.find_dir(system_base.as_str()) {
        Some(di) => &fs.dirs[di].files,
        None => &empty,
    };
    let ghost system_listed = system_files@;
    let ghost repo_listed = repo_files@;
    let ghost from_system = system_listed.map_values(
        |rel: Seq<char>| collect_step(fs, member_pair(repo_dir@, home@, k@, v@, rel)),
    );
    let ghost pred = |rel: Seq<char>| !system_listed.contains(rel);
    let ghost only_repo = repo_listed.filter(pred).map_values(
        |rel: Seq<char>|
            Ok::<CollectEntryView, Fault>(
                collect_entry(member_pair(repo_dir@, home@, k@, v@, rel), CollectState::Deleted),
            ),
    );
    assert(collect_dir_steps(repo_dir@, home@, fs, k@, v@) == from_system + only_repo);
    let mut i: usize = 0;
    assert(before + from_system.take(0) =~= before);
    while i < system_files.len()
        invariant
            i <= system_files@.len() == from_system.len(),
            system_listed == system_files@,
            from_system == system_listed.map_values(
                |rel: Seq<char>| collect_step(fs, member_pair(repo_dir@, home@, k@, v@, rel)),
            ),
            repo_base@ == join(repo_dir@, k@),
            system_base@ == expand_tilde_of(v@, home@),
            collect_dir_steps(repo_dir@, home@, fs, k@, v@) == from_system + only_repo,
            collect_results(before + from_system.take(i as int)) == Ok::<Seq<CollectEntryView>, Fault>(
                collect_views(out@),
            ),
        decreases system_files@.len() - i,
    {
        let rel = system_files.at(i);
        let (display, repo_file, system_file) = member_paths(
            repo_base.as_str(),
            system_base.as_str(),
            v,
            rel.as_str(),
        );
        let step = plan_file(fs, repo_file, system_file, display);
        proof {
            assert(from_system[i as int] == collect_step(fs, member_pair(repo_dir@, home@, k@, v@, rel@)));
            assert(before + from_system.take(i + 1) =~= (before + from_system.take(i as int)).push(from_system[i as int]));
            lemma_collect_push(before + from_system.take(i as int), from_system[i as int]);
        }
        let ghost old_views = collect_views(out@);
        match step {
            Ok(e) => {
                out.push(e);
                assert(collect_views(out@) =~= old_views.push(out@.last()@));
            },
            Err(e) => {
                proof {
                    lemma_collect_err_extends(before + from_system.take(i + 1), from_system.skip(i + 1) + only_repo);
                    assert(from_system.take(i + 1) + from_system.skip(i + 1) =~= from_system);
                    assert(before + from_system.take(i + 1) + (from_system.skip(i + 1) + only_repo) =~= before
                        + (from_system + only_repo));
                }
                return Err(e);
            },
        }
        i = i + 1;
    }
    assert(from_system.take(from_system.len() as int) =~= from_system);
    let ghost base = before + from_system;
    let ghost kept = repo_listed.filter(pred);
    let mut t: usize = 0;
    let mut taken: usize = 0;
    assert(repo_listed.take(0).filter(pred) =~= Seq::<Seq<char>>::empty()) by {
        reveal(Seq::filter);
    }
    assert(base + only_repo.take(0) =~= base);
    while t < repo_files.len()
        invariant
            t <= repo_files@.len(),
            repo_listed == repo_files@,
            system_listed == system_files@,
            kept == repo_listed.filter(pred),
            pred == (|rel: Seq<char>| !system_listed.contains(rel)),
            only_repo == kept.map_values(
                |rel: Seq<char>|
                    Ok::<CollectEntryView, Fault>(
                        collect_entry(member_pair(repo_dir@, home@, k@, v@, rel), CollectState::Deleted),
                    ),
            ),
            repo_listed.take(t as int).filter(pred) == kept.take(taken as int),
            taken <= kept.len(),
            repo_base@ == join(repo_dir@, k@),
            system_base@ == expand_tilde_of(v@, home@),
            collect_results(base + only_repo.take(taken as int)) == Ok::<Seq<CollectEntryView>, Fault>(
                collect_views(out@),
            ),
        decreases repo_files@.len() - t,
    {
        let rel = repo_files.at(t);
        assert(repo_listed.take(t + 1).drop_last() =~= repo_listed.take(t as int));
        assert(repo_listed.take(t + 1).last() == repo_listed[t as int]);
        proof {
            reveal(Seq::filter);
            lemma_filter_prefix(repo_listed, pred, t + 1, kept);
        }
        if !system_files.contains(rel.as_str()) {
            let (display, repo_file, system_file) = member_paths(
                repo_base.as_str(),
                system_base.as_str(),
                v,
                rel.as_str(),
            );
            proof {
                assert(repo_listed.take(t + 1).filter(pred) == kept.take(taken as int).push(repo_listed[t as int]));
                assert(kept.take(taken + 1) == repo_listed.take(t + 1).filter(pred));
                assert(kept[taken as int] == repo_listed[t as int]) by {
                    assert(kept.take(taken + 1)[taken as int] == kept[taken as int]);
                }
                assert(only_repo.take(taken + 1) =~= only_repo.take(taken as int).push(only_repo[taken as int]));
                assert(base + only_repo.take(taken + 1) =~= (base + only_repo.take(taken as int)).push(
                    only_repo[taken as int],
                ));
                lemma_collect_push(base + only_repo.take(taken as int), only_repo[taken as int]);
            }
            let ghost old_views = collect_views(out@);
            assert(only_repo[taken as int] == Ok::<CollectEntryView, Fault>(
                collect_entry(member_pair(repo_dir@, home@, k@, v@, rel@), CollectState::Deleted),
            ));
            out.push(CollectEntry { system_path: display, state: CollectState::Deleted, repo_file, system_file });
            assert(collect_views(out@) =~= old_views.push(out@.last()@));
            taken = taken + 1;
        } else {
            assert(repo_listed.take(t + 1).filter(pred) == kept.take(taken as int));
        }
        t = t + 1;
    }
    assert(repo_listed.take(repo_listed.len() as int) =~= repo_listed);
    assert(kept.take(taken as int).len() == taken);
    assert(taken == kept.len());
    assert(only_repo.take(taken as int) =~= only_repo);
    assert(base + only_repo =~= before + collect_dir_steps(repo_dir@, home@, fs, k@, v@));
    Ok(())
}


/// The change that collecting an entry makes: a created file is copied
/// into the repo with its directories made first, an updated one is copied
/// over, a deleted one is removed from the repo; unchanged and missing files
/// are left alone.
pub open spec fn collect_action(e: CollectEntryView) -> Option<ActionView> {
    match e.state {
        CollectState::Created => Some(ActionView::CopyCreatingParent { from: e.system_file, to: e.repo_file }),
        CollectState::Updated => Some(ActionView::Copy { from: e.system_file, to: e.repo_file }),
        CollectState::Deleted => Some(ActionView::RemoveFile { path: e.repo_file }),
        _ => None,
    }
}

/// The changes that carry out planned entries, in order.
pub fn actions(entries: &Vec<CollectEntry>) -> (acts: Vec<FsAction>)
    ensures
        action_views(acts@) == gather(collect_views(entries@), |e: CollectEntryView| collect_action(e)),
{
    let ghost es = collect_views(entries@);
    let ghost f = |e: CollectEntryView| collect_action(e);
    let mut acts: Vec<FsAction> = Vec::new();
    let mut i: usize = 0;
    assert(es.take(0) =~= Seq::<CollectEntryView>::empty());
    assert(action_views(acts@) =~= Seq::<ActionView>::empty());
    while i < entries.len()
        invariant
            i <= entries.len(),
            es == collect_views(entries@),
            f == (|e: CollectEntryView| collect_action(e)),
            action_views(acts@) == gather(es.take(i as int), f),
        decreases entries.len() - i,
    {
        let e = &entries[i];
        assert(es.take(i + 1).drop_last() =~= es.take(i as int));
        assert(es.take(i + 1).last() == e@);
        let ghost before = action_views(acts@);
        match e.state {
            CollectState::Created => {
                acts.push(FsAction::CopyCreatingParent { from: e.system_file.clone(), to: e.repo_file.clone() });
                assert(action_views(acts@) =~= before.push(acts@.last()@));
            },
            CollectState::Updated => {
                acts.push(FsAction::Copy { from: e.system_file.clone(), to: e.repo_file.clone() });
                assert(action_views(acts@) =~= before.push(acts@.last()@));
            },
            CollectState::Deleted => {
                acts.push(FsAction::RemoveFile { path: e.repo_file.clone() });
                assert(action_views(acts@) =~= before.push(acts@.last()@));
            },
            _ => {},
        }
        i = i + 1;
    }
    assert(es.take(entries.len() as int) =~= es);
    acts
}


/// The shown paths of the entries in state `s`, in order.
pub open spec fn collect_paths_in(es: Seq<CollectEntryView>, s: CollectState) -> Seq<Seq<char>>
    decreases es.len(),
{
    if es.len() == 0 {
        Seq::empty()
    } else if es.last().state == s {
        collect_paths_in(es.drop_last(), s).push(es.last().system_path)
    } else {
        collect_paths_in(es.drop_last(), s)
    }
}

/// A plan grouped by state, as it is shown before asking: the shown paths
/// of each kind of change, in the plan's order, and how many files are
/// unchanged.
#[derive(Debug)]
pub struct CollectEntrySummary {
    pub created: Vec<String>,
    pub updated: Vec<String>,
    pub deleted: Vec<String>,
    pub missing: Vec<String>,
    pub unchanged: usize,
}

/// Groups the entries of a plan by state (see [`CollectEntrySummary`]).
pub fn summarize(entries: &Vec<CollectEntry>) -> (r: CollectEntrySummary)
    ensures
        crate::sorted::views(r.created@) == collect_paths_in(collect_views(entries@), CollectState::Created),
        crate::sorted::views(r.updated@) == collect_paths_in(collect_views(entries@), CollectState::Updated),
        crate::sorted::views(r.deleted@) == collect_paths_in(collect_views(entries@), CollectState::Deleted),
        crate::sorted::views(r.missing@) == collect_paths_in(collect_views(entries@), CollectState::MissingFromSystem),
        r.unchanged == collect_paths_in(collect_views(entries@), CollectState::Unchanged).len(),
        crate::sorted::views(r.missing@) == collect_views(entries@).filter(
            |e: CollectEntryView| e.state == CollectState::MissingFromSystem,
        ).map_values(|e: CollectEntryView| e.system_path),
        crate::sorted::views(r.deleted@) == collect_views(entries@).filter(
            |e: CollectEntryView| e.state == CollectState::Deleted,
        ).map_values(|e: CollectEntryView| e.system_path),
        r.unchanged == collect_views(entries@).filter(|e: CollectEntryView| e.state == CollectState::Unchanged).len(),
{
    let ghost es = collect_views(entries@);
    let mut created: Vec<String> = Vec::new();
    let mut updated: Vec<String> = Vec::new();
    let mut deleted: Vec<String> = Vec::new();
    let mut missing: Vec<String> = Vec::new();
    let mut unchanged: usize = 0;
    let mut i: usize = 0;
    assert(es.take(0) =~= Seq::<CollectEntryView>::empty());
    while i < entries.len()
        invariant
            i <= entries.len(),
            es == collect_views(entries@),
            crate::sorted::views(created@) == collect_paths_in(es.take(i as int), CollectState::Created),
            crate::sorted::views(updated@) == collect_paths_in(es.take(i as int), CollectState::Updated),
            crate::sorted::views(deleted@) == collect_paths_in(es.take(i as int), CollectState::Deleted),
            crate::sorted::views(missing@) == collect_paths_in(es.take(i as int), CollectState::MissingFromSystem),
            unchanged == collect_paths_in(es.take(i as int), CollectState::Unchanged).len(),
            unchanged <= i,
        decreases entries.len() - i,
    {
        let e = &entries[i];
        assert(es.take(i + 1).drop_last() =~= es.take(i as int));
        assert(es.take(i + 1).last() == e@);
        let ghost old_created = crate::sorted::views(created@);
        let ghost old_updated = crate::sorted::views(updated@);
        let ghost old_deleted = crate::sorted::views(deleted@);
        let ghost old_missing = crate::sorted::views(missing@);
        match e.state {
            CollectState::Created => {
                created.push(crate::manifest::owned(e.system_path.as_str()));
            },
            CollectState::Updated => {
                updated.push(crate::manifest::owned(e.system_path.as_str()));
            },
            CollectState::Deleted => {
                deleted.push(crate::manifest::owned(e.system_path.as_str()));
            },
            CollectState::MissingFromSystem => {
                missing.push(crate::manifest::owned(e.system_path.as_str()));
            },
            CollectState::Unchanged => {
                unchanged = unchanged + 1;
            },
            _ => {},
        }
        assert(crate::sorted::views(created@) =~= collect_paths_in(es.take(i + 1), CollectState::Created));
        assert(crate::sorted::views(updated@) =~= collect_paths_in(es.take(i + 1), CollectState::Updated));
        assert(crate::sorted::views(deleted@) =~= collect_paths_in(es.take(i + 1), CollectState::Deleted));
        assert(crate::sorted::views(missing@) =~= collect_paths_in(es.take(i + 1), CollectState::MissingFromSystem));
        i = i + 1;
    }
    assert(es.take(entries.len() as int) =~= es);
    assert(crate::sorted::views(created@) == collect_paths_in(es, CollectState::Created));
    assert(crate::sorted::views(updated@) == collect_paths_in(es, CollectState::Updated));
    assert(crate::sorted::views(deleted@) == collect_paths_in(es, CollectState::Deleted));
    assert(crate::sorted::views(missing@) == collect_paths_in(es, CollectState::MissingFromSystem));
    proof {
        summary_groups_by_state(es, CollectState::MissingFromSystem);
        summary_groups_by_state(es, CollectState::Deleted);
        summary_groups_by_state(es, CollectState::Unchanged);
    }
    CollectEntrySummary { created, updated, deleted, missing, unchanged }
}

/// Each group of the summary lists exactly the entries whose own state is
/// that group's state, by their shown paths and in plan order: filtering the
/// plan by state and keeping the shown paths gives the group.
pub proof fn summary_groups_by_state(es: Seq<CollectEntryView>, s: CollectState)
    ensures
        collect_paths_in(es, s) == es.filter(|e: CollectEntryView| e.state == s).map_values(
            |e: CollectEntryView| e.system_path,
        ),
    decreases es.len(),
{
    reveal(Seq::filter);
    if es.len() == 0 {
        assert(es.filter(|e: CollectEntryView| e.state == s) =~= Seq::<CollectEntryView>::empty());
    } else {
        summary_groups_by_state(es.drop_last(), s);
        es.drop_last().lemma_filter_push(es.last(), |e: CollectEntryView| e.state == s);
        assert(es.drop_last().push(es.last()) =~= es);
        let f = es.drop_last().filter(|e: CollectEntryView| e.state == s);
        assert(f.push(es.last()).map_values(|e: CollectEntryView| e.system_path) =~= f.map_values(
            |e: CollectEntryView| e.system_path,
        ).push(es.last().system_path));
    }
}

} // verus!
