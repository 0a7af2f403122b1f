//! Planning how the repo's copies are written onto the system.
use vstd::prelude::*;
use crate::commands::{
    action_views, gather, ActionView, FsAction,
    collect_results, dir_bases, fault_of, file_pair, file_pair_paths, lemma_collect_err_extends,
    lemma_collect_push, lemma_filter_prefix, lemma_flatten_alt_split, member_pair, member_paths, Fault,
    FilePair,
};
use crate::error::RootratError;
use crate::fsview::{bytes_equal, FsView, Probe};
use crate::manifest::{expand_tilde_of, Manifest};
use crate::path_set::PathSet;
use crate::paths::join;
use crate::text::concat_str;

verus! {

/// What applying does to one file of the system.
#[derive(PartialEq, Eq, Structural, Debug, Clone, Copy)]
pub enum ApplyState {
    /// The file is missing on the system and is copied there.
    Created,
    /// The file differs on the system and is overwritten.
    Updated,
    /// The file is the same on both sides.
    Unchanged,
    /// The file is on the system, inside a tracked directory, but not in
    /// the repo.
    Deleted,
    /// The repo has no copy of a tracked file.
    MissingFromRepo,
}

/// One planned change.
#[derive(Debug)]
pub struct ApplyEntry {
    pub system_path: String,
    pub state: ApplyState,
    pub repo_file: String,
    pub system_file: String,
}

/// The content of a planned change.
pub struct ApplyEntryView {
    pub system_path: Seq<char>,
    pub state: ApplyState,
    pub repo_file: Seq<char>,
    pub system_file: Seq<char>,
}

impl View for ApplyEntry {
    type V = ApplyEntryView;

    open spec fn view(&self) -> ApplyEntryView {
        ApplyEntryView {
            system_path: self.system_path@,
            state: self.state,
            repo_file: self.repo_file@,
            system_file: self.system_file@,
        }
    }
}

/// The entries of a list of planned changes.
pub open spec fn apply_views(es: Seq<ApplyEntry>) -> Seq<ApplyEntryView> {
    es.map_values(|e: ApplyEntry| e@)
}

/// The entry of `pair` in state `s`.
pub open spec fn apply_entry(pair: FilePair, s: ApplyState) -> ApplyEntryView {
    ApplyEntryView {
        system_path: pair.display,
        state: s,
        repo_file: pair.repo_file,
        system_file: pair.system_file,
    }
}

/// What applying does to `pair`: nothing when the repo has no copy; a
/// creation when the system has none; otherwise an update exactly when the
/// contents differ. Reading the repo copy comes first; a file that cannot be
/// read stops the plan.
pub open spec fn apply_step(fs: &FsView, pair: FilePair) -> Result<ApplyEntryView, Fault> {
    match fs.probe(pair.repo_file) {
        Probe::Absent => Ok(apply_entry(pair, ApplyState::MissingFromRepo)),
        Probe::Unreadable => match fs.probe(pair.system_file) {
            Probe::Absent => Ok(apply_entry(pair, ApplyState::Created)),
            _ => Err(Fault::Unreadable(pair.repo_file)),
        },
        Probe::Content(a) => match fs.probe(pair.system_file) {
            Probe::Absent => Ok(apply_entry(pair, ApplyState::Created)),
            Probe::Unreadable => Err(Fault::Unreadable(pair.system_file)),
            Probe::Content(b) => Ok(
                apply_entry(
                    pair,
                    if a == b {
                        ApplyState::Unchanged
                    } else {
                        ApplyState::Updated
                    },
                ),
            ),
        },
    }
}

/// The steps for a tracked directory with repo path `k` and system path `v`:
/// each file of the repo's copy, in path order, and then each file that is
/// only on the system, in path order, as a deletion.
pub open spec fn apply_dir_steps(
    repo_dir: Seq<char>,
    home: Seq<char>,
    fs: &FsView,
    k: Seq<char>,
    v: Seq<char>,
) -> Seq<Result<ApplyEntryView, Fault>> {
    let repo_files = fs.listing(join(repo_dir, k));
    let system_files = fs.listing(expand_tilde_of(v, home));
    repo_files.map_values(
        |rel: Seq<char>| apply_step(fs, member_pair(repo_dir, home, k, v, rel)),
    ) + system_files.filter(|rel: Seq<char>| !repo_files.contains(rel)).map_values(
        |rel: Seq<char>|
            Ok::<ApplyEntryView, Fault>(
                apply_entry(member_pair(repo_dir, home, k, v, rel), ApplyState::Deleted),
            ),
    )
}

/// All steps of the plan: the tracked files in key order, then the tracked
/// directories in key order.
pub open spec fn apply_steps(repo_dir: Seq<char>, home: Seq<char>, m: &Manifest, fs: &FsView) -> Seq<
    Result<ApplyEntryView, Fault>,
> {
    m.files.pairs().map_values(
        |kv: (Seq<char>, Seq<char>)| apply_step(fs, file_pair(repo_dir, home, kv.0, kv.1)),
    ) + m.directories.pairs().map_values(
        |kv: (Seq<char>, Seq<char>)| apply_dir_steps(repo_dir, home, fs, kv.0, kv.1),
    ).flatten_alt()
}

fn plan_file(fs: &FsView, repo_file: String, system_file: String, display: String) -> (r: Result<
    ApplyEntry,
    RootratError,
>)
    ensures
        match r {
            Ok(e) => apply_step(
                fs,
                FilePair { display: display@, repo_file: repo_file@, system_file: system_file@ },
            ) == Ok::<ApplyEntryView, Fault>(e@),
            Err(e) => apply_step(
                fs,
                FilePair { display: display@, repo_file: repo_file@, system_file: system_file@ },
            ) == Err::<ApplyEntryView, Fault>(fault_of(e)),
        },
{
    let ghost pair = FilePair { display: display@, repo_file: repo_file@, system_file: system_file@ };
    let state = match fs.find_file(repo_file.as_str()) {
        None => ApplyState::MissingFromRepo,
        Some(ri) => match fs.find_file(system_file.as_str()) {
            None => ApplyState::Created,
            Some(si) => match &fs.files[ri].content {
                None => {
                    return Err(RootratError::Unreadable { path: repo_file });
                },
                Some(a) => match &fs.files[si].content {
                    None => {
                        return Err(RootratError::Unreadable { path: system_file });
                    },
                    Some(b) => {
                        if bytes_equal(a, b) {
                            ApplyState::Unchanged
                        } else {
                            ApplyState::Updated
                        }
                    },
                },
            },
        },
    };
    Ok(ApplyEntry { system_path: display, state, repo_file, system_file })
}

/// Plans how the repo's copies are written onto the system, without
/// changing anything. Tracked files come first, in key order; then the files
/// of each tracked directory, in key order; the files that are only on the
/// system inside a tracked directory are planned as deletions. `home` is the
/// home directory; `fs` is what the filesystem holds.
pub fn plan(repo_dir: &str, manifest: &Manifest, home: &str, fs: &FsView) -> (r: Result<
    Vec<ApplyEntry>,
    RootratError,
>)
    ensures
        match r {
            Ok(es) => collect_results(apply_steps(repo_dir@, home@, manifest, fs)) == Ok::<
                Seq<ApplyEntryView>,
                Fault,
            >(apply_views(es@)),
            Err(e) => collect_results(apply_steps(repo_dir@, home@, manifest, fs)) == Err::<
                Seq<ApplyEntryView>,
                Fault,
            >(fault_of(e)),
        },
{
    let ghost file_steps = manifest.files.pairs().map_values(
        |kv: (Seq<char>, Seq<char>)| apply_step(fs, file_pair(repo_dir@, home@, kv.0, kv.1)),
    );
    let ghost dir_steps = manifest.directories.pairs().map_values(
        |kv: (Seq<char>, Seq<char>)| apply_dir_steps(repo_dir@, home@, fs, kv.0, kv.1),
    );
    let ghost all = file_steps + dir_steps.flatten_alt();
    assert(apply_steps(repo_dir@, home@, manifest, fs) == all);
    let mut out: Vec<ApplyEntry> = Vec::new();
    let n = manifest.files.len();
    let mut i: usize = 0;
    assert(file_steps.take(0) =~= Seq::<Result<ApplyEntryView, Fault>>::empty());
    assert(apply_views(out@) =~= Seq::<ApplyEntryView>::empty());
    while i < n
        invariant
            i <= n == manifest.files.pairs().len(),
            file_steps.len() == n,
            file_steps == manifest.files.pairs().map_values(
                |kv: (Seq<char>, Seq<char>)| apply_step(fs, file_pair(repo_dir@, home@, kv.0, kv.1)),
            ),
            all == file_steps + dir_steps.flatten_alt(),
            apply_steps(repo_dir@, home@, manifest, fs) == all,
            collect_results(file_steps.take(i as int)) == Ok::<Seq<ApplyEntryView>, Fault>(
                apply_views(out@),
            ),
        decreases n - i,
    {
        let k = manifest.files.key_at(i);
        let v = manifest.files.value_at(i);
        let (repo_file, system_file) = file_pair_paths(repo_dir, home, k.as_str(), v.as_str());
        let shown = v.clone();
        let step = plan_file(fs, repo_file, system_file, shown);
        proof {
            assert(file_steps[i as int] == apply_step(fs, file_pair(repo_dir@, home@, k@, v@)));
            assert(file_steps.take(i + 1) =~= file_steps.take(i as int).push(file_steps[i as int]));
            lemma_collect_push(file_steps.take(i as int), file_steps[i as int]);
        }
        let ghost old_views = apply_views(out@);
        match step {
            Ok(e) => {
                out.push(e);
                assert(apply_views(out@) =~= old_views.push(out@.last()@));
            },
            Err(e) => {
                proof {
                    lemma_collect_err_extends(file_steps.take(i + 1), file_steps.skip(i + 1) + dir_steps.flatten_alt());
                    assert(file_steps.take(i + 1) + file_steps.skip(i + 1) =~= file_steps);
                    assert(file_steps.take(i + 1) + (file_steps.skip(i + 1) + dir_steps.flatten_alt()) =~= all);
                }
                return Err(e);
            },
        }
        i = i + 1;
    }
    assert(file_steps.take(n as int) =~= file_steps);
    let nd = manifest.directories.len();
    let mut j: usize = 0;
    assert(dir_steps.take(0).flatten_alt() =~= Seq::<Result<ApplyEntryView, Fault>>::empty());
    assert(file_steps + dir_steps.take(0).flatten_alt() =~= file_steps);
    while j < nd
        invariant
            j <= nd == manifest.directories.pairs().len(),
            dir_steps.len() == nd,
            dir_steps == manifest.directories.pairs().map_values(
                |kv: (Seq<char>, Seq<char>)| apply_dir_steps(repo_dir@, home@, fs, kv.0, kv.1),
            ),
            all == file_steps + dir_steps.flatten_alt(),
            apply_steps(repo_dir@, home@, manifest, fs) == all,
            collect_results(file_steps + dir_steps.take(j as int).flatten_alt()) == Ok::<
                Seq<ApplyEntryView>,
                Fault,
            >(apply_views(out@)),
        decreases nd - j,
    {
        let k = manifest.directories.key_at(j);
        let v = manifest.directories.value_at(j);
        let ghost before = file_steps + dir_steps.take(j as int).flatten_alt();
        assert(dir_steps.take(j + 1).drop_last() =~= dir_steps.take(j as int));
        assert(dir_steps.take(j + 1).flatten_alt() == dir_steps.take(j as int).flatten_alt()
            + dir_steps[j as int]);
        let r = plan_directory(repo_dir, home, fs, k.as_str(), v.as_str(), &mut out, Ghost(before));
        match r {
            Ok(()) => {
                assert(file_steps + dir_steps.take(j + 1).flatten_alt() =~= before + dir_steps[j as int]);
            },
            Err(e) => {
                proof {
                    let rest = dir_steps.skip(j + 1).flatten_alt();
                    lemma_collect_err_extends(before + dir_steps[j as int], rest);
                    lemma_flatten_alt_split(dir_steps, j + 1);
                    assert(dir_steps.take(j + 1).flatten_alt() + rest == dir_steps.flatten_alt());
                    assert(before + dir_steps[j as int] + rest =~= all);
                }
                return Err(e);
            },
        }
        j = j + 1;
    }
    assert(dir_steps.take(nd as int) =~= dir_steps);
    Ok(out)
}

fn plan_directory(
    repo_dir: &str,
    home: &str,
    fs: &FsView,
    k: &str,
    v: &str,
    out: &mut Vec<ApplyEntry>,
    Ghost(before): Ghost<Seq<Result<ApplyEntryView, Fault>>>,
) -> (r: Result<(), RootratError>)
    requires
        collect_results(before) == Ok::<Seq<ApplyEntryView>, Fault>(apply_views(old(out)@)),
    ensures
        match r {
            Ok(()) => collect_results(before + apply_dir_steps(repo_dir@, home@, fs, k@, v@)) == Ok::<
                Seq<ApplyEntryView>,
                Fault,
            >(apply_views(final(out)@)),
            Err(e) => collect_results(before + apply_dir_steps(repo_dir@, home@, fs, k@, v@))
                == Err::<Seq<ApplyEntryView>, Fault>(fault_of(e)),
        },
{
    let (repo_base, system_base) = dir_bases(repo_dir, home, k, v);
    let empty = PathSet::new();
    let repo_files: &PathSet = match fs.find_dir(repo_base.as_str()) {
        Some(di) => &fs.dirs[di].files,
        None => &empty,
    };
    let system_files: &PathSet = match fs.find_dir(system_base.as_str()) {
        Some(di) => &fs.dirs[di].files,
        None => &empty,
    };
    let ghost repo_listed = repo_files@;
    let ghost system_listed = system_files@;
    let ghost from_repo = repo_listed.map_values(
        |rel: Seq<char>| apply_step(fs, member_pair(repo_dir@, home@, k@, v@, rel)),
    );
    let ghost pred = |rel: Seq<char>| !repo_listed.contains(rel);
    let ghost only_system = system_listed.filter(pred).map_values(
        |rel: Seq<char>|
            Ok::<ApplyEntryView, Fault>(
                apply_entry(member_pair(repo_dir@, home@, k@, v@, rel), ApplyState::Deleted),
            ),
    );
    assert(apply_dir_steps(repo_dir@, home@, fs, k@, v@) == from_repo + only_system);
    let mut i: usize = 0;
    assert(before + from_repo.take(0) =~= before);
    while i < repo_files.len()
        invariant
            i <= repo_files@.len() == from_repo.len(),
            repo_listed == repo_files@,
            from_repo == repo_listed.map_values(
                |rel: Seq<char>| apply_step(fs, member_pair(repo_dir@, home@, k@, v@, rel)),
            ),
            repo_base@ == join(repo_dir@, k@),
            system_base@ == expand_tilde_of(v@, home@),
            apply_dir_steps(repo_dir@, home@, fs, k@, v@) == from_repo + only_system,
            collect_results(before + from_repo.take(i as int)) == Ok::<Seq<ApplyEntryView>, Fault>(
                apply_views(out@),
            ),
        decreases repo_files@.len() - i,
    {
        let rel = repo_files.at(i);
        let (display, repo_file, system_file) = member_paths(
            repo_base.as_str(),
            system_base.as_str(),
            v,
            rel.as_str(),
        );
        let step = plan_file(fs, repo_file, system_file, display);
        proof {
            assert(from_repo[i as int] == apply_step(fs, member_pair(repo_dir@, home@, k@, v@, rel@)));
            assert(before + from_repo.take(i + 1) =~= (before + from_repo.take(i as int)).push(from_repo[i as int]));
            lemma_collect_push(before + from_repo.take(i as int), from_repo[i as int]);
        }
        let ghost old_views = apply_views(out@);
        match step {
            Ok(e) => {
                out.push(e);
                assert(apply_views(out@) =~= old_views.push(out@.last()@));
            },
            Err(e) => {
                proof {
                    lemma_collect_err_extends(before + from_repo.take(i + 1), from_repo.skip(i + 1) + only_system);
                    assert(from_repo.take(i + 1) + from_repo.skip(i + 1) =~= from_repo);
                    assert(before + from_repo.take(i + 1) + (from_repo.skip(i + 1) + only_system) =~= before
                        + (from_repo + only_system));
                }
                return Err(e);
            },
        }
        i = i + 1;
    }
    assert(from_repo.take(from_repo.len() as int) =~= from_repo);
    let ghost base = before + from_repo;
    let ghost kept = system_listed.filter(pred);
    let mut t: usize = 0;
    let mut taken: usize = 0;
    assert(system_listed.take(0).filter(pred) =~= Seq::<Seq<char>>::empty()) by {
        reveal(Seq::filter);
    }
    assert(base + only_system.take(0) =~= base);
    while t < system_files.len()
        invariant
            t <= system_files@.len(),
            system_listed == system_files@,
            repo_listed == repo_files@,
            kept == system_listed.filter(pred),
            pred == (|rel: Seq<char>| !repo_listed.contains(rel)),
            only_system == kept.map_values(
                |rel: Seq<char>|
                    Ok::<ApplyEntryView, Fault>(
                        apply_entry(member_pair(repo_dir@, home@, k@, v@, rel), ApplyState::Deleted),
                    ),
            ),
            system_listed.take(t as int).filter(pred) == kept.take(taken as int),
            taken <= kept.len(),
            repo_base@ == join(repo_dir@, k@),
            system_base@ == expand_tilde_of(v@, home@),
            collect_results(base + only_system.take(taken as int)) == Ok::<Seq<ApplyEntryView>, Fault>(
                apply_views(out@),
            ),
        decreases system_files@.len() - t,
    {
        let rel = system_files.at(t);
        assert(system_listed.take(t + 1).drop_last() =~= system_listed.take(t as int));
        assert(system_listed.take(t + 1).last() == system_listed[t as int]);
        proof {
            reveal(Seq::filter);
            lemma_filter_prefix(system_listed, pred, t + 1, kept);
        }
        if !repo_files.contains(rel.as_str()) {
            let (display, repo_file, system_file) = member_paths(
                repo_base.as_str(),
                system_base.as_str(),
                v,
                rel.as_str(),
            );
            proof {
                assert(system_listed.take(t + 1).filter(pred) == kept.take(taken as int).push(system_listed[t as int]));
                assert(kept.take(taken + 1) == system_listed.take(t + 1).filter(pred));
                assert(kept[taken as int] == system_listed[t as int]) by {
                    assert(kept.take(taken + 1)[taken as int] == kept[taken as int]);
                }
                assert(only_system.take(taken + 1) =~= only_system.take(taken as int).push(only_system[taken as int]));
                assert(base + only_system.take(taken + 1) =~= (base + only_system.take(taken as int)).push(
                    only_system[taken as int],
                ));
                lemma_collect_push(base + only_system.take(taken as int), only_system[taken as int]);
            }
            let ghost old_views = apply_views(out@);
            assert(only_system[taken as int] == Ok::<ApplyEntryView, Fault>(
                apply_entry(member_pair(repo_dir@, home@, k@, v@, rel@), ApplyState::Deleted),
            ));
            out.push(ApplyEntry { system_path: display, state: ApplyState::Deleted, repo_file, system_file });
            assert(apply_views(out@) =~= old_views.push(out@.last()@));
            taken = taken + 1;
        } else {
            assert(system_listed.take(t + 1).filter(pred) == kept.take(taken as int));
        }
        t = t + 1;
    }
    assert(system_listed.take(system_listed.len() as int) =~= system_listed);
    assert(kept.take(taken as int).len() == taken);
    assert(taken == kept.len());
    assert(only_system.take(taken as int) =~= only_system);
    assert(base + only_system =~= before + apply_dir_steps(repo_dir@, home@, fs, k@, v@));
    Ok(())
}


/// The change that applying an entry makes: a created file is copied from
/// the repo with its directories made first, an updated one is copied over,
/// a deleted one is removed from the system when deletions are included;
/// unchanged and missing files are left alone.
pub open spec fn apply_action(e: ApplyEntryView, include_deletes: bool) -> Option<ActionView> {
    match e.state {
        ApplyState::Created => Some(ActionView::CopyCreatingParent { from: e.repo_file, to: e.system_file }),
        ApplyState::Updated => Some(ActionView::Copy { from: e.repo_file, to: e.system_file }),
        ApplyState::Deleted => if include_deletes {
            Some(ActionView::RemoveFile { path: e.system_file })
        } else {
            None
        },
        _ => None,
    }
}

/// The changes that carry out planned entries, in order. Without
/// `include_deletes`, the deletions are left out (as when applying without
/// asking, right after cloning).
pub fn actions(entries: &Vec<ApplyEntry>, include_deletes: bool) -> (acts: Vec<FsAction>)
    ensures
        action_views(acts@) == gather(apply_views(entries@), |e: ApplyEntryView| apply_action(e, include_deletes)),
{
    let ghost es = apply_views(entries@);
    let ghost f = |e: ApplyEntryView| apply_action(e, include_deletes);
    let mut acts: Vec<FsAction> = Vec::new();
    let mut i: usize = 0;
    assert(es.take(0) =~= Seq::<ApplyEntryView>::empty());
    assert(action_views(acts@) =~= Seq::<ActionView>::empty());
    while i < entries.len()
        invariant
            i <= entries.len(),
            es == apply_views(entries@),
            f == (|e: ApplyEntryView| apply_action(e, include_deletes)),
            action_views(acts@) == gather(es.take(i as int), f),
        decreases entries.len() - i,
    {
        let e = &entries[i];
        assert(es.take(i + 1).drop_last() =~= es.take(i as int));
        assert(es.take(i + 1).last() == e@);
        let ghost before = action_views(acts@);
        match e.state {
            ApplyState::Created => {
                acts.push(FsAction::CopyCreatingParent { from: e.repo_file.clone(), to: e.system_file.clone() });
                assert(action_views(acts@) =~= before.push(acts@.last()@));
            },
            ApplyState::Updated => {
                acts.push(FsAction::Copy { from: e.repo_file.clone(), to: e.system_file.clone() });
                assert(action_views(acts@) =~= before.push(acts@.last()@));
            },
            ApplyState::Deleted => {
                if include_deletes {
                    acts.push(FsAction::RemoveFile { path: e.system_file.clone() });
                    assert(action_views(acts@) =~= before.push(acts@.last()@));
                }
            },
            _ => {},
        }
        i = i + 1;
    }
    assert(es.take(entries.len() as int) =~= es);
    acts
}

/// Applies without asking, as after a clone: the plan, and the changes that
/// carry it out with deletions left out, since removing files from the
/// system unasked would be dangerous. Fails as [`plan`] does.
pub fn execute(repo_dir: &str, manifest: &Manifest, home: &str, fs: &FsView) -> (r: Result<
    (Vec<ApplyEntry>, Vec<FsAction>),
    RootratError,
>)
    ensures
        match r {
            Ok((es, acts)) => collect_results(apply_steps(repo_dir@, home@, manifest, fs)) == Ok::<
                Seq<ApplyEntryView>,
                Fault,
            >(apply_views(es@)) && action_views(acts@) == gather(
                apply_views(es@),
                |e: ApplyEntryView| apply_action(e, false),
            ),
            Err(e) => collect_results(apply_steps(repo_dir@, home@, manifest, fs)) == Err::<
                Seq<ApplyEntryView>,
                Fault,
            >(fault_of(e)),
        },
{
    match plan(repo_dir, manifest, home, fs) {
        Ok(es) => {
            let acts = actions(&es, false);
            Ok((es, acts))
        },
        Err(e) => Err(e),
    }
}


/// The shown paths of the entries in state `s`, in order.
pub open spec fn apply_paths_in(es: Seq<ApplyEntryView>, s: ApplyState) -> Seq<Seq<char>>
    decreases es.len(),
{
    if es.len() == 0 {
        Seq::empty()
    } else if es.last().state == s {
        apply_paths_in(es.drop_last(), s).push(es.last().system_path)
    } else {
        apply_paths_in(es.drop_last(), s)
    }
}

/// A plan grouped by state, as it is shown before asking: the shown paths
/// of each kind of change, in the plan's order, and how many files are
/// unchanged.
#[derive(Debug)]
pub struct ApplyEntrySummary {
    pub created: Vec<String>,
    pub updated: Vec<String>,
    pub deleted: Vec<String>,
    pub missing: Vec<String>,
    pub unchanged: usize,
}

/// Groups the entries of a plan by state (see [`ApplyEntrySummary`]).
pub fn summarize(entries: &Vec<ApplyEntry>) -> (r: ApplyEntrySummary)
    ensures
        crate::sorted::views(r.created@) == apply_paths_in(apply_views(entries@), ApplyState::Created),
        crate::sorted::views(r.updated@) == apply_paths_in(apply_views(entries@), ApplyState::Updated),
        crate::sorted::views(r.deleted@) == apply_paths_in(apply_views(entries@), ApplyState::Deleted),
        crate::sorted::views(r.missing@) == apply_paths_in(apply_views(entries@), ApplyState::MissingFromRepo),
        r.unchanged == apply_paths_in(apply_views(entries@), ApplyState::Unchanged).len(),
        crate::sorted::views(r.missing@) == apply_views(entries@).filter(
            |e: ApplyEntryView| e.state == ApplyState::MissingFromRepo,
        ).map_values(|e: ApplyEntryView| e.system_path),
        crate::sorted::views(r.deleted@) == apply_views(entries@).filter(
            |e: ApplyEntryView| e.state == ApplyState::Deleted,
        ).map_values(|e: ApplyEntryView| e.system_path),
        r.unchanged == apply_views(entries@).filter(|e: ApplyEntryView| e.state == ApplyState::Unchanged).len(),
{
    let ghost es = apply_views(entries@);
    let mut created: Vec<String> = Vec::new();
    let mut updated: Vec<String> = Vec::new();
    let mut deleted: Vec<String> = Vec::new();
    let mut missing: Vec<String> = Vec::new();
    let mut unchanged: usize = 0;
    let mut i: usize = 0;
    assert(es.take(0) =~= Seq::<ApplyEntryView>::empty());
    while i < entries.len()
        invariant
            i <= entries.len(),
            es == apply_views(entries@),
            crate::sorted::views(created@) == apply_paths_in(es.take(i as int), ApplyState::Created),
            crate::sorted::views(updated@) == apply_paths_in(es.take(i as int), ApplyState::Updated),
            crate::sorted::views(deleted@) == apply_paths_in(es.take(i as int), ApplyState::Deleted),
            crate::sorted::views(missing@) == apply_paths_in(es.take(i as int), ApplyState::MissingFromRepo),
            unchanged == apply_paths_in(es.take(i as int), ApplyState::Unchanged).len(),
            unchanged <= i,
        decreases entries.len() - i,
    {
        let e = &entries[i];
        assert(es.take(i + 1).drop_last() =~= es.take(i as int));
        assert(es.take(i + 1).last() == e@);
        let ghost old_created = crate::sorted::views(created@);
        let ghost old_updated = crate::sorted::views(updated@);
        let ghost old_deleted = crate::sorted::views(deleted@);
        let ghost old_missing = crate::sorted::views(missing@);
        match e.state {
            ApplyState::Created => {
                created.push(crate::manifest::owned(e.system_path.as_str()));
            },
            ApplyState::Updated => {
                updated.push(crate::manifest::owned(e.system_path.as_str()));
            },
            ApplyState::Deleted => {
                deleted.push(crate::manifest::owned(e.system_path.as_str()));
            },
            ApplyState::MissingFromRepo => {
                missing.push(crate::manifest::owned(e.system_path.as_str()));
            },
            ApplyState::Unchanged => {
                unchanged = unchanged + 1;
            },
            _ => {},
        }
        assert(crate::sorted::views(created@) =~= apply_paths_in(es.take(i + 1), ApplyState::Created));
        assert(crate::sorted::views(updated@) =~= apply_paths_in(es.take(i + 1), ApplyState::Updated));
        assert(crate::sorted::views(deleted@) =~= apply_paths_in(es.take(i + 1), ApplyState::Deleted));
        assert(crate::sorted::views(missing@) =~= apply_paths_in(es.take(i + 1), ApplyState::MissingFromRepo));
        i = i + 1;
    }
    assert(es.take(entries.len() as int) =~= es);
    assert(crate::sorted::views(created@) == apply_paths_in(es, ApplyState::Created));
    assert(crate::sorted::views(updated@) == apply_paths_in(es, ApplyState::Updated));
    assert(crate::sorted::views(deleted@) == apply_paths_in(es, ApplyState::Deleted));
    assert(crate::sorted::views(missing@) == apply_paths_in(es, ApplyState::MissingFromRepo));
    proof {
        summary_groups_by_state(es, ApplyState::MissingFromRepo);
        summary_groups_by_state(es, ApplyState::Deleted);
        summary_groups_by_state(es, ApplyState::Unchanged);
    }
    ApplyEntrySummary { created, updated, deleted, missing, unchanged }
}

/// Each group of the summary lists exactly the entries whose own state is
/// that group's state, by their shown paths and in plan order: filtering the
/// plan by state and keeping the shown paths gives the group.
pub proof fn summary_groups_by_state(es: Seq<ApplyEntryView>, s: ApplyState)
    ensures
        apply_paths_in(es, s) == es.filter(|e: ApplyEntryView| e.state == s).map_values(
            |e: ApplyEntryView| e.system_path,
        ),
    decreases es.len(),
{
    reveal(Seq::filter);
    if es.len() == 0 {
        assert(es.filter(|e: ApplyEntryView| e.state == s) =~= Seq::<ApplyEntryView>::empty());
    } else {
        summary_groups_by_state(es.drop_last(), s);
        es.drop_last().lemma_filter_push(es.last(), |e: ApplyEntryView| e.state == s);
        assert(es.drop_last().push(es.last()) =~= es);
        let f = es.drop_last().filter(|e: ApplyEntryView| e.state == s);
        assert(f.push(es.last()).map_values(|e: ApplyEntryView| e.system_path) =~= f.map_values(
            |e: ApplyEntryView| e.system_path,
        ).push(es.last().system_path));
    }
}

} // verus!
