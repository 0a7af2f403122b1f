//! How the commands' views of one file fit together, and what carrying out
//! a planned change leaves behind.
use vstd::prelude::*;
use vstd::utf8::{decode_utf8, decode_utf8_encode_utf8, valid_utf8};
use crate::commands::{
    collect_results, file_pair, gather, lemma_collect_ok, lemma_filter_all_or_none, lemma_filter_flatten, lemma_flatten_alt_all,
    lemma_flatten_alt_pairwise, member_pair, ActionView, Fault, FilePair,
};
use crate::commands::apply::{
    apply_action, apply_dir_steps, apply_entry, apply_step, apply_steps, ApplyEntryView, ApplyState,
};
use crate::commands::collect::{
    collect_action, collect_dir_steps, collect_entry, collect_step, collect_steps, CollectEntryView,
    CollectState,
};
use crate::manifest::Manifest;
use crate::commands::diff::{collect_shown, diff_dir_steps, diff_step, diff_steps, DiffEntryView};
use crate::commands::status::{status_step, FileState};
use crate::fsview::{FsView, Probe};

verus! {

/// The state that status gives `pair`, when reading succeeds.
pub open spec fn status_state(fs: &FsView, pair: FilePair) -> Option<FileState> {
    match status_step(fs, pair) {
        Ok(e) => Some(e.state),
        Err(_) => None,
    }
}

/// The state that apply plans for `pair`, when reading succeeds.
pub open spec fn apply_state(fs: &FsView, pair: FilePair) -> Option<ApplyState> {
    match apply_step(fs, pair) {
        Ok(e) => Some(e.state),
        Err(_) => None,
    }
}

/// The state that collect plans for `pair`, when reading succeeds.
pub open spec fn collect_state(fs: &FsView, pair: FilePair) -> Option<CollectState> {
    match collect_step(fs, pair) {
        Ok(e) => Some(e.state),
        Err(_) => None,
    }
}

/// Status, apply and collect agree on a file: status finds it unchanged
/// exactly when apply and collect would leave it alone as unchanged, and
/// modified exactly when both would copy it over; it is missing from the
/// repo for status exactly when it is for apply, and a file that status
/// finds missing from the system is one that collect finds missing there.
pub proof fn commands_agree(fs: &FsView, pair: FilePair)
    ensures
        (status_state(fs, pair) == Some(FileState::Unchanged)) == (apply_state(fs, pair) == Some(
            ApplyState::Unchanged,
        )),
        (status_state(fs, pair) == Some(FileState::Unchanged)) == (collect_state(fs, pair) == Some(
            CollectState::Unchanged,
        )),
        (status_state(fs, pair) == Some(FileState::Modified)) == (apply_state(fs, pair) == Some(
            ApplyState::Updated,
        )),
        (status_state(fs, pair) == Some(FileState::Modified)) == (collect_state(fs, pair) == Some(
            CollectState::Updated,
        )),
        (status_state(fs, pair) == Some(FileState::MissingFromRepo)) == (apply_state(fs, pair)
            == Some(ApplyState::MissingFromRepo)),
        status_state(fs, pair) == Some(FileState::MissingFromSystem) ==> collect_state(fs, pair)
            == Some(CollectState::MissingFromSystem),
{
}

/// Diff shows a file that both sides hold as UTF-8 text exactly when status
/// finds it modified (with no filter, or with a filter naming the file).
pub proof fn diff_shows_modified(fs: &FsView, pair: FilePair, repo_display: Seq<char>, filter: Option<Seq<char>>)
    requires
        filter is None || filter == Some(pair.display),
        fs.probe(pair.repo_file) matches Probe::Content(a) && valid_utf8(a),
        fs.probe(pair.system_file) matches Probe::Content(b) && valid_utf8(b),
    ensures
        diff_step(fs, pair, repo_display, filter) is Ok,
        (diff_step(fs, pair, repo_display, filter) matches Ok(Some(_))) == (status_state(fs, pair)
            == Some(FileState::Modified)),
{
    if let (Probe::Content(a), Probe::Content(b)) = (fs.probe(pair.repo_file), fs.probe(pair.system_file)) {
        if decode_utf8(a) == decode_utf8(b) {
            decode_utf8_encode_utf8(a);
            decode_utf8_encode_utf8(b);
        }
    }
}

/// A filter shows only the file it names: with a filter that names another
/// file, diff shows nothing for `pair`; with one that names it, diff shows
/// for it what it shows without a filter.
pub proof fn diff_filter_selects(fs: &FsView, pair: FilePair, repo_display: Seq<char>, f: Seq<char>)
    ensures
        f != pair.display ==> diff_step(fs, pair, repo_display, Some(f)) == Ok::<
            Option<crate::commands::diff::DiffEntryView>,
            Fault,
        >(None),
        f == pair.display ==> diff_step(fs, pair, repo_display, Some(f)) == diff_step(
            fs,
            pair,
            repo_display,
            None,
        ),
{
}

/// What a filter for the file `f` keeps of what a step shows: an entry for
/// `f`, and nothing else.
pub open spec fn keep_for(r: Result<Option<DiffEntryView>, Fault>, f: Seq<char>) -> Result<
    Option<DiffEntryView>,
    Fault,
> {
    match r {
        Ok(Some(e)) => if e.system_path == f {
            Ok(Some(e))
        } else {
            Ok(None)
        },
        other => other,
    }
}

proof fn lemma_shown_filtered(
    a: Seq<Result<Option<DiffEntryView>, Fault>>,
    b: Seq<Result<Option<DiffEntryView>, Fault>>,
    f: Seq<char>,
    all: Seq<DiffEntryView>,
)
    requires
        a.len() == b.len(),
        forall|i: int| 0 <= i < a.len() && (#[trigger] a[i]) is Ok ==> b[i] == keep_for(a[i], f),
        collect_shown(a) == Ok::<Seq<DiffEntryView>, Fault>(all),
    ensures
        collect_shown(b) == Ok::<Seq<DiffEntryView>, Fault>(all.filter(|e: DiffEntryView| e.system_path == f)),
    decreases a.len(),
{
    reveal(Seq::filter);
    let pred = |e: DiffEntryView| e.system_path == f;
    if a.len() == 0 {
        assert(all =~= Seq::<DiffEntryView>::empty());
    } else {
        let ai = a.drop_last();
        let bi = b.drop_last();
        match collect_shown(ai) {
            Ok(w) => {
                assert forall|i: int| 0 <= i < ai.len() && (#[trigger] ai[i]) is Ok implies bi[i]
                    == keep_for(ai[i], f) by {
                    assert(ai[i] == a[i] && bi[i] == b[i]);
                }
                lemma_shown_filtered(ai, bi, f, w);
                assert(a.last() == a[a.len() - 1]);
                assert(b.last() == b[b.len() - 1]);
                match a.last() {
                    Ok(Some(x)) => {
                        assert(all == w.push(x));
                        assert(all.drop_last() =~= w);
                    },
                    Ok(None) => {},
                    Err(_) => {},
                }
            },
            Err(_) => {},
        }
    }
}

/// A step of diff that shows something shows it under the pair's path.
proof fn lemma_diff_step_shown(fs: &FsView, pair: FilePair, d: Seq<char>, f: Seq<char>)
    ensures
        diff_step(fs, pair, d, None) is Ok ==> diff_step(fs, pair, d, Some(f)) == keep_for(
            diff_step(fs, pair, d, None),
            f,
        ),
{
    diff_filter_selects(fs, pair, d, f);
}

/// Diff with a filter shows, of all that diff shows without one, exactly
/// the entries for the file the filter names, in the same order; nothing
/// when it names no tracked file.
pub proof fn diff_filter_law(
    repo_dir: Seq<char>,
    home: Seq<char>,
    m: &Manifest,
    fs: &FsView,
    f: Seq<char>,
    all: Seq<DiffEntryView>,
)
    requires
        collect_shown(diff_steps(repo_dir, home, m, fs, None)) == Ok::<Seq<DiffEntryView>, Fault>(all),
    ensures
        collect_shown(diff_steps(repo_dir, home, m, fs, Some(f))) == Ok::<Seq<DiffEntryView>, Fault>(
            all.filter(|e: DiffEntryView| e.system_path == f),
        ),
{
    let fa = m.files.pairs().map_values(
        |kv: (Seq<char>, Seq<char>)| diff_step(fs, file_pair(repo_dir, home, kv.0, kv.1), kv.0, None),
    );
    let fb = m.files.pairs().map_values(
        |kv: (Seq<char>, Seq<char>)| diff_step(fs, file_pair(repo_dir, home, kv.0, kv.1), kv.0, Some(f)),
    );
    let da = m.directories.pairs().map_values(
        |kv: (Seq<char>, Seq<char>)| diff_dir_steps(repo_dir, home, fs, kv.0, kv.1, None),
    );
    let db = m.directories.pairs().map_values(
        |kv: (Seq<char>, Seq<char>)| diff_dir_steps(repo_dir, home, fs, kv.0, kv.1, Some(f)),
    );
    let p = |x: Result<Option<DiffEntryView>, Fault>, y: Result<Option<DiffEntryView>, Fault>|
        x is Ok ==> y == keep_for(x, f);
    assert forall|i: int| 0 <= i < da.len() implies (#[trigger] da[i]).len() == db[i].len() by {}
    assert forall|i: int, j: int| 0 <= i < da.len() && 0 <= j < da[i].len() implies p(
        #[trigger] da[i][j],
        db[i][j],
    ) by {
        let kv = m.directories.pairs()[i];
        let rel = crate::commands::status::dir_members(repo_dir, home, fs, kv.0, kv.1)[j];
        lemma_diff_step_shown(fs, member_pair(repo_dir, home, kv.0, kv.1, rel), kv.0 + "/"@ + rel, f);
    }
    lemma_flatten_alt_pairwise(da, db, p);
    let a = fa + da.flatten_alt();
    let b = fb + db.flatten_alt();
    assert(diff_steps(repo_dir, home, m, fs, None) == a);
    assert(diff_steps(repo_dir, home, m, fs, Some(f)) == b);
    assert forall|i: int| 0 <= i < a.len() && (#[trigger] a[i]) is Ok implies b[i] == keep_for(a[i], f) by {
        if i < fa.len() {
            let kv = m.files.pairs()[i];
            lemma_diff_step_shown(fs, file_pair(repo_dir, home, kv.0, kv.1), kv.0, f);
            assert(a[i] == fa[i] && b[i] == fb[i]);
        } else {
            assert(a[i] == da.flatten_alt()[i - fa.len()]);
            assert(b[i] == db.flatten_alt()[i - fa.len()]);
            assert(p(da.flatten_alt()[i - fa.len()], db.flatten_alt()[i - fa.len()]));
        }
    }
    lemma_shown_filtered(a, b, f, all);
}

/// What `after` shows once the change `act` was carried out on `before`: a
/// copied file's target holds what its source held, and its source is
/// unchanged; a removed file is gone.
pub open spec fn performed(before: &FsView, after: &FsView, act: ActionView) -> bool {
    match act {
        ActionView::CopyCreatingParent { from, to } => after.probe(to) == before.probe(from)
            && after.probe(from) == before.probe(from),
        ActionView::Copy { from, to } => after.probe(to) == before.probe(from) && after.probe(from)
            == before.probe(from),
        ActionView::RemoveFile { path } => after.probe(path) is Absent,
    }
}

/// Applying settles a file: once the change that apply plans for a file
/// whose repo copy can be read is carried out, status finds the file
/// unchanged and neither apply nor collect would touch it again.
pub proof fn apply_settles(before: &FsView, after: &FsView, pair: FilePair, include_deletes: bool)
    requires
        before.probe(pair.repo_file) is Content,
        apply_step(before, pair) matches Ok(e) && apply_action(e, include_deletes) matches Some(act)
            && performed(before, after, act),
    ensures
        status_state(after, pair) == Some(FileState::Unchanged),
        apply_state(after, pair) == Some(ApplyState::Unchanged),
        collect_state(after, pair) == Some(CollectState::Unchanged),
{
}

/// Collecting settles a file: once the change that collect plans for a file
/// whose system copy can be read is carried out, status finds the file
/// unchanged and neither apply nor collect would touch it again.
pub proof fn collect_settles(before: &FsView, after: &FsView, pair: FilePair)
    requires
        before.probe(pair.system_file) is Content,
        collect_step(before, pair) matches Ok(e) && collect_action(e) matches Some(act) && performed(
            before,
            after,
            act,
        ),
    ensures
        status_state(after, pair) == Some(FileState::Unchanged),
        apply_state(after, pair) == Some(ApplyState::Unchanged),
        collect_state(after, pair) == Some(CollectState::Unchanged),
{
}

/// The path that a change writes or removes.
pub open spec fn target_of(a: ActionView) -> Seq<char> {
    match a {
        ActionView::CopyCreatingParent { to, .. } => to,
        ActionView::Copy { to, .. } => to,
        ActionView::RemoveFile { path } => path,
    }
}

/// The path that a change reads, if any.
pub open spec fn source_of(a: ActionView) -> Option<Seq<char>> {
    match a {
        ActionView::CopyCreatingParent { from, .. } => Some(from),
        ActionView::Copy { from, .. } => Some(from),
        ActionView::RemoveFile { .. } => None,
    }
}

/// What `p` holds once the changes `acts` were carried out, in order, on
/// `before`: a copy makes its target hold what its source holds at that
/// moment; a removal leaves nothing.
pub open spec fn probe_after(before: &FsView, acts: Seq<ActionView>, p: Seq<char>) -> Probe
    decreases acts.len(),
{
    if acts.len() == 0 {
        before.probe(p)
    } else if target_of(acts.last()) != p {
        probe_after(before, acts.drop_last(), p)
    } else {
        match source_of(acts.last()) {
            Some(from) => probe_after(before, acts.drop_last(), from),
            None => Probe::Absent,
        }
    }
}

/// What `p` holds after the single change `a` on `before`.
pub open spec fn effect(before: &FsView, a: ActionView, p: Seq<char>) -> Probe {
    if target_of(a) != p {
        before.probe(p)
    } else {
        match source_of(a) {
            Some(from) => before.probe(from),
            None => Probe::Absent,
        }
    }
}

/// A path that no change touches holds what it held.
proof fn lemma_untouched<T>(before: &FsView, s: Seq<T>, f: spec_fn(T) -> Option<ActionView>, p: Seq<char>)
    requires
        forall|k: int| 0 <= k < s.len() ==> (#[trigger] f(s[k]) matches Some(a) ==> target_of(a) != p),
    ensures
        probe_after(before, gather(s, f), p) == before.probe(p),
    decreases s.len(),
{
    if s.len() > 0 {
        let init = s.drop_last();
        assert forall|k: int| 0 <= k < init.len() implies (#[trigger] f(init[k]) matches Some(a)
            ==> target_of(a) != p) by {
            assert(init[k] == s[k]);
        }
        lemma_untouched(before, init, f, p);
        assert(f(s[s.len() - 1]) == f(s.last()));
        match f(s.last()) {
            Some(a) => {
                assert(gather(s, f) == gather(init, f).push(a));
                assert(gather(s, f).drop_last() =~= gather(init, f));
            },
            None => {},
        }
    }
}

/// A path that one change alone touches, whose source no change touches,
/// holds what that change leaves.
proof fn lemma_touched_once<T>(
    before: &FsView,
    s: Seq<T>,
    f: spec_fn(T) -> Option<ActionView>,
    i: int,
    p: Seq<char>,
)
    requires
        0 <= i < s.len(),
        forall|k: int| 0 <= k < s.len() && k != i ==> (#[trigger] f(s[k]) matches Some(a) ==> target_of(a) != p),
        f(s[i]) matches Some(a) ==> (source_of(a) matches Some(from) ==> forall|k: int| 0 <= k < s.len()
            ==> (#[trigger] f(s[k]) matches Some(b) ==> target_of(b) != from)),
    ensures
        probe_after(before, gather(s, f), p) == match f(s[i]) {
            Some(a) => effect(before, a, p),
            None => before.probe(p),
        },
    decreases s.len(),
{
    let init = s.drop_last();
    let last = s.len() - 1;
    assert(f(s[last]) == f(s.last()));
    if i < last {
        assert forall|k: int| 0 <= k < init.len() && k != i implies (#[trigger] f(init[k]) matches Some(a)
            ==> target_of(a) != p) by {
            assert(init[k] == s[k]);
        }
        assert(init[i] == s[i]);
        if let Some(a) = f(s[i]) {
            if let Some(from) = source_of(a) {
                assert forall|k: int| 0 <= k < init.len() implies (#[trigger] f(init[k]) matches Some(b)
                    ==> target_of(b) != from) by {
                    assert(init[k] == s[k]);
                }
            }
        }
        lemma_touched_once(before, init, f, i, p);
        match f(s.last()) {
            Some(a) => {
                assert(gather(s, f).drop_last() =~= gather(init, f));
            },
            None => {},
        }
    } else {
        assert forall|k: int| 0 <= k < init.len() implies (#[trigger] f(init[k]) matches Some(a)
            ==> target_of(a) != p) by {
            assert(init[k] == s[k]);
        }
        lemma_untouched(before, init, f, p);
        match f(s.last()) {
            Some(a) => {
                assert(gather(s, f).drop_last() =~= gather(init, f));
                if let Some(from) = source_of(a) {
                    assert forall|k: int| 0 <= k < init.len() implies (#[trigger] f(init[k]) matches Some(b)
                        ==> target_of(b) != from) by {
                        assert(init[k] == s[k]);
                    }
                    lemma_untouched(before, init, f, from);
                }
            },
            None => {},
        }
    }
}

/// The pair that an entry of an apply plan is about.
pub open spec fn apply_pair(e: ApplyEntryView) -> FilePair {
    FilePair { display: e.system_path, repo_file: e.repo_file, system_file: e.system_file }
}

/// Whether a step of an apply plan is a deletion or what apply plans for
/// its own pair.
pub open spec fn apply_step_fits(fs: &FsView, r: Result<ApplyEntryView, Fault>) -> bool {
    match r {
        Ok(e) => e.state == ApplyState::Deleted || apply_step(fs, apply_pair(e)) == Ok::<
            ApplyEntryView,
            Fault,
        >(e),
        Err(_) => true,
    }
}

proof fn lemma_apply_steps_fit(repo_dir: Seq<char>, home: Seq<char>, m: &Manifest, fs: &FsView)
    ensures
        forall|k: int| 0 <= k < apply_steps(repo_dir, home, m, fs).len() ==> apply_step_fits(
            fs,
            #[trigger] apply_steps(repo_dir, home, m, fs)[k],
        ),
{
    let files = m.files.pairs().map_values(
        |kv: (Seq<char>, Seq<char>)| apply_step(fs, crate::commands::file_pair(repo_dir, home, kv.0, kv.1)),
    );
    let dirs = m.directories.pairs().map_values(
        |kv: (Seq<char>, Seq<char>)| apply_dir_steps(repo_dir, home, fs, kv.0, kv.1),
    );
    let pf = |r: Result<ApplyEntryView, Fault>| apply_step_fits(fs, r);
    assert forall|i: int, j: int| 0 <= i < dirs.len() && 0 <= j < dirs[i].len() implies pf(
        #[trigger] dirs[i][j],
    ) by {
        let kv = m.directories.pairs()[i];
        let repo_files = fs.listing(crate::paths::join(repo_dir, kv.0));
        let system_files = fs.listing(crate::manifest::expand_tilde_of(kv.1, home));
        let a = repo_files.map_values(
            |rel: Seq<char>| apply_step(fs, member_pair(repo_dir, home, kv.0, kv.1, rel)),
        );
        let b = system_files.filter(|rel: Seq<char>| !repo_files.contains(rel)).map_values(
            |rel: Seq<char>|
                Ok::<ApplyEntryView, Fault>(
                    apply_entry(member_pair(repo_dir, home, kv.0, kv.1, rel), ApplyState::Deleted),
                ),
        );
        assert(dirs[i] == a + b);
        if j < a.len() {
            assert(dirs[i][j] == a[j]);
        } else {
            assert(dirs[i][j] == b[j - a.len()]);
        }
    }
    lemma_flatten_alt_all(dirs, pf);
    let all = files + dirs.flatten_alt();
    assert(apply_steps(repo_dir, home, m, fs) == all);
    assert forall|k: int| 0 <= k < all.len() implies apply_step_fits(fs, #[trigger] all[k]) by {
        if k < files.len() {
            assert(all[k] == files[k]);
        } else {
            assert(all[k] == dirs.flatten_alt()[k - files.len()]);
            assert(pf(dirs.flatten_alt()[k - files.len()]));
        }
    }
}

/// Applying settles every file of a plan: once all the changes of the plan
/// are carried out, status finds each file of the plan unchanged, except
/// those missing from the repo and those planned as deletions, and planning
/// apply or collect again leaves each of them alone as unchanged; each
/// deleted file is gone when deletions were included. This holds when the
/// plan's system files are distinct and none of them is a repo file of the
/// plan, and each file to copy can be read.
pub proof fn apply_plan_settles(
    repo_dir: Seq<char>,
    home: Seq<char>,
    m: &Manifest,
    before: &FsView,
    after: &FsView,
    es: Seq<ApplyEntryView>,
    include_deletes: bool,
)
    requires
        collect_results(apply_steps(repo_dir, home, m, before)) == Ok::<Seq<ApplyEntryView>, Fault>(es),
        forall|i: int, j: int| 0 <= i < es.len() && 0 <= j < es.len() && i != j ==> #[trigger] es[i].system_file
            != #[trigger] es[j].system_file,
        forall|i: int, j: int| 0 <= i < es.len() && 0 <= j < es.len() ==> #[trigger] es[i].system_file
            != #[trigger] es[j].repo_file,
        forall|i: int| 0 <= i < es.len() && (#[trigger] es[i].state == ApplyState::Created || es[i].state
            == ApplyState::Updated) ==> before.probe(es[i].repo_file) is Content,
        forall|p: Seq<char>| #[trigger] after.probe(p) == probe_after(
            before,
            gather(es, |e: ApplyEntryView| apply_action(e, include_deletes)),
            p,
        ),
    ensures
        forall|i: int| 0 <= i < es.len() && #[trigger] es[i].state != ApplyState::MissingFromRepo
            && es[i].state != ApplyState::Deleted ==> status_state(after, apply_pair(es[i])) == Some(
            FileState::Unchanged,
        ) && apply_state(after, apply_pair(es[i])) == Some(ApplyState::Unchanged) && collect_state(
            after,
            apply_pair(es[i]),
        ) == Some(CollectState::Unchanged),
        forall|i: int| 0 <= i < es.len() && #[trigger] es[i].state == ApplyState::MissingFromRepo
            ==> apply_state(after, apply_pair(es[i])) == Some(ApplyState::MissingFromRepo),
        include_deletes ==> forall|i: int| 0 <= i < es.len() && #[trigger] es[i].state == ApplyState::Deleted
            ==> after.probe(es[i].system_file) is Absent,
{
    let steps = apply_steps(repo_dir, home, m, before);
    lemma_collect_ok(steps, es);
    lemma_apply_steps_fit(repo_dir, home, m, before);
    let f = |e: ApplyEntryView| apply_action(e, include_deletes);
    let acts = gather(es, f);
    assert forall|i: int| 0 <= i < es.len() implies #[trigger] apply_step_fits(before, Ok::<ApplyEntryView, Fault>(es[i])) by {
        assert(steps[i] == Ok::<ApplyEntryView, Fault>(es[i]));
    }
    assert forall|i: int| 0 <= i < es.len() && #[trigger] es[i].state != ApplyState::MissingFromRepo
        && es[i].state != ApplyState::Deleted implies status_state(after, apply_pair(es[i])) == Some(
        FileState::Unchanged,
    ) && apply_state(after, apply_pair(es[i])) == Some(ApplyState::Unchanged) && collect_state(
        after,
        apply_pair(es[i]),
    ) == Some(CollectState::Unchanged) by {
        let e = es[i];
        assert(apply_step_fits(before, Ok::<ApplyEntryView, Fault>(es[i])));
        assert forall|k: int| 0 <= k < es.len() implies (#[trigger] f(es[k]) matches Some(a)
            ==> target_of(a) != e.repo_file) by {
            assert(es[k].system_file != es[i].repo_file);
        }
        lemma_untouched(before, es, f, e.repo_file);
        assert forall|k: int| 0 <= k < es.len() && k != i implies (#[trigger] f(es[k]) matches Some(a)
            ==> target_of(a) != e.system_file) by {
            assert(es[k].system_file != es[i].system_file);
        }
        lemma_touched_once(before, es, f, i, e.system_file);
        assert(after.probe(e.repo_file) == before.probe(e.repo_file));
        commands_agree(after, apply_pair(es[i]));
    }
    assert forall|i: int| 0 <= i < es.len() && #[trigger] es[i].state == ApplyState::MissingFromRepo
        implies apply_state(after, apply_pair(es[i])) == Some(ApplyState::MissingFromRepo) by {
        let e = es[i];
        assert(apply_step_fits(before, Ok::<ApplyEntryView, Fault>(es[i])));
        assert forall|k: int| 0 <= k < es.len() implies (#[trigger] f(es[k]) matches Some(a)
            ==> target_of(a) != e.repo_file) by {
            assert(es[k].system_file != es[i].repo_file);
        }
        lemma_untouched(before, es, f, e.repo_file);
    }
    if include_deletes {
        assert forall|i: int| 0 <= i < es.len() && #[trigger] es[i].state == ApplyState::Deleted
            implies after.probe(es[i].system_file) is Absent by {
            assert forall|k: int| 0 <= k < es.len() && k != i implies (#[trigger] f(es[k]) matches Some(a)
                ==> target_of(a) != es[i].system_file) by {
                assert(es[k].system_file != es[i].system_file);
            }
            lemma_touched_once(before, es, f, i, es[i].system_file);
        }
    }
}

/// The pair that an entry of a collect plan is about.
pub open spec fn collect_pair(e: CollectEntryView) -> FilePair {
    FilePair { display: e.system_path, repo_file: e.repo_file, system_file: e.system_file }
}

/// Whether a step of a collect plan is a deletion or what collect plans for
/// its own pair.
pub open spec fn collect_step_fits(fs: &FsView, r: Result<CollectEntryView, Fault>) -> bool {
    match r {
        Ok(e) => e.state == CollectState::Deleted || collect_step(fs, collect_pair(e)) == Ok::<
            CollectEntryView,
            Fault,
        >(e),
        Err(_) => true,
    }
}

proof fn lemma_collect_steps_fit(repo_dir: Seq<char>, home: Seq<char>, m: &Manifest, fs: &FsView)
    ensures
        forall|k: int| 0 <= k < collect_steps(repo_dir, home, m, fs).len() ==> collect_step_fits(
            fs,
            #[trigger] collect_steps(repo_dir, home, m, fs)[k],
        ),
{
    let files = m.files.pairs().map_values(
        |kv: (Seq<char>, Seq<char>)| collect_step(fs, crate::commands::file_pair(repo_dir, home, kv.0, kv.1)),
    );
    let dirs = m.directories.pairs().map_values(
        |kv: (Seq<char>, Seq<char>)| collect_dir_steps(repo_dir, home, fs, kv.0, kv.1),
    );
    let pf = |r: Result<CollectEntryView, Fault>| collect_step_fits(fs, r);
    assert forall|i: int, j: int| 0 <= i < dirs.len() && 0 <= j < dirs[i].len() implies pf(
        #[trigger] dirs[i][j],
    ) by {
        let kv = m.directories.pairs()[i];
        let repo_files = fs.listing(crate::paths::join(repo_dir, kv.0));
        let system_files = fs.listing(crate::manifest::expand_tilde_of(kv.1, home));
        let a = system_files.map_values(
            |rel: Seq<char>| collect_step(fs, member_pair(repo_dir, home, kv.0, kv.1, rel)),
        );
        let b = repo_files.filter(|rel: Seq<char>| !system_files.contains(rel)).map_values(
            |rel: Seq<char>|
                Ok::<CollectEntryView, Fault>(
                    collect_entry(member_pair(repo_dir, home, kv.0, kv.1, rel), CollectState::Deleted),
                ),
        );
        assert(dirs[i] == a + b);
        if j < a.len() {
            assert(dirs[i][j] == a[j]);
        } else {
            assert(dirs[i][j] == b[j - a.len()]);
        }
    }
    lemma_flatten_alt_all(dirs, pf);
    let all = files + dirs.flatten_alt();
    assert(collect_steps(repo_dir, home, m, fs) == all);
    assert forall|k: int| 0 <= k < all.len() implies collect_step_fits(fs, #[trigger] all[k]) by {
        if k < files.len() {
            assert(all[k] == files[k]);
        } else {
            assert(all[k] == dirs.flatten_alt()[k - files.len()]);
            assert(pf(dirs.flatten_alt()[k - files.len()]));
        }
    }
}

/// Collecting settles every file of a plan: once all the changes of the
/// plan are carried out, status finds each file of the plan unchanged,
/// except those missing from the system and those planned as deletions, and
/// planning apply or collect again leaves each of them alone as unchanged;
/// each deleted repo copy is gone. This holds when the plan's repo files are
/// distinct and none of them is a system file of the plan, and each file to
/// copy can be read.
pub proof fn collect_plan_settles(
    repo_dir: Seq<char>,
    home: Seq<char>,
    m: &Manifest,
    before: &FsView,
    after: &FsView,
    es: Seq<CollectEntryView>,
)
    requires
        collect_results(collect_steps(repo_dir, home, m, before)) == Ok::<Seq<CollectEntryView>, Fault>(es),
        forall|i: int, j: int| 0 <= i < es.len() && 0 <= j < es.len() && i != j ==> #[trigger] es[i].repo_file
            != #[trigger] es[j].repo_file,
        forall|i: int, j: int| 0 <= i < es.len() && 0 <= j < es.len() ==> #[trigger] es[i].repo_file
            != #[trigger] es[j].system_file,
        forall|i: int| 0 <= i < es.len() && (#[trigger] es[i].state == CollectState::Created || es[i].state
            == CollectState::Updated) ==> before.probe(es[i].system_file) is Content,
        forall|p: Seq<char>| #[trigger] after.probe(p) == probe_after(
            before,
            gather(es, |e: CollectEntryView| collect_action(e)),
            p,
        ),
    ensures
        forall|i: int| 0 <= i < es.len() && #[trigger] es[i].state != CollectState::MissingFromSystem
            && es[i].state != CollectState::Deleted ==> status_state(after, collect_pair(es[i])) == Some(
            FileState::Unchanged,
        ) && apply_state(after, collect_pair(es[i])) == Some(ApplyState::Unchanged) && collect_state(
            after,
            collect_pair(es[i]),
        ) == Some(CollectState::Unchanged),
        forall|i: int| 0 <= i < es.len() && #[trigger] es[i].state == CollectState::Deleted
            ==> after.probe(es[i].repo_file) is Absent,
        forall|i: int| 0 <= i < es.len() && #[trigger] es[i].state == CollectState::MissingFromSystem
            ==> collect_state(after, collect_pair(es[i])) == Some(CollectState::MissingFromSystem),
{
    let steps = collect_steps(repo_dir, home, m, before);
    lemma_collect_ok(steps, es);
    lemma_collect_steps_fit(repo_dir, home, m, before);
    let f = |e: CollectEntryView| collect_action(e);
    assert forall|i: int| 0 <= i < es.len() implies #[trigger] collect_step_fits(before, Ok::<CollectEntryView, Fault>(es[i])) by {
        assert(steps[i] == Ok::<CollectEntryView, Fault>(es[i]));
    }
    assert forall|i: int| 0 <= i < es.len() && #[trigger] es[i].state != CollectState::MissingFromSystem
        && es[i].state != CollectState::Deleted implies status_state(after, collect_pair(es[i])) == Some(
        FileState::Unchanged,
    ) && apply_state(after, collect_pair(es[i])) == Some(ApplyState::Unchanged) && collect_state(
        after,
        collect_pair(es[i]),
    ) == Some(CollectState::Unchanged) by {
        let e = es[i];
        assert(collect_step_fits(before, Ok::<CollectEntryView, Fault>(es[i])));
        assert forall|k: int| 0 <= k < es.len() implies (#[trigger] f(es[k]) matches Some(a)
            ==> target_of(a) != e.system_file) by {
            assert(es[k].repo_file != es[i].system_file);
        }
        lemma_untouched(before, es, f, e.system_file);
        assert forall|k: int| 0 <= k < es.len() && k != i implies (#[trigger] f(es[k]) matches Some(a)
            ==> target_of(a) != e.repo_file) by {
            assert(es[k].repo_file != es[i].repo_file);
        }
        lemma_touched_once(before, es, f, i, e.repo_file);
        assert(after.probe(e.system_file) == before.probe(e.system_file));
        commands_agree(after, collect_pair(es[i]));
    }
    assert forall|i: int| 0 <= i < es.len() && #[trigger] es[i].state == CollectState::MissingFromSystem
        implies collect_state(after, collect_pair(es[i])) == Some(CollectState::MissingFromSystem) by {
        let e = es[i];
        assert(collect_step_fits(before, Ok::<CollectEntryView, Fault>(es[i])));
        assert forall|k: int| 0 <= k < es.len() implies (#[trigger] f(es[k]) matches Some(a)
            ==> target_of(a) != e.system_file) by {
            assert(es[k].repo_file != es[i].system_file);
        }
        lemma_untouched(before, es, f, e.system_file);
    }
    assert forall|i: int| 0 <= i < es.len() && #[trigger] es[i].state == CollectState::Deleted
        implies after.probe(es[i].repo_file) is Absent by {
        assert forall|k: int| 0 <= k < es.len() && k != i implies (#[trigger] f(es[k]) matches Some(a)
            ==> target_of(a) != es[i].repo_file) by {
            assert(es[k].repo_file != es[i].repo_file);
        }
        lemma_touched_once(before, es, f, i, es[i].repo_file);
    }
}

/// An entry of an apply plan once the plan is carried out: unchanged,
/// unless it was missing from the repo.
pub open spec fn settle_apply(e: ApplyEntryView) -> ApplyEntryView {
    if e.state == ApplyState::MissingFromRepo {
        e
    } else {
        ApplyEntryView { state: ApplyState::Unchanged, ..e }
    }
}

/// Whether the listings of the tracked directories in `after` are what
/// applying with deletions leaves: each repo copy lists what it listed, and
/// each directory on the system lists what its repo copy lists.
pub open spec fn apply_listings_settled(
    repo_dir: Seq<char>,
    home: Seq<char>,
    m: &Manifest,
    before: &FsView,
    after: &FsView,
) -> bool {
    forall|i: int| 0 <= i < m.directories.pairs().len() ==> {
        let kv = #[trigger] m.directories.pairs()[i];
        &&& after.listing(crate::paths::join(repo_dir, kv.0)) == before.listing(crate::paths::join(repo_dir, kv.0))
        &&& after.listing(crate::manifest::expand_tilde_of(kv.1, home)) == before.listing(
            crate::paths::join(repo_dir, kv.0),
        )
    }
}

proof fn lemma_apply_entry_after(
    before: &FsView,
    after: &FsView,
    es: Seq<ApplyEntryView>,
    pair: FilePair,
    v: ApplyEntryView,
)
    requires
        forall|i: int| 0 <= i < es.len() && #[trigger] es[i].state != ApplyState::MissingFromRepo
            && es[i].state != ApplyState::Deleted ==> apply_state(after, apply_pair(es[i])) == Some(
            ApplyState::Unchanged,
        ),
        forall|i: int| 0 <= i < es.len() && #[trigger] es[i].state == ApplyState::MissingFromRepo
            ==> apply_state(after, apply_pair(es[i])) == Some(ApplyState::MissingFromRepo),
        apply_step(before, pair) == Ok::<ApplyEntryView, Fault>(v),
        es.contains(v),
        v.state != ApplyState::Deleted,
    ensures
        apply_step(after, pair) == Ok::<ApplyEntryView, Fault>(settle_apply(v)),
{
    let k = choose|k: int| 0 <= k < es.len() && es[k] == v;
    assert(apply_pair(v) == pair);
    if v.state == ApplyState::MissingFromRepo {
        assert(es[k].state == ApplyState::MissingFromRepo);
    } else {
        assert(es[k].state != ApplyState::MissingFromRepo && es[k].state != ApplyState::Deleted);
    }
}

/// The steps for the tracked files, evaluated on `fs`.
pub open spec fn apply_file_steps(repo_dir: Seq<char>, home: Seq<char>, m: &Manifest, fs: &FsView) -> Seq<
    Result<ApplyEntryView, Fault>,
> {
    m.files.pairs().map_values(
        |kv: (Seq<char>, Seq<char>)| apply_step(fs, crate::commands::file_pair(repo_dir, home, kv.0, kv.1)),
    )
}

/// The steps for the files of each tracked directory's repo copy, as
/// `listed` lists them, evaluated on `fs`.
pub open spec fn apply_member_steps(
    repo_dir: Seq<char>,
    home: Seq<char>,
    m: &Manifest,
    listed: &FsView,
    fs: &FsView,
) -> Seq<Seq<Result<ApplyEntryView, Fault>>> {
    m.directories.pairs().map_values(
        |kv: (Seq<char>, Seq<char>)|
            listed.listing(crate::paths::join(repo_dir, kv.0)).map_values(
                |rel: Seq<char>| apply_step(fs, member_pair(repo_dir, home, kv.0, kv.1, rel)),
            ),
    )
}

/// Whether a step is no deletion.
pub open spec fn no_deletion(r: Result<ApplyEntryView, Fault>) -> bool {
    match r {
        Ok(x) => x.state != ApplyState::Deleted,
        Err(_) => true,
    }
}

proof fn lemma_apply_steps_without_deletions(repo_dir: Seq<char>, home: Seq<char>, m: &Manifest, fs: &FsView)
    ensures
        apply_steps(repo_dir, home, m, fs).filter(|r: Result<ApplyEntryView, Fault>| no_deletion(r))
            == apply_file_steps(repo_dir, home, m, fs) + apply_member_steps(repo_dir, home, m, fs, fs).flatten_alt(),
{
    let g = |r: Result<ApplyEntryView, Fault>| no_deletion(r);
    let fb = apply_file_steps(repo_dir, home, m, fs);
    let ps = m.directories.pairs();
    let db = ps.map_values(|kv: (Seq<char>, Seq<char>)| apply_dir_steps(repo_dir, home, fs, kv.0, kv.1));
    let ab = apply_member_steps(repo_dir, home, m, fs, fs);
    assert(apply_steps(repo_dir, home, m, fs) == fb + db.flatten_alt());
    Seq::filter_distributes_over_add(fb, db.flatten_alt(), g);
    assert forall|i: int| 0 <= i < fb.len() implies g(#[trigger] fb[i]) by {}
    lemma_filter_all_or_none(fb, g);
    lemma_filter_flatten(db, g);
    let dbf = db.map_values(|x: Seq<Result<ApplyEntryView, Fault>>| x.filter(g));
    assert forall|i: int| 0 <= i < db.len() implies #[trigger] dbf[i] == ab[i] by {
        let kv = ps[i];
        let repo_files = fs.listing(crate::paths::join(repo_dir, kv.0));
        let system_files = fs.listing(crate::manifest::expand_tilde_of(kv.1, home));
        let a = ab[i];
        let b = system_files.filter(|rel: Seq<char>| !repo_files.contains(rel)).map_values(
            |rel: Seq<char>|
                Ok::<ApplyEntryView, Fault>(
                    apply_entry(member_pair(repo_dir, home, kv.0, kv.1, rel), ApplyState::Deleted),
                ),
        );
        assert(db[i] == a + b);
        Seq::filter_distributes_over_add(a, b, g);
        assert forall|j: int| 0 <= j < a.len() implies g(#[trigger] a[j]) by {}
        assert forall|j: int| 0 <= j < b.len() implies !g(#[trigger] b[j]) by {}
        lemma_filter_all_or_none(a, g);
        lemma_filter_all_or_none(b, g);
        assert(a + Seq::<Result<ApplyEntryView, Fault>>::empty() =~= a);
    }
    assert(dbf =~= ab);
}

proof fn lemma_apply_steps_after(
    repo_dir: Seq<char>,
    home: Seq<char>,
    m: &Manifest,
    before: &FsView,
    after: &FsView,
)
    requires
        apply_listings_settled(repo_dir, home, m, before, after),
    ensures
        apply_steps(repo_dir, home, m, after) == apply_file_steps(repo_dir, home, m, after)
            + apply_member_steps(repo_dir, home, m, before, after).flatten_alt(),
{
    let ps = m.directories.pairs();
    let da = ps.map_values(|kv: (Seq<char>, Seq<char>)| apply_dir_steps(repo_dir, home, after, kv.0, kv.1));
    let aa = apply_member_steps(repo_dir, home, m, before, after);
    assert forall|i: int| 0 <= i < da.len() implies #[trigger] da[i] == aa[i] by {
        let kv = ps[i];
        let repo_files = after.listing(crate::paths::join(repo_dir, kv.0));
        let system_files = after.listing(crate::manifest::expand_tilde_of(kv.1, home));
        assert(repo_files == before.listing(crate::paths::join(repo_dir, kv.0)));
        assert(system_files == repo_files);
        let keep = |rel: Seq<char>| !repo_files.contains(rel);
        assert forall|j: int| 0 <= j < system_files.len() implies !keep(#[trigger] system_files[j]) by {
            assert(repo_files.contains(system_files[j]));
        }
        lemma_filter_all_or_none(system_files, keep);
        assert(da[i] =~= aa[i]);
    }
    assert(da =~= aa);
}

/// Applying leaves nothing to apply: once every change of a plan (with its
/// deletions) is carried out and the tracked directories list what that
/// leaves, planning again gives each entry of the plan that was no
/// deletion, in the same order, as unchanged, or still missing from the
/// repo. This holds under the conditions of [`apply_plan_settles`].
#[verifier::rlimit(40)]
pub proof fn apply_replan_settles(
    repo_dir: Seq<char>,
    home: Seq<char>,
    m: &Manifest,
    before: &FsView,
    after: &FsView,
    es: Seq<ApplyEntryView>,
)
    requires
        collect_results(apply_steps(repo_dir, home, m, before)) == Ok::<Seq<ApplyEntryView>, Fault>(es),
        forall|i: int, j: int| 0 <= i < es.len() && 0 <= j < es.len() && i != j ==> #[trigger] es[i].system_file
            != #[trigger] es[j].system_file,
        forall|i: int, j: int| 0 <= i < es.len() && 0 <= j < es.len() ==> #[trigger] es[i].system_file
            != #[trigger] es[j].repo_file,
        forall|i: int| 0 <= i < es.len() && (#[trigger] es[i].state == ApplyState::Created || es[i].state
            == ApplyState::Updated) ==> before.probe(es[i].repo_file) is Content,
        forall|p: Seq<char>| #[trigger] after.probe(p) == probe_after(
            before,
            gather(es, |e: ApplyEntryView| apply_action(e, true)),
            p,
        ),
        apply_listings_settled(repo_dir, home, m, before, after),
    ensures
        collect_results(apply_steps(repo_dir, home, m, after)) == Ok::<Seq<ApplyEntryView>, Fault>(
            es.filter(|e: ApplyEntryView| e.state != ApplyState::Deleted).map_values(
                |e: ApplyEntryView| settle_apply(e),
            ),
        ),
{
    apply_plan_settles(repo_dir, home, m, before, after, es, true);
    let nd = |e: ApplyEntryView| e.state != ApplyState::Deleted;
    let g = |r: Result<ApplyEntryView, Fault>| no_deletion(r);
    let sb = apply_steps(repo_dir, home, m, before);
    lemma_apply_steps_without_deletions(repo_dir, home, m, before);
    let fb = apply_file_steps(repo_dir, home, m, before);
    let ab = apply_member_steps(repo_dir, home, m, before, before);
    let r = fb + ab.flatten_alt();
    crate::commands::lemma_collect_filter(sb, es, nd, g);
    let w = es.filter(nd);
    assert(collect_results(r) == Ok::<Seq<ApplyEntryView>, Fault>(w));
    lemma_collect_ok(r, w);
    lemma_apply_steps_after(repo_dir, home, m, before, after);
    let fa = apply_file_steps(repo_dir, home, m, after);
    let aa = apply_member_steps(repo_dir, home, m, before, after);
    let t = fa + aa.flatten_alt();
    let pr = |x: Result<ApplyEntryView, Fault>, y: Result<ApplyEntryView, Fault>|
        forall|v: ApplyEntryView| x == Ok::<ApplyEntryView, Fault>(v) && es.contains(v) && v.state
            != ApplyState::Deleted ==> y == Ok::<ApplyEntryView, Fault>(settle_apply(v));
    let ps = m.directories.pairs();
    assert forall|i: int| 0 <= i < ab.len() implies (#[trigger] ab[i]).len() == aa[i].len() by {}
    assert forall|i: int, j: int| 0 <= i < ab.len() && 0 <= j < ab[i].len() implies pr(
        #[trigger] ab[i][j],
        aa[i][j],
    ) by {
        let kv = ps[i];
        let rel = before.listing(crate::paths::join(repo_dir, kv.0))[j];
        let pair = member_pair(repo_dir, home, kv.0, kv.1, rel);
        assert(ab[i][j] == apply_step(before, pair));
        assert(aa[i][j] == apply_step(after, pair));
        assert forall|v: ApplyEntryView| ab[i][j] == Ok::<ApplyEntryView, Fault>(v) && es.contains(v)
            && v.state != ApplyState::Deleted implies aa[i][j] == Ok::<ApplyEntryView, Fault>(settle_apply(v)) by {
            lemma_apply_entry_after(before, after, es, pair, v);
        }
    }
    lemma_flatten_alt_pairwise(ab, aa, pr);
    assert forall|j: int| 0 <= j < r.len() implies (#[trigger] r[j] matches Ok(x) ==> t[j]
        == Ok::<ApplyEntryView, Fault>(settle_apply(x))) by {
        assert(r[j] == Ok::<ApplyEntryView, Fault>(w[j]));
        es.lemma_filter_pred(nd, j);
        assert(w.contains(w[j]));
        es.lemma_filter_contains_rev(nd, w[j]);
        if j < fb.len() {
            let kv = m.files.pairs()[j];
            let pair = crate::commands::file_pair(repo_dir, home, kv.0, kv.1);
            assert(r[j] == fb[j]);
            assert(t[j] == fa[j]);
            lemma_apply_entry_after(before, after, es, pair, w[j]);
        } else {
            let k = j - fb.len();
            assert(r[j] == ab.flatten_alt()[k]);
            assert(t[j] == aa.flatten_alt()[k]);
            assert(pr(ab.flatten_alt()[k], aa.flatten_alt()[k]));
        }
    }
    crate::commands::lemma_collect_map(r, t, w, |e: ApplyEntryView| settle_apply(e));
}

/// An entry of a collect plan once the plan is carried out: unchanged,
/// unless it was missing from the system.
pub open spec fn settle_collect(e: CollectEntryView) -> CollectEntryView {
    if e.state == CollectState::MissingFromSystem {
        e
    } else {
        CollectEntryView { state: CollectState::Unchanged, ..e }
    }
}

/// Whether the listings of the tracked directories in `after` are what
/// collecting leaves: each directory on the system lists what it listed,
/// and each repo copy lists what the directory on the system lists.
pub open spec fn collect_listings_settled(
    repo_dir: Seq<char>,
    home: Seq<char>,
    m: &Manifest,
    before: &FsView,
    after: &FsView,
) -> bool {
    forall|i: int| 0 <= i < m.directories.pairs().len() ==> {
        let kv = #[trigger] m.directories.pairs()[i];
        &&& after.listing(crate::manifest::expand_tilde_of(kv.1, home)) == before.listing(
            crate::manifest::expand_tilde_of(kv.1, home),
        )
        &&& after.listing(crate::paths::join(repo_dir, kv.0)) == before.listing(
            crate::manifest::expand_tilde_of(kv.1, home),
        )
    }
}

proof fn lemma_collect_entry_after(
    before: &FsView,
    after: &FsView,
    es: Seq<CollectEntryView>,
    pair: FilePair,
    v: CollectEntryView,
)
    requires
        forall|i: int| 0 <= i < es.len() && #[trigger] es[i].state != CollectState::MissingFromSystem
            && es[i].state != CollectState::Deleted ==> collect_state(after, collect_pair(es[i])) == Some(
            CollectState::Unchanged,
        ),
        forall|i: int| 0 <= i < es.len() && #[trigger] es[i].state == CollectState::MissingFromSystem
            ==> collect_state(after, collect_pair(es[i])) == Some(CollectState::MissingFromSystem),
        collect_step(before, pair) == Ok::<CollectEntryView, Fault>(v),
        es.contains(v),
        v.state != CollectState::Deleted,
    ensures
        collect_step(after, pair) == Ok::<CollectEntryView, Fault>(settle_collect(v)),
{
    let k = choose|k: int| 0 <= k < es.len() && es[k] == v;
    assert(collect_pair(v) == pair);
    if v.state == CollectState::MissingFromSystem {
        assert(es[k].state == CollectState::MissingFromSystem);
    } else {
        assert(es[k].state != CollectState::MissingFromSystem && es[k].state != CollectState::Deleted);
    }
}

/// The steps of collect for the tracked files, evaluated on `fs`.
pub open spec fn collect_file_steps(repo_dir: Seq<char>, home: Seq<char>, m: &Manifest, fs: &FsView) -> Seq<
    Result<CollectEntryView, Fault>,
> {
    m.files.pairs().map_values(
        |kv: (Seq<char>, Seq<char>)| collect_step(fs, crate::commands::file_pair(repo_dir, home, kv.0, kv.1)),
    )
}

/// The steps for the files of each tracked directory on the system, as
/// `listed` lists them, evaluated on `fs`.
pub open spec fn collect_member_steps(
    repo_dir: Seq<char>,
    home: Seq<char>,
    m: &Manifest,
    listed: &FsView,
    fs: &FsView,
) -> Seq<Seq<Result<CollectEntryView, Fault>>> {
    m.directories.pairs().map_values(
        |kv: (Seq<char>, Seq<char>)|
            listed.listing(crate::manifest::expand_tilde_of(kv.1, home)).map_values(
                |rel: Seq<char>| collect_step(fs, member_pair(repo_dir, home, kv.0, kv.1, rel)),
            ),
    )
}

/// Whether a step of a collect plan is no deletion.
pub open spec fn no_collect_deletion(r: Result<CollectEntryView, Fault>) -> bool {
    match r {
        Ok(x) => x.state != CollectState::Deleted,
        Err(_) => true,
    }
}

proof fn lemma_collect_steps_without_deletions(repo_dir: Seq<char>, home: Seq<char>, m: &Manifest, fs: &FsView)
    ensures
        collect_steps(repo_dir, home, m, fs).filter(|r: Result<CollectEntryView, Fault>| no_collect_deletion(r))
            == collect_file_steps(repo_dir, home, m, fs) + collect_member_steps(repo_dir, home, m, fs, fs).flatten_alt(),
{
    let g = |r: Result<CollectEntryView, Fault>| no_collect_deletion(r);
    let fb = collect_file_steps(repo_dir, home, m, fs);
    let ps = m.directories.pairs();
    let db = ps.map_values(|kv: (Seq<char>, Seq<char>)| collect_dir_steps(repo_dir, home, fs, kv.0, kv.1));
    let ab = collect_member_steps(repo_dir, home, m, fs, fs);
    assert(collect_steps(repo_dir, home, m, fs) == fb + db.flatten_alt());
    Seq::filter_distributes_over_add(fb, db.flatten_alt(), g);
    assert forall|i: int| 0 <= i < fb.len() implies g(#[trigger] fb[i]) by {}
    lemma_filter_all_or_none(fb, g);
    lemma_filter_flatten(db, g);
    let dbf = db.map_values(|x: Seq<Result<CollectEntryView, Fault>>| x.filter(g));
    assert forall|i: int| 0 <= i < db.len() implies #[trigger] dbf[i] == ab[i] by {
        let kv = ps[i];
        let repo_files = fs.listing(crate::paths::join(repo_dir, kv.0));
        let system_files = fs.listing(crate::manifest::expand_tilde_of(kv.1, home));
        let a = ab[i];
        let b = repo_files.filter(|rel: Seq<char>| !system_files.contains(rel)).map_values(
            |rel: Seq<char>|
                Ok::<CollectEntryView, Fault>(
                    collect_entry(member_pair(repo_dir, home, kv.0, kv.1, rel), CollectState::Deleted),
                ),
        );
        assert(db[i] == a + b);
        Seq::filter_distributes_over_add(a, b, g);
        assert forall|j: int| 0 <= j < a.len() implies g(#[trigger] a[j]) by {}
        assert forall|j: int| 0 <= j < b.len() implies !g(#[trigger] b[j]) by {}
        lemma_filter_all_or_none(a, g);
        lemma_filter_all_or_none(b, g);
        assert(a + Seq::<Result<CollectEntryView, Fault>>::empty() =~= a);
    }
    assert(dbf =~= ab);
}

proof fn lemma_collect_steps_after(
    repo_dir: Seq<char>,
    home: Seq<char>,
    m: &Manifest,
    before: &FsView,
    after: &FsView,
)
    requires
        collect_listings_settled(repo_dir, home, m, before, after),
    ensures
        collect_steps(repo_dir, home, m, after) == collect_file_steps(repo_dir, home, m, after)
            + collect_member_steps(repo_dir, home, m, before, after).flatten_alt(),
{
    let ps = m.directories.pairs();
    let da = ps.map_values(|kv: (Seq<char>, Seq<char>)| collect_dir_steps(repo_dir, home, after, kv.0, kv.1));
    let aa = collect_member_steps(repo_dir, home, m, before, after);
    assert forall|i: int| 0 <= i < da.len() implies #[trigger] da[i] == aa[i] by {
        let kv = ps[i];
        let repo_files = after.listing(crate::paths::join(repo_dir, kv.0));
        let system_files = after.listing(crate::manifest::expand_tilde_of(kv.1, home));
        assert(system_files == before.listing(crate::manifest::expand_tilde_of(kv.1, home)));
        assert(repo_files == system_files);
        let keep = |rel: Seq<char>| !system_files.contains(rel);
        assert forall|j: int| 0 <= j < repo_files.len() implies !keep(#[trigger] repo_files[j]) by {
            assert(system_files.contains(repo_files[j]));
        }
        lemma_filter_all_or_none(repo_files, keep);
        assert(da[i] =~= aa[i]);
    }
    assert(da =~= aa);
}

/// Collecting leaves nothing to collect: once every change of a plan is
/// carried out and the tracked directories list what that leaves, planning
/// again gives each entry of the plan that was no deletion, in the same
/// order, as unchanged, or still missing from the system. This holds under
/// the conditions of [`collect_plan_settles`].
#[verifier::rlimit(40)]
pub proof fn collect_replan_settles(
    repo_dir: Seq<char>,
    home: Seq<char>,
    m: &Manifest,
    before: &FsView,
    after: &FsView,
    es: Seq<CollectEntryView>,
)
    requires
        collect_results(collect_steps(repo_dir, home, m, before)) == Ok::<Seq<CollectEntryView>, Fault>(es),
        forall|i: int, j: int| 0 <= i < es.len() && 0 <= j < es.len() && i != j ==> #[trigger] es[i].repo_file
            != #[trigger] es[j].repo_file,
        forall|i: int, j: int| 0 <= i < es.len() && 0 <= j < es.len() ==> #[trigger] es[i].repo_file
            != #[trigger] es[j].system_file,
        forall|i: int| 0 <= i < es.len() && (#[trigger] es[i].state == CollectState::Created || es[i].state
            == CollectState::Updated) ==> before.probe(es[i].system_file) is Content,
        forall|p: Seq<char>| #[trigger] after.probe(p) == probe_after(
            before,
            gather(es, |e: CollectEntryView| collect_action(e)),
            p,
        ),
        collect_listings_settled(repo_dir, home, m, before, after),
    ensures
        collect_results(collect_steps(repo_dir, home, m, after)) == Ok::<Seq<CollectEntryView>, Fault>(
            es.filter(|e: CollectEntryView| e.state != CollectState::Deleted).map_values(
                |e: CollectEntryView| settle_collect(e),
            ),
        ),
{
    collect_plan_settles(repo_dir, home, m, before, after, es);
    let nd = |e: CollectEntryView| e.state != CollectState::Deleted;
    let g = |r: Result<CollectEntryView, Fault>| no_collect_deletion(r);
    let sb = collect_steps(repo_dir, home, m, before);
    lemma_collect_steps_without_deletions(repo_dir, home, m, before);
    let fb = collect_file_steps(repo_dir, home, m, before);
    let ab = collect_member_steps(repo_dir, home, m, before, before);
    let r = fb + ab.flatten_alt();
    crate::commands::lemma_collect_filter(sb, es, nd, g);
    let w = es.filter(nd);
    assert(collect_results(r) == Ok::<Seq<CollectEntryView>, Fault>(w));
    lemma_collect_ok(r, w);
    lemma_collect_steps_after(repo_dir, home, m, before, after);
    let fa = collect_file_steps(repo_dir, home, m, after);
    let aa = collect_member_steps(repo_dir, home, m, before, after);
    let t = fa + aa.flatten_alt();
    let pr = |x: Result<CollectEntryView, Fault>, y: Result<CollectEntryView, Fault>|
        forall|v: CollectEntryView| x == Ok::<CollectEntryView, Fault>(v) && es.contains(v) && v.state
            != CollectState::Deleted ==> y == Ok::<CollectEntryView, Fault>(settle_collect(v));
    let ps = m.directories.pairs();
    assert forall|i: int| 0 <= i < ab.len() implies (#[trigger] ab[i]).len() == aa[i].len() by {}
    assert forall|i: int, j: int| 0 <= i < ab.len() && 0 <= j < ab[i].len() implies pr(
        #[trigger] ab[i][j],
        aa[i][j],
    ) by {
        let kv = ps[i];
        let rel = before.listing(crate::manifest::expand_tilde_of(kv.1, home))[j];
        let pair = member_pair(repo_dir, home, kv.0, kv.1, rel);
        assert(ab[i][j] == collect_step(before, pair));
        assert(aa[i][j] == collect_step(after, pair));
        assert forall|v: CollectEntryView| ab[i][j] == Ok::<CollectEntryView, Fault>(v) && es.contains(v)
            && v.state != CollectState::Deleted implies aa[i][j] == Ok::<CollectEntryView, Fault>(settle_collect(v)) by {
            lemma_collect_entry_after(before, after, es, pair, v);
        }
    }
    lemma_flatten_alt_pairwise(ab, aa, pr);
    assert forall|j: int| 0 <= j < r.len() implies (#[trigger] r[j] matches Ok(x) ==> t[j]
        == Ok::<CollectEntryView, Fault>(settle_collect(x))) by {
        assert(r[j] == Ok::<CollectEntryView, Fault>(w[j]));
        es.lemma_filter_pred(nd, j);
        assert(w.contains(w[j]));
        es.lemma_filter_contains_rev(nd, w[j]);
        if j < fb.len() {
            let kv = m.files.pairs()[j];
            let pair = crate::commands::file_pair(repo_dir, home, kv.0, kv.1);
            assert(r[j] == fb[j]);
            assert(t[j] == fa[j]);
            lemma_collect_entry_after(before, after, es, pair, w[j]);
        } else {
            let k = j - fb.len();
            assert(r[j] == ab.flatten_alt()[k]);
            assert(t[j] == aa.flatten_alt()[k]);
            assert(pr(ab.flatten_alt()[k], aa.flatten_alt()[k]));
        }
    }
    crate::commands::lemma_collect_map(r, t, w, |e: CollectEntryView| settle_collect(e));
}

} // verus!
