//! The commands of the dotfiles manager, and what they share: which file
//! pairs a manifest tracks, and how a failure to read stops a command.
use vstd::prelude::*;
use crate::error::RootratError;
use crate::manifest::{expand_tilde_of, Manifest};
use crate::paths::{join, join_path};
use crate::text::concat_str;

pub mod add;
pub mod apply;
pub mod collect;
pub mod consistency;
pub mod status;
pub mod diff;
pub mod git;
pub mod init;
pub mod rm;
pub mod walk;

verus! {

/// Why a command stopped while looking at the files.
pub enum Fault {
    Unreadable(Seq<char>),
    NotText(Seq<char>),
    Other,
}

/// The fault that an error of the library reports.
pub open spec fn fault_of(e: RootratError) -> Fault {
    match e {
        RootratError::Unreadable { path } => Fault::Unreadable(path@),
        RootratError::NotText { path } => Fault::NotText(path@),
        _ => Fault::Other,
    }
}

/// The results of a sequence of steps: all their values, or the fault of the
/// first step that failed.
pub open spec fn collect_results<T>(s: Seq<Result<T, Fault>>) -> Result<Seq<T>, Fault>
    decreases s.len(),
{
    if s.len() == 0 {
        Ok(Seq::empty())
    } else {
        match collect_results(s.drop_last()) {
            Err(f) => Err(f),
            Ok(v) => match s.last() {
                Ok(x) => Ok(v.push(x)),
                Err(f) => Err(f),
            },
        }
    }
}

pub proof fn lemma_collect_push<T>(a: Seq<Result<T, Fault>>, r: Result<T, Fault>)
    ensures
        collect_results(a.push(r)) == match collect_results(a) {
            Err(f) => Err(f),
            Ok(v) => match r {
                Ok(x) => Ok(v.push(x)),
                Err(f) => Err(f),
            },
        },
{
    assert(a.push(r).drop_last() =~= a);
}

pub proof fn lemma_collect_err_extends<T>(a: Seq<Result<T, Fault>>, b: Seq<Result<T, Fault>>)
    requires
        collect_results(a) is Err,
    ensures
        collect_results(a + b) == collect_results(a),
    decreases b.len(),
{
    if b.len() == 0 {
        assert(a + b =~= a);
    } else {
        lemma_collect_err_extends(a, b.drop_last());
        assert((a + b).drop_last() =~= a + b.drop_last());
    }
}

/// A tracked file seen from both sides: the system path as the manifest
/// shows it, the copy in the repo, and the file on the system.
pub struct FilePair {
    pub display: Seq<char>,
    pub repo_file: Seq<char>,
    pub system_file: Seq<char>,
}

/// The pair of a tracked file with repo path `k` and system path `v`.
pub open spec fn file_pair(repo_dir: Seq<char>, home: Seq<char>, k: Seq<char>, v: Seq<char>) -> FilePair {
    FilePair { display: v, repo_file: join(repo_dir, k), system_file: expand_tilde_of(v, home) }
}

/// The pair of the file `rel` inside a tracked directory with repo path `k`
/// and system path `v`.
pub open spec fn member_pair(
    repo_dir: Seq<char>,
    home: Seq<char>,
    k: Seq<char>,
    v: Seq<char>,
    rel: Seq<char>,
) -> FilePair {
    FilePair {
        display: v + "/"@ + rel,
        repo_file: join(join(repo_dir, k), rel),
        system_file: join(expand_tilde_of(v, home), rel),
    }
}

/// The repo file and system file of a tracked file.
pub fn file_pair_paths(repo_dir: &str, home: &str, k: &str, v: &str) -> (r: (String, String))
    ensures
        r.0@ == file_pair(repo_dir@, home@, k@, v@).repo_file,
        r.1@ == file_pair(repo_dir@, home@, k@, v@).system_file,
{
    (join_path(repo_dir, k), Manifest::expand_tilde_with_home(v, home))
}

/// The repo base and system base of a tracked directory.
pub fn dir_bases(repo_dir: &str, home: &str, k: &str, v: &str) -> (r: (String, String))
    ensures
        r.0@ == join(repo_dir@, k@),
        r.1@ == expand_tilde_of(v@, home@),
{
    (join_path(repo_dir, k), Manifest::expand_tilde_with_home(v, home))
}

/// The shown path, repo file and system file of the member `rel` of a
/// tracked directory, given its bases.
pub fn member_paths(repo_base: &str, system_base: &str, v: &str, rel: &str) -> (r: (String, String, String))
    ensures
        r.0@ == v@ + "/"@ + rel@,
        r.1@ == join(repo_base@, rel@),
        r.2@ == join(system_base@, rel@),
{
    let shown = concat_str(v, "/");
    let display = concat_str(shown.as_str(), rel);
    (display, join_path(repo_base, rel), join_path(system_base, rel))
}

/// Flattening a sequence of sequences in two parts.
pub proof fn lemma_flatten_alt_split<A>(s: Seq<Seq<A>>, j: int)
    requires
        0 <= j <= s.len(),
    ensures
        s.flatten_alt() == s.take(j).flatten_alt() + s.skip(j).flatten_alt(),
    decreases s.len() - j,
{
    if j == s.len() {
        assert(s.take(j) =~= s);
        assert(s.skip(j).flatten_alt() =~= Seq::<A>::empty());
        assert(s.flatten_alt() + Seq::<A>::empty() =~= s.flatten_alt());
    } else {
        lemma_flatten_alt_split(s, j + 1);
        assert(s.take(j + 1).drop_last() =~= s.take(j));
        lemma_flatten_alt_prepend(s.skip(j));
        assert(s.skip(j).drop_first() =~= s.skip(j + 1));
        assert(s.skip(j)[0] == s[j]);
    }
}

/// Flattening a nonempty sequence: its first element, then the rest.
pub proof fn lemma_flatten_alt_prepend<A>(s: Seq<Seq<A>>)
    requires
        s.len() > 0,
    ensures
        s.flatten_alt() == s[0] + s.drop_first().flatten_alt(),
    decreases s.len(),
{
    if s.len() == 1 {
        assert(s.drop_last() =~= Seq::<Seq<A>>::empty());
        assert(s.drop_first() =~= Seq::<Seq<A>>::empty());
        assert(s.flatten_alt() =~= s[0]);
        assert(s[0] + Seq::<A>::empty() =~= s[0]);
    } else {
        lemma_flatten_alt_prepend(s.drop_last());
        assert(s.drop_last().drop_first() =~= s.drop_first().drop_last());
        assert(s.drop_first().last() == s.last());
        assert(s.drop_last()[0] == s[0]);
        assert(s.flatten_alt() =~= s[0] + s.drop_first().flatten_alt());
    }
}

/// The number of elements of all the sequences of `s` together.
pub open spec fn total_len<A>(s: Seq<Seq<A>>) -> nat
    decreases s.len(),
{
    if s.len() == 0 {
        0
    } else {
        total_len(s.drop_last()) + s.last().len()
    }
}

/// Flattening keeps every element of every sequence.
pub proof fn lemma_flatten_alt_len<A>(s: Seq<Seq<A>>)
    ensures
        s.flatten_alt().len() == total_len(s),
    decreases s.len(),
{
    if s.len() > 0 {
        lemma_flatten_alt_len(s.drop_last());
    }
}

/// The element `j` of the sequence `d` of `s` stands in the flattening after
/// all elements of the sequences before `d`.
pub proof fn lemma_flatten_alt_index<A>(s: Seq<Seq<A>>, d: int, j: int)
    requires
        0 <= d < s.len(),
        0 <= j < s[d].len(),
    ensures
        total_len(s.take(d)) + j < total_len(s),
        s.flatten_alt()[total_len(s.take(d)) + j] == s[d][j],
{
    lemma_flatten_alt_split(s, d);
    lemma_flatten_alt_prepend(s.skip(d));
    assert(s.skip(d)[0] == s[d]);
    lemma_flatten_alt_len(s.take(d));
    lemma_flatten_alt_len(s);
    let front = s.take(d).flatten_alt();
    let back = s.skip(d).flatten_alt();
    assert(back[j] == s[d][j]);
    assert((front + back)[front.len() + j] == back[j]);
}

/// A prefix of a sequence filters to a prefix of the filtered sequence.
pub proof fn lemma_filter_prefix(s: Seq<Seq<char>>, pred: spec_fn(Seq<char>) -> bool, n: int, kept: Seq<Seq<char>>)
    requires
        0 <= n <= s.len(),
        kept == s.filter(pred),
    ensures
        s.take(n).filter(pred) == kept.take(s.take(n).filter(pred).len() as int),
        s.take(n).filter(pred).len() <= kept.len(),
    decreases s.len() - n,
{
    reveal(Seq::filter);
    if n == s.len() {
        assert(s.take(n) =~= s);
        assert(kept.take(kept.len() as int) =~= kept);
    } else {
        lemma_filter_prefix(s, pred, n + 1, kept);
        assert(s.take(n + 1).drop_last() =~= s.take(n));
        let f1 = s.take(n + 1).filter(pred);
        let f0 = s.take(n).filter(pred);
        if pred(s[n]) {
            assert(f1 == f0.push(s[n]));
            assert(f0 =~= kept.take(f1.len() as int).drop_last());
            assert(kept.take(f1.len() as int).drop_last() =~= kept.take(f0.len() as int));
        } else {
            assert(f1 == f0);
        }
    }
}

/// When the steps all succeed, each gives the value at its place.
pub proof fn lemma_collect_ok<T>(s: Seq<Result<T, Fault>>, v: Seq<T>)
    requires
        collect_results(s) == Ok::<Seq<T>, Fault>(v),
    ensures
        v.len() == s.len(),
        forall|k: int| 0 <= k < s.len() ==> #[trigger] s[k] == Ok::<T, Fault>(v[k]),
    decreases s.len(),
{
    if s.len() > 0 {
        match collect_results(s.drop_last()) {
            Ok(w) => {
                lemma_collect_ok(s.drop_last(), w);
                assert(v == w.push(s.last()->Ok_0));
                assert forall|k: int| 0 <= k < s.len() implies #[trigger] s[k] == Ok::<T, Fault>(v[k]) by {
                    if k < s.len() - 1 {
                        assert(s.drop_last()[k] == s[k]);
                    }
                }
            },
            Err(_) => {},
        }
    }
}

/// What holds of every element of every sequence holds of every element of
/// their flattening.
pub proof fn lemma_flatten_alt_all<A>(s: Seq<Seq<A>>, p: spec_fn(A) -> bool)
    requires
        forall|i: int, j: int| 0 <= i < s.len() && 0 <= j < s[i].len() ==> p(#[trigger] s[i][j]),
    ensures
        forall|k: int| 0 <= k < s.flatten_alt().len() ==> p(#[trigger] s.flatten_alt()[k]),
    decreases s.len(),
{
    if s.len() > 0 {
        let init = s.drop_last();
        assert forall|i: int, j: int| 0 <= i < init.len() && 0 <= j < init[i].len() implies p(
            #[trigger] init[i][j],
        ) by {
            assert(init[i] == s[i]);
        }
        lemma_flatten_alt_all(init, p);
        let a = init.flatten_alt();
        let b = s.last();
        assert(s.flatten_alt() == a + b);
        assert forall|k: int| 0 <= k < (a + b).len() implies p(#[trigger] (a + b)[k]) by {
            if k >= a.len() {
                assert((a + b)[k] == b[k - a.len()]);
                assert(b == s[s.len() - 1]);
            } else {
                assert((a + b)[k] == a[k]);
            }
        }
    }
}

/// A relation that holds between the elements at each place of two
/// sequences of sequences of the same shape holds at each place of their
/// flattenings, which have the same length.
pub proof fn lemma_flatten_alt_pairwise<A, B>(s: Seq<Seq<A>>, t: Seq<Seq<B>>, p: spec_fn(A, B) -> bool)
    requires
        s.len() == t.len(),
        forall|i: int| 0 <= i < s.len() ==> (#[trigger] s[i]).len() == t[i].len(),
        forall|i: int, j: int| 0 <= i < s.len() && 0 <= j < s[i].len() ==> p(#[trigger] s[i][j], t[i][j]),
    ensures
        s.flatten_alt().len() == t.flatten_alt().len(),
        forall|k: int| 0 <= k < s.flatten_alt().len() ==> p(#[trigger] s.flatten_alt()[k], t.flatten_alt()[k]),
    decreases s.len(),
{
    if s.len() > 0 {
        let si = s.drop_last();
        let ti = t.drop_last();
        assert forall|i: int| 0 <= i < si.len() implies (#[trigger] si[i]).len() == ti[i].len() by {
            assert(si[i] == s[i] && ti[i] == t[i]);
        }
        assert forall|i: int, j: int| 0 <= i < si.len() && 0 <= j < si[i].len() implies p(
            #[trigger] si[i][j],
            ti[i][j],
        ) by {
            assert(si[i] == s[i] && ti[i] == t[i]);
        }
        lemma_flatten_alt_pairwise(si, ti, p);
        let a = si.flatten_alt();
        let b = ti.flatten_alt();
        let x = s.last();
        let y = t.last();
        assert(x == s[s.len() - 1] && y == t[t.len() - 1]);
        assert(s.flatten_alt() == a + x);
        assert(t.flatten_alt() == b + y);
        assert forall|k: int| 0 <= k < (a + x).len() implies p(#[trigger] (a + x)[k], (b + y)[k]) by {
            if k >= a.len() {
                assert((a + x)[k] == x[k - a.len()]);
                assert((b + y)[k] == y[k - a.len()]);
            } else {
                assert((a + x)[k] == a[k]);
                assert((b + y)[k] == b[k]);
            }
        }
    }
}

/// Keeping the elements that meet `p` keeps all of a sequence whose
/// elements all meet it, and none of one whose elements all fail it.
pub proof fn lemma_filter_all_or_none<A>(s: Seq<A>, p: spec_fn(A) -> bool)
    ensures
        (forall|i: int| 0 <= i < s.len() ==> p(#[trigger] s[i])) ==> s.filter(p) == s,
        (forall|i: int| 0 <= i < s.len() ==> !p(#[trigger] s[i])) ==> s.filter(p) == Seq::<A>::empty(),
    decreases s.len(),
{
    reveal(Seq::filter);
    if s.len() > 0 {
        lemma_filter_all_or_none(s.drop_last(), p);
        if forall|i: int| 0 <= i < s.len() ==> p(#[trigger] s[i]) {
            assert forall|i: int| 0 <= i < s.drop_last().len() implies p(#[trigger] s.drop_last()[i]) by {
                assert(s.drop_last()[i] == s[i]);
            }
            assert(p(s[s.len() - 1]));
            assert(s.drop_last().push(s.last()) =~= s);
        }
        if forall|i: int| 0 <= i < s.len() ==> !p(#[trigger] s[i]) {
            assert forall|i: int| 0 <= i < s.drop_last().len() implies !p(#[trigger] s.drop_last()[i]) by {
                assert(s.drop_last()[i] == s[i]);
            }
            assert(!p(s[s.len() - 1]));
        }
    }
}

/// Filtering a flattening filters each part.
pub proof fn lemma_filter_flatten<A>(d: Seq<Seq<A>>, p: spec_fn(A) -> bool)
    ensures
        d.flatten_alt().filter(p) == d.map_values(|x: Seq<A>| x.filter(p)).flatten_alt(),
    decreases d.len(),
{
    reveal(Seq::filter);
    let g = |x: Seq<A>| x.filter(p);
    if d.len() == 0 {
        assert(d.map_values(g).flatten_alt() =~= Seq::<A>::empty());
    } else {
        lemma_filter_flatten(d.drop_last(), p);
        Seq::filter_distributes_over_add(d.drop_last().flatten_alt(), d.last(), p);
        assert(d.map_values(g).drop_last() =~= d.drop_last().map_values(g));
        assert(d.map_values(g).last() == d.last().filter(p));
    }
}

/// When all steps succeed, keeping the steps whose value meets `p` keeps
/// the values that meet it.
pub proof fn lemma_collect_filter<T>(
    s: Seq<Result<T, Fault>>,
    v: Seq<T>,
    p: spec_fn(T) -> bool,
    q: spec_fn(Result<T, Fault>) -> bool,
)
    requires
        collect_results(s) == Ok::<Seq<T>, Fault>(v),
        forall|x: T| #[trigger] q(Ok::<T, Fault>(x)) == p(x),
    ensures
        collect_results(s.filter(q)) == Ok::<Seq<T>, Fault>(v.filter(p)),
    decreases s.len(),
{
    reveal(Seq::filter);
    if s.len() == 0 {
        assert(v =~= Seq::<T>::empty());
    } else {
        match collect_results(s.drop_last()) {
            Ok(w) => {
                lemma_collect_filter(s.drop_last(), w, p, q);
                match s.last() {
                    Ok(x) => {
                        assert(v == w.push(x));
                        assert(v.drop_last() =~= w);
                        assert(q(s.last()) == p(x));
                        if p(x) {
                            lemma_collect_push(s.drop_last().filter(q), s.last());
                        }
                    },
                    Err(_) => {},
                }
            },
            Err(_) => {},
        }
    }
}

/// When all steps succeed and each step of `t` gives `f` of what the step
/// of `s` at the same place gives, the values of `t` are the values of `s`
/// through `f`.
pub proof fn lemma_collect_map<T>(
    s: Seq<Result<T, Fault>>,
    t: Seq<Result<T, Fault>>,
    v: Seq<T>,
    f: spec_fn(T) -> T,
)
    requires
        s.len() == t.len(),
        collect_results(s) == Ok::<Seq<T>, Fault>(v),
        forall|j: int| 0 <= j < s.len() ==> (#[trigger] s[j] matches Ok(x) ==> t[j] == Ok::<T, Fault>(f(x))),
    ensures
        collect_results(t) == Ok::<Seq<T>, Fault>(v.map_values(f)),
    decreases s.len(),
{
    lemma_collect_ok(s, v);
    if s.len() == 0 {
        assert(v.map_values(f) =~= Seq::<T>::empty());
    } else {
        let si = s.drop_last();
        let ti = t.drop_last();
        let w = v.drop_last();
        assert forall|j: int| 0 <= j < si.len() implies (#[trigger] si[j] matches Ok(x) ==> ti[j] == Ok::<T, Fault>(f(x))) by {
            assert(si[j] == s[j] && ti[j] == t[j]);
        }
        assert(s[s.len() - 1] == Ok::<T, Fault>(v[s.len() - 1]));
        assert forall|j: int| 0 <= j < si.len() implies #[trigger] si[j] == Ok::<T, Fault>(w[j]) by {
            assert(si[j] == s[j]);
        }
        assert(collect_results(si) == Ok::<Seq<T>, Fault>(w)) by {
            lemma_collect_all_ok(si, w);
        }
        lemma_collect_map(si, ti, w, f);
        assert(t.last() == t[t.len() - 1]);
        assert(v.map_values(f) =~= w.map_values(f).push(f(v.last())));
    }
}

/// Steps that each succeed with the value at their place collect to those
/// values.
pub proof fn lemma_collect_all_ok<T>(s: Seq<Result<T, Fault>>, v: Seq<T>)
    requires
        s.len() == v.len(),
        forall|j: int| 0 <= j < s.len() ==> #[trigger] s[j] == Ok::<T, Fault>(v[j]),
    ensures
        collect_results(s) == Ok::<Seq<T>, Fault>(v),
    decreases s.len(),
{
    if s.len() == 0 {
        assert(v =~= Seq::<T>::empty());
    } else {
        assert forall|j: int| 0 <= j < s.drop_last().len() implies #[trigger] s.drop_last()[j] == Ok::<T, Fault>(v.drop_last()[j]) by {
            assert(s.drop_last()[j] == s[j]);
        }
        lemma_collect_all_ok(s.drop_last(), v.drop_last());
        assert(s.last() == s[s.len() - 1]);
        assert(v.drop_last().push(v.last()) =~= v);
    }
}

/// A change to make on disk.
#[derive(Debug)]
pub enum FsAction {
    /// Copy a file, creating the directories above the target first.
    CopyCreatingParent { from: String, to: String },
    /// Copy a file over an existing one.
    Copy { from: String, to: String },
    /// Delete a file.
    RemoveFile { path: String },
}

/// The content of a change to make on disk.
pub enum ActionView {
    CopyCreatingParent { from: Seq<char>, to: Seq<char> },
    Copy { from: Seq<char>, to: Seq<char> },
    RemoveFile { path: Seq<char> },
}

impl View for FsAction {
    type V = ActionView;

    open spec fn view(&self) -> ActionView {
        match self {
            FsAction::CopyCreatingParent { from, to } => ActionView::CopyCreatingParent {
                from: from@,
                to: to@,
            },
            FsAction::Copy { from, to } => ActionView::Copy { from: from@, to: to@ },
            FsAction::RemoveFile { path } => ActionView::RemoveFile { path: path@ },
        }
    }
}

/// The contents of a list of changes.
pub open spec fn action_views(acts: Seq<FsAction>) -> Seq<ActionView> {
    acts.map_values(|a: FsAction| a@)
}

/// The changes that some steps call for, in order.
pub open spec fn gather<T>(s: Seq<T>, f: spec_fn(T) -> Option<ActionView>) -> Seq<ActionView>
    decreases s.len(),
{
    if s.len() == 0 {
        Seq::empty()
    } else {
        match f(s.last()) {
            Some(a) => gather(s.drop_last(), f).push(a),
            None => gather(s.drop_last(), f),
        }
    }
}

} // verus!
