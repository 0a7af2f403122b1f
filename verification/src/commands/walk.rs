//! Which entries a walk of a tracked directory keeps: names on the
//! manifest's ignore list and paths that a `.gitignore` on the way down
//! ignores are left out.
use vstd::prelude::*;
use ignore::gitignore::GitignoreBuilder;
use vstd::utf8::{decode_utf8, valid_utf8};
use crate::commands::diff::text_of;
use crate::error::RootratError;
use crate::fsview::str_equal;
use crate::text::{chars_of, string_of};
use crate::paths::{components, lemma_strip_rest, strip_path_prefix, strip_prefix};
use crate::sorted::views;

verus! {

/// What one `.gitignore` matcher says of a path.
#[derive(Clone, Copy, Debug, PartialEq, Eq, Structural)]
pub enum IgnoreMatch {
    /// No pattern of the matcher matched the path.
    Unmatched,
    /// The deciding pattern ignores the path.
    Ignored,
    /// The deciding pattern is a negated one (`!pattern`) and keeps the path.
    Whitelisted,
}

/// One `.gitignore` file met on the way down a walk: the directory it
/// lies in, against which its patterns are matched, and its lines.
#[derive(Clone, Debug)]
pub struct GitignoreFile {
    pub root: String,
    pub lines: Vec<String>,
}

/// What the `ignore` crate says of `path` (a directory when `is_dir`) for
/// the `.gitignore` lines `lines` read in the directory `root`.
pub uninterp spec fn gitignore_answer(root: Seq<char>, lines: Seq<Seq<char>>, path: Seq<char>, is_dir: bool) -> IgnoreMatch;

/// What the `ignore` crate says of `path` (a directory when `is_dir`) for
/// the `.gitignore` lines `lines` read in the directory `root`: a matcher is
/// built as `GitignoreBuilder::new(root)` with each line given to
/// `add_line` (a line that is no valid pattern is left out, as
/// `GitignoreBuilder::add` does), and `Gitignore::matched` is asked, with
/// the matched glob dropped. A matcher that cannot be built matches
/// nothing. The answer is named by [`gitignore_answer`], not stated: it
/// depends on the arguments alone.
#[verifier::external_body]
fn gitignore_matched(root: &str, lines: &Vec<String>, path: &str, is_dir: bool) -> (m: IgnoreMatch)
    ensures
        m == gitignore_answer(root@, views(lines@), path@, is_dir),
{
    let mut builder = GitignoreBuilder::new(root);
    for line in lines.iter() {
        let _ = builder.add_line(None, line);
    }
    match builder.build() {
        Ok(gi) => match gi.matched(std::path::Path::new(path), is_dir) {
            ignore::Match::None => IgnoreMatch::Unmatched,
            ignore::Match::Ignore(_) => IgnoreMatch::Ignored,
            ignore::Match::Whitelist(_) => IgnoreMatch::Whitelisted,
        },
        Err(_) => IgnoreMatch::Unmatched,
    }
}

/// The pieces of `b` between its `\n` bytes, in order (one more than there
/// are `\n` bytes).
pub open spec fn split_nl(b: Seq<u8>) -> Seq<Seq<u8>>
    decreases b.len(),
{
    if b.len() == 0 {
        seq![Seq::<u8>::empty()]
    } else {
        let s = split_nl(b.drop_last());
        if b.last() == 10u8 {
            s.push(Seq::<u8>::empty())
        } else {
            s.update(s.len() - 1, s.last().push(b.last()))
        }
    }
}

/// A line without the `\r` that ended it before its `\n`.
pub open spec fn strip_cr(l: Seq<u8>) -> Seq<u8> {
    if l.len() > 0 && l.last() == 13u8 {
        l.drop_last()
    } else {
        l
    }
}

/// The lines of `b` as `BufRead::lines` yields them: each `\n` ends a line
/// and is dropped together with a `\r` just before it; what follows the
/// last `\n` is a last line when it is not empty.
pub open spec fn raw_lines(b: Seq<u8>) -> Seq<Seq<u8>> {
    let s = split_nl(b);
    let ended = s.drop_last().map_values(|l: Seq<u8>| strip_cr(l));
    if s.last().len() == 0 {
        ended
    } else {
        ended.push(s.last())
    }
}

/// The lines of `ls` up to the first that is not UTF-8.
pub open spec fn valid_prefix(ls: Seq<Seq<u8>>) -> Seq<Seq<u8>>
    decreases ls.len(),
{
    if ls.len() == 0 {
        ls
    } else if valid_utf8(ls[0]) {
        seq![ls[0]] + valid_prefix(ls.drop_first())
    } else {
        Seq::empty()
    }
}

/// `cs` without the byte order marks it starts with.
pub open spec fn strip_bom(cs: Seq<char>) -> Seq<char>
    decreases cs.len(),
{
    if cs.len() > 0 && cs[0] == '\u{feff}' {
        strip_bom(cs.drop_first())
    } else {
        cs
    }
}

/// The text of each line, with byte order marks dropped from the start of
/// the first.
pub open spec fn decode_lines(vs: Seq<Seq<u8>>) -> Seq<Seq<char>> {
    Seq::new(
        vs.len(),
        |i: int|
            if i == 0 {
                strip_bom(decode_utf8(vs[0]))
            } else {
                decode_utf8(vs[i])
            },
    )
}

/// The lines that `GitignoreBuilder::add` takes from a `.gitignore` file
/// with the bytes `b`: its lines (see [`raw_lines`]) up to the first one
/// that is not UTF-8, with byte order marks dropped from the start of the
/// first line.
pub open spec fn gitignore_text(b: Seq<u8>) -> Seq<Seq<char>> {
    decode_lines(valid_prefix(raw_lines(b)))
}

/// The byte sequences of a sequence of byte vectors.
pub open spec fn byte_views(v: Seq<Vec<u8>>) -> Seq<Seq<u8>> {
    v.map_values(|l: Vec<u8>| l@)
}

fn without_cr(l: &Vec<u8>) -> (r: Vec<u8>)
    ensures
        r@ == strip_cr(l@),
{
    let n: usize = if l.len() > 0 && l[l.len() - 1] == 13u8 { l.len() - 1 } else { l.len() };
    let mut r: Vec<u8> = Vec::new();
    let mut i: usize = 0;
    while i < n
        invariant
            i <= n <= l.len(),
            r@ == l@.take(i as int),
        decreases n - i,
    {
        r.push(l[i]);
        i = i + 1;
        assert(r@ =~= l@.take(i as int));
    }
    assert(r@ =~= strip_cr(l@));
    r
}

fn without_bom(t: &str) -> (r: String)
    ensures
        r@ == strip_bom(t@),
{
    let cs = chars_of(t);
    let mut i: usize = 0;
    assert(cs@.skip(0) =~= cs@);
    while i < cs.len() && cs[i] == '\u{feff}'
        invariant
            i <= cs.len(),
            cs@ == t@,
            strip_bom(t@) == strip_bom(cs@.skip(i as int)),
        decreases cs.len() - i,
    {
        assert(cs@.skip(i as int).drop_first() =~= cs@.skip(i + 1));
        i = i + 1;
    }
    let mut rest: Vec<char> = Vec::new();
    let mut j = i;
    while j < cs.len()
        invariant
            i <= j <= cs.len(),
            rest@ == cs@.subrange(i as int, j as int),
        decreases cs.len() - j,
    {
        rest.push(cs[j]);
        j = j + 1;
        assert(rest@ =~= cs@.subrange(i as int, j as int));
    }
    assert(rest@ =~= cs@.skip(i as int));
    string_of(&rest)
}

/// The lines of a `.gitignore` file with the bytes `bytes`, as
/// `GitignoreBuilder::add` reads them (see [`gitignore_text`]).
pub fn gitignore_lines(bytes: &Vec<u8>) -> (lines: Vec<String>)
    ensures
        crate::sorted::views(lines@) == gitignore_text(bytes@),
{
    let mut done: Vec<Vec<u8>> = Vec::new();
    let mut cur: Vec<u8> = Vec::new();
    let mut i: usize = 0;
    assert(bytes@.take(0) =~= Seq::<u8>::empty());
    assert(byte_views(done@).push(cur@) =~= split_nl(bytes@.take(0)));
    while i < bytes.len()
        invariant
            i <= bytes.len(),
            byte_views(done@).push(cur@) == split_nl(bytes@.take(i as int)),
        decreases bytes.len() - i,
    {
        let x = bytes[i];
        let ghost before = byte_views(done@).push(cur@);
        assert(bytes@.take(i + 1).drop_last() =~= bytes@.take(i as int));
        assert(bytes@.take(i + 1).last() == x);
        if x == 10u8 {
            let mut piece: Vec<u8> = Vec::new();
            std::mem::swap(&mut piece, &mut cur);
            done.push(piece);
            assert(byte_views(done@).push(cur@) =~= before.push(Seq::<u8>::empty()));
        } else {
            cur.push(x);
            assert(byte_views(done@).push(cur@) =~= before.update(before.len() - 1, before.last().push(x)));
        }
        i = i + 1;
    }
    assert(bytes@.take(bytes.len() as int) =~= bytes@);
    let ghost s = split_nl(bytes@);
    assert(s.drop_last() =~= byte_views(done@));
    assert(s.last() == cur@);
    let mut raw: Vec<Vec<u8>> = Vec::new();
    let mut k: usize = 0;
    while k < done.len()
        invariant
            k <= done.len(),
            s == byte_views(done@).push(cur@),
            byte_views(raw@) == s.drop_last().map_values(|l: Seq<u8>| strip_cr(l)).take(k as int),
        decreases done.len() - k,
    {
        assert(s.drop_last() =~= byte_views(done@));
        assert(s.drop_last()[k as int] == done@[k as int]@);
        let l = without_cr(&done[k]);
        let ghost before_raw = byte_views(raw@);
        let ghost lv = l@;
        raw.push(l);
        assert(byte_views(raw@) =~= before_raw.push(lv));
        assert(s.drop_last().map_values(|l: Seq<u8>| strip_cr(l)).take(k + 1) =~= s.drop_last().map_values(
            |l: Seq<u8>| strip_cr(l),
        ).take(k as int).push(lv));
        k = k + 1;
        assert(byte_views(raw@) =~= s.drop_last().map_values(|l: Seq<u8>| strip_cr(l)).take(k as int));
    }
    assert(s.drop_last().map_values(|l: Seq<u8>| strip_cr(l)).take(done.len() as int)
        =~= s.drop_last().map_values(|l: Seq<u8>| strip_cr(l)));
    let ghost last = cur@;
    if cur.len() > 0 {
        raw.push(cur);
    }
    let ghost rl = raw_lines(bytes@);
    assert(byte_views(raw@) =~= rl);
    let mut lines: Vec<String> = Vec::new();
    let mut k: usize = 0;
    assert(rl.skip(0) =~= rl);
    assert(rl.take(0) =~= Seq::<Seq<u8>>::empty());
    while k < raw.len()
        invariant
            k <= raw.len(),
            rl == raw_lines(bytes@),
            rl == byte_views(raw@),
            valid_prefix(rl) == rl.take(k as int) + valid_prefix(rl.skip(k as int)),
            crate::sorted::views(lines@) == decode_lines(rl.take(k as int)),
        decreases raw.len() - k,
    {
        assert(rl.skip(k as int)[0] == rl[k as int]);
        assert(rl.skip(k as int).drop_first() =~= rl.skip(k + 1));
        match text_of(&raw[k]) {
            None => {
                assert(valid_prefix(rl.skip(k as int)) =~= Seq::<Seq<u8>>::empty());
                assert(rl.take(k as int) + Seq::<Seq<u8>>::empty() =~= rl.take(k as int));
                assert(valid_prefix(rl) == rl.take(k as int));
                return lines;
            },
            Some(t) => {
                let t2 = if k == 0 { without_bom(t.as_str()) } else { t };
                let ghost old_lines = crate::sorted::views(lines@);
                assert(raw@[k as int]@ == rl[k as int]);
                lines.push(t2);
                assert(crate::sorted::views(lines@) =~= old_lines.push(lines@[k as int]@));
                assert(decode_lines(rl.take(k + 1)) =~= decode_lines(rl.take(k as int)).push(
                    lines@[k as int]@,
                ));
                assert(rl.take(k + 1) =~= rl.take(k as int).push(rl[k as int]));
                assert(rl.take(k as int) + (seq![rl[k as int]] + valid_prefix(rl.skip(k + 1)))
                    =~= rl.take(k + 1) + valid_prefix(rl.skip(k + 1)));
                k = k + 1;
                assert(crate::sorted::views(lines@) =~= decode_lines(rl.take(k as int)));
            },
        }
    }
    assert(rl.take(raw.len() as int) =~= rl);
    assert(valid_prefix(rl.skip(raw.len() as int)) =~= Seq::<Seq<u8>>::empty());
    assert(rl + Seq::<Seq<u8>>::empty() =~= rl);
    lines
}

/// The contents of a stack of `.gitignore` files: each one's directory and
/// lines.
pub open spec fn file_views(stack: Seq<GitignoreFile>) -> Seq<(Seq<char>, Seq<Seq<char>>)> {
    stack.map_values(|g: GitignoreFile| (g.root@, views(g.lines@)))
}

/// What each `.gitignore` file of a stack with the contents `stack` says of
/// `path`, in the stack's order.
pub open spec fn answers_of(stack: Seq<(Seq<char>, Seq<Seq<char>>)>, path: Seq<char>, is_dir: bool) -> Seq<
    IgnoreMatch,
> {
    Seq::new(stack.len(), |i: int| gitignore_answer(stack[i].0, stack[i].1, path, is_dir))
}

/// What each `.gitignore` file of the stack `stack` says of `path`, in the
/// stack's order.
pub open spec fn stack_answers(stack: Seq<GitignoreFile>, path: Seq<char>, is_dir: bool) -> Seq<
    IgnoreMatch,
> {
    answers_of(file_views(stack), path, is_dir)
}

/// Whether a path is ignored, given what each matcher of the stack says of
/// it, outermost first: the innermost matcher that matches decides; when
/// none does, the path is kept.
pub open spec fn ignored_by(ms: Seq<IgnoreMatch>) -> bool
    decreases ms.len(),
{
    if ms.len() == 0 {
        false
    } else {
        match ms.last() {
            IgnoreMatch::Unmatched => ignored_by(ms.drop_last()),
            IgnoreMatch::Ignored => true,
            IgnoreMatch::Whitelisted => false,
        }
    }
}

/// Whether the `i`-th matcher of `ms` ignores the path and every matcher
/// after it (further inside) leaves the path unmatched.
pub open spec fn last_match_ignores(ms: Seq<IgnoreMatch>, i: int) -> bool {
    &&& 0 <= i < ms.len()
    &&& ms[i] is Ignored
    &&& forall|j: int| i < j < ms.len() ==> #[trigger] ms[j] is Unmatched
}

/// The innermost matcher that matches decides: a path is ignored exactly when
/// some matcher of the stack ignores it and every matcher inside that one
/// (later in the stack) leaves it unmatched.
pub proof fn innermost_match_decides(ms: Seq<IgnoreMatch>)
    ensures
        ignored_by(ms) <==> exists|i: int| #[trigger] last_match_ignores(ms, i),
    decreases ms.len(),
{
    if ms.len() > 0 {
        let init = ms.drop_last();
        let n = ms.len() - 1;
        innermost_match_decides(init);
        match ms.last() {
            IgnoreMatch::Unmatched => {
                if ignored_by(init) {
                    let i = choose|i: int| #[trigger] last_match_ignores(init, i);
                    assert(init[i] == ms[i]);
                    assert forall|j: int| i < j < ms.len() implies #[trigger] ms[j] is Unmatched by {
                        if j < n {
                            assert(init[j] == ms[j]);
                            assert(init[j] is Unmatched);
                        }
                    }
                    assert(last_match_ignores(ms, i));
                } else {
                    if exists|i: int| #[trigger] last_match_ignores(ms, i) {
                        let i = choose|i: int| #[trigger] last_match_ignores(ms, i);
                        assert(i != n);
                        assert(init[i] == ms[i]);
                        assert forall|j: int| i < j < init.len() implies #[trigger] init[j] is Unmatched by {
                            assert(init[j] == ms[j]);
                        }
                        assert(last_match_ignores(init, i));
                    }
                }
            },
            IgnoreMatch::Ignored => {
                assert(last_match_ignores(ms, n));
            },
            IgnoreMatch::Whitelisted => {
                if exists|i: int| #[trigger] last_match_ignores(ms, i) {
                    let i = choose|i: int| #[trigger] last_match_ignores(ms, i);
                    if i != n {
                        assert(ms[n] is Unmatched);
                    }
                }
            },
        }
    }
}

/// Whether a path is ignored, given what each matcher of the stack says of
/// it, outermost first (see [`ignored_by`]).
pub fn gitignore_verdict(ms: &Vec<IgnoreMatch>) -> (r: bool)
    ensures
        r == ignored_by(ms@),
{
    let mut i: usize = ms.len();
    assert(ms@.take(i as int) =~= ms@);
    while i > 0
        invariant
            i <= ms.len(),
            ignored_by(ms@) == ignored_by(ms@.take(i as int)),
        decreases i,
    {
        assert(ms@.take(i as int).drop_last() =~= ms@.take(i - 1));
        match ms[i - 1] {
            IgnoreMatch::Unmatched => {},
            IgnoreMatch::Ignored => {
                return true;
            },
            IgnoreMatch::Whitelisted => {
                return false;
            },
        }
        i = i - 1;
    }
    false
}

/// Whether the stack of `.gitignore` files `gitignores` (outermost first)
/// ignores `path`, a directory when `is_dir`: the innermost file whose
/// patterns match decides (see [`ignored_by`]). An empty stack ignores
/// nothing.
pub fn is_gitignored(gitignores: &Vec<GitignoreFile>, path: &str, is_dir: bool) -> (r: bool)
    ensures
        r == ignored_by(stack_answers(gitignores@, path@, is_dir)),
{
    let ghost answers = stack_answers(gitignores@, path@, is_dir);
    let mut ms: Vec<IgnoreMatch> = Vec::new();
    let mut i: usize = 0;
    while i < gitignores.len()
        invariant
            i <= gitignores.len(),
            answers == stack_answers(gitignores@, path@, is_dir),
            ms@ == answers.take(i as int),
        decreases gitignores.len() - i,
    {
        let g = &gitignores[i];
        let m = gitignore_matched(g.root.as_str(), &g.lines, path, is_dir);
        assert(file_views(gitignores@)[i as int] == (g.root@, views(g.lines@)));
        ms.push(m);
        i = i + 1;
        assert(ms@ =~= answers.take(i as int));
    }
    assert(answers.take(gitignores.len() as int) =~= answers);
    gitignore_verdict(&ms)
}

/// Whether the entry name `name` is on the ignore list `ignore`.
pub fn is_ignored_name(ignore: &Vec<String>, name: &str) -> (r: bool)
    ensures
        r == views(ignore@).contains(name@),
{
    let mut i: usize = 0;
    while i < ignore.len()
        invariant
            i <= ignore.len(),
            forall|j: int| 0 <= j < i ==> ignore@[j]@ != name@,
        decreases ignore.len() - i,
    {
        if str_equal(ignore[i].as_str(), name) {
            assert(views(ignore@)[i as int] == name@);
            return true;
        }
        i = i + 1;
    }
    assert(!views(ignore@).contains(name@)) by {
        if views(ignore@).contains(name@) {
            let j = choose|j: int| 0 <= j < views(ignore@).len() && views(ignore@)[j] == name@;
            assert(ignore@[j]@ == name@);
        }
    }
    false
}

/// What a walk does with one entry of a directory.
#[derive(Debug)]
pub enum WalkStep {
    /// Leave the entry out.
    Skip,
    /// The entry is a directory: walk into it.
    Descend,
    /// The entry is a file: keep it, under this path relative to the base.
    Keep(String),
    /// The entry is a file that does not lie under the base of the walk.
    Stray,
}

/// What a walk that started at `base` does with the entry `path` (named
/// `name`, a directory when `is_dir`), with the manifest's ignore list
/// `ignore` and the stack of `.gitignore` matchers `gitignores` met on the
/// way down. An entry named on the ignore list is left out before any
/// matcher is asked; so is one that the stack ignores (see
/// [`is_gitignored`]).
pub fn classify_entry(
    ignore: &Vec<String>,
    gitignores: &Vec<GitignoreFile>,
    base: &str,
    path: &str,
    name: &str,
    is_dir: bool,
) -> (r: WalkStep)
    ensures
        (r is Skip) == (views(ignore@).contains(name@) || ignored_by(
            stack_answers(gitignores@, path@, is_dir),
        )),
        !(r is Skip) ==> if is_dir {
            r is Descend
        } else {
            match strip_prefix(path@, base@) {
                Some(rel) => r matches WalkStep::Keep(k) && k@ == rel,
                None => r is Stray,
            }
        },
{
    if is_ignored_name(ignore, name) {
        return WalkStep::Skip;
    }
    if is_gitignored(gitignores, path, is_dir) {
        return WalkStep::Skip;
    }
    if is_dir {
        return WalkStep::Descend;
    }
    match strip_path_prefix(path, base) {
        Some(rel) => WalkStep::Keep(rel),
        None => WalkStep::Stray,
    }
}

/// A directory that a walk has still to read, with the `.gitignore` files
/// met above it and in it, outermost first.
#[derive(Debug)]
pub struct PendingDir {
    pub path: String,
    pub gitignores: Vec<GitignoreFile>,
}

/// One entry of a directory: its name, its path, and whether it is a
/// directory.
#[derive(Debug)]
pub struct DirEntry {
    pub name: String,
    pub path: String,
    pub is_dir: bool,
}

/// The contents of a list of entries.
pub open spec fn entry_views(es: Seq<DirEntry>) -> Seq<(Seq<char>, Seq<char>, bool)> {
    es.map_values(|e: DirEntry| (e.name@, e.path@, e.is_dir))
}

/// The paths of a list of directories still to read.
pub open spec fn pending_paths(ds: Seq<PendingDir>) -> Seq<Seq<char>> {
    ds.map_values(|d: PendingDir| d.path@)
}

/// The `.gitignore` stack that holds inside the directory `dir`: the files
/// met above it, then its own `.gitignore` file when it has one (with the
/// bytes `own`).
pub open spec fn dir_stack(dir: &PendingDir, own: Option<Seq<u8>>) -> Seq<(Seq<char>, Seq<Seq<char>>)> {
    match own {
        Some(b) => file_views(dir.gitignores@).push((dir.path@, gitignore_text(b))),
        None => file_views(dir.gitignores@),
    }
}

/// Inside a directory, its own `.gitignore` file takes precedence over every
/// file met above it: when its patterns match a path, its answer decides;
/// when they do not, the files above decide as they would without it. A
/// directory without a `.gitignore` file leaves the stack above it as it is.
pub proof fn own_gitignore_takes_precedence(
    dir: &PendingDir,
    own: Option<Seq<u8>>,
    path: Seq<char>,
    is_dir: bool,
)
    ensures
        ignored_by(answers_of(dir_stack(dir, own), path, is_dir)) == match own {
            Some(b) => match gitignore_answer(dir.path@, gitignore_text(b), path, is_dir) {
                IgnoreMatch::Ignored => true,
                IgnoreMatch::Whitelisted => false,
                IgnoreMatch::Unmatched => ignored_by(stack_answers(dir.gitignores@, path, is_dir)),
            },
            None => ignored_by(stack_answers(dir.gitignores@, path, is_dir)),
        },
{
    match own {
        Some(b) => {
            let above = file_views(dir.gitignores@);
            let st = dir_stack(dir, own);
            assert(st == above.push((dir.path@, gitignore_text(b))));
            let ms = answers_of(st, path, is_dir);
            assert(ms.drop_last() =~= answers_of(above, path, is_dir));
            assert(ms.last() == gitignore_answer(dir.path@, gitignore_text(b), path, is_dir));
        },
        None => {},
    }
}

/// What a walk from `base` does with one entry (named `name`, at `path`, a
/// directory when `is_dir`), given the ignore list `ignore` and the
/// `.gitignore` stack `stack`.
pub enum EntryFate {
    Skip,
    Descend,
    Keep(Seq<char>),
    Stray,
}

/// What a walk from `base` does with one entry (see [`classify_entry`]).
pub open spec fn entry_fate(
    base: Seq<char>,
    ignore: Seq<Seq<char>>,
    stack: Seq<(Seq<char>, Seq<Seq<char>>)>,
    e: (Seq<char>, Seq<char>, bool),
) -> EntryFate {
    if ignore.contains(e.0) || ignored_by(answers_of(stack, e.1, e.2)) {
        EntryFate::Skip
    } else if e.2 {
        EntryFate::Descend
    } else {
        match strip_prefix(e.1, base) {
            Some(rel) => EntryFate::Keep(rel),
            None => EntryFate::Stray,
        }
    }
}

/// What reading one directory gives a walk from `base`: the files it keeps
/// (relative to `base`) and the directories to read next, each in the
/// entries' order; `None` when some entry does not lie under `base`.
pub open spec fn walk_result(
    base: Seq<char>,
    ignore: Seq<Seq<char>>,
    stack: Seq<(Seq<char>, Seq<Seq<char>>)>,
    es: Seq<(Seq<char>, Seq<char>, bool)>,
) -> Option<(Seq<Seq<char>>, Seq<Seq<char>>)>
    decreases es.len(),
{
    if es.len() == 0 {
        Some((Seq::empty(), Seq::empty()))
    } else {
        match walk_result(base, ignore, stack, es.drop_last()) {
            None => None,
            Some((kept, dirs)) => match entry_fate(base, ignore, stack, es.last()) {
                EntryFate::Skip => Some((kept, dirs)),
                EntryFate::Descend => Some((kept, dirs.push(es.last().1))),
                EntryFate::Keep(rel) => Some((kept.push(rel), dirs)),
                EntryFate::Stray => None,
            },
        }
    }
}

proof fn lemma_walk_none_extends(
    base: Seq<char>,
    ignore: Seq<Seq<char>>,
    stack: Seq<(Seq<char>, Seq<Seq<char>>)>,
    es: Seq<(Seq<char>, Seq<char>, bool)>,
    k: int,
)
    requires
        0 <= k <= es.len(),
        walk_result(base, ignore, stack, es.take(k)) is None,
    ensures
        walk_result(base, ignore, stack, es) is None,
    decreases es.len() - k,
{
    if k == es.len() {
        assert(es.take(k) =~= es);
    } else {
        assert(es.take(k + 1).drop_last() =~= es.take(k));
        lemma_walk_none_extends(base, ignore, stack, es, k + 1);
    }
}

/// Whether no component of the path `p` is a name on the ignore list
/// `ignore`.
pub open spec fn clear_of(ignore: Seq<Seq<char>>, p: Seq<char>) -> bool {
    forall|i: int| 0 <= i < components(p).len() ==> !ignore.contains(#[trigger] components(p)[i])
}

/// Whether each entry's path is the directory `dir` followed by the
/// entry's name, component by component.
pub open spec fn entries_below(dir: Seq<char>, es: Seq<(Seq<char>, Seq<char>, bool)>) -> bool {
    forall|i: int| 0 <= i < es.len() ==> components(#[trigger] es[i].1) == components(dir).push(es[i].0)
}

/// A walk never keeps or enters what the ignore list names, at any depth:
/// when the directory being read has no component on the ignore list and
/// its entries lie in it, no file kept and no directory to read next has a
/// component on the ignore list. A walk that starts at a base without such
/// a component therefore keeps no path with one, step after step.
pub proof fn walk_keeps_clear(
    base: Seq<char>,
    ignore: Seq<Seq<char>>,
    stack: Seq<(Seq<char>, Seq<Seq<char>>)>,
    dir: Seq<char>,
    es: Seq<(Seq<char>, Seq<char>, bool)>,
)
    requires
        clear_of(ignore, dir),
        entries_below(dir, es),
        walk_result(base, ignore, stack, es) is Some,
    ensures
        forall|k: int| 0 <= k < walk_result(base, ignore, stack, es)->Some_0.0.len() ==> clear_of(
            ignore,
            #[trigger] walk_result(base, ignore, stack, es)->Some_0.0[k],
        ),
        forall|k: int| 0 <= k < walk_result(base, ignore, stack, es)->Some_0.1.len() ==> clear_of(
            ignore,
            #[trigger] walk_result(base, ignore, stack, es)->Some_0.1[k],
        ),
    decreases es.len(),
{
    if es.len() > 0 {
        let init = es.drop_last();
        assert forall|i: int| 0 <= i < init.len() implies components(#[trigger] init[i].1) == components(
            dir,
        ).push(init[i].0) by {
            assert(init[i] == es[i]);
        }
        walk_keeps_clear(base, ignore, stack, dir, init);
        let e = es.last();
        assert(e == es[es.len() - 1]);
        let ce = components(e.1);
        assert(ce == components(dir).push(e.0));
        match entry_fate(base, ignore, stack, e) {
            EntryFate::Skip => {},
            EntryFate::Descend => {
                assert forall|i: int| 0 <= i < ce.len() implies !ignore.contains(#[trigger] ce[i]) by {
                    if i < ce.len() - 1 {
                        assert(ce[i] == components(dir)[i]);
                    }
                }
            },
            EntryFate::Keep(rel) => {
                lemma_strip_rest(e.1, base);
                let cr = components(rel);
                assert forall|i: int| 0 <= i < cr.len() implies !ignore.contains(#[trigger] cr[i]) by {
                    let j = i + components(base).len();
                    assert(cr[i] == ce[j]);
                    if j < ce.len() - 1 {
                        assert(ce[j] == components(dir)[j]);
                    }
                }
            },
            EntryFate::Stray => {},
        }
    }
}

fn copy_strings(v: &Vec<String>) -> (r: Vec<String>)
    ensures
        views(r@) == views(v@),
{
    let mut r: Vec<String> = Vec::new();
    let mut i: usize = 0;
    while i < v.len()
        invariant
            i <= v.len(),
            views(r@) == views(v@).take(i as int),
        decreases v.len() - i,
    {
        let ghost before = views(r@);
        let c = crate::manifest::owned(v[i].as_str());
        r.push(c);
        assert(views(r@) =~= before.push(v@[i as int]@));
        assert(views(v@).take(i + 1) =~= views(v@).take(i as int).push(v@[i as int]@));
        i = i + 1;
    }
    assert(views(v@).take(v.len() as int) =~= views(v@));
    r
}

fn copy_stack(v: &Vec<GitignoreFile>) -> (r: Vec<GitignoreFile>)
    ensures
        file_views(r@) == file_views(v@),
{
    let mut r: Vec<GitignoreFile> = Vec::new();
    let mut i: usize = 0;
    while i < v.len()
        invariant
            i <= v.len(),
            file_views(r@) == file_views(v@).take(i as int),
        decreases v.len() - i,
    {
        let g = &v[i];
        let ghost before = file_views(r@);
        let c = GitignoreFile { root: crate::manifest::owned(g.root.as_str()), lines: copy_strings(&g.lines) };
        r.push(c);
        assert(file_views(r@) =~= before.push((g.root@, views(g.lines@))));
        assert(file_views(v@).take(i + 1) =~= file_views(v@).take(i as int).push(
            (g.root@, views(g.lines@)),
        ));
        i = i + 1;
    }
    assert(file_views(v@).take(v.len() as int) =~= file_views(v@));
    r
}

/// One step of a walk from `base` with the ignore list `ignore`: reading
/// the directory `dir`, whose `.gitignore` file holds the bytes `own` (if it
/// has one) and whose entries are `entries`. Gives the files it keeps,
/// relative to `base`, and the directories to read next, each carrying the
/// `.gitignore` stack that holds inside `dir`; fails when an entry does not
/// lie under `base`. A walk reads `base` first, with an empty stack, then
/// each directory that a step gives.
pub fn walk_dir(
    base: &str,
    ignore: &Vec<String>,
    dir: &PendingDir,
    own: Option<&Vec<u8>>,
    entries: &Vec<DirEntry>,
) -> (r: Result<(Vec<String>, Vec<PendingDir>), RootratError>)
    ensures
        match r {
            Ok((kept, dirs)) => walk_result(
                base@,
                views(ignore@),
                dir_stack(dir, match own { Some(b) => Some(b@), None => None }),
                entry_views(entries@),
            ) == Some((views(kept@), pending_paths(dirs@))) && forall|i: int| 0 <= i < dirs@.len()
                ==> file_views(#[trigger] dirs@[i].gitignores@) == dir_stack(
                dir,
                match own { Some(b) => Some(b@), None => None },
            ) && (clear_of(views(ignore@), dir.path@) && entries_below(dir.path@, entry_views(entries@))
                ==> (forall|k: int| 0 <= k < kept@.len() ==> clear_of(views(ignore@), #[trigger] kept@[k]@))
                && forall|k: int| 0 <= k < dirs@.len() ==> clear_of(views(ignore@), #[trigger] dirs@[k].path@)),
            Err(e) => walk_result(
                base@,
                views(ignore@),
                dir_stack(dir, match own { Some(b) => Some(b@), None => None }),
                entry_views(entries@),
            ) is None && e is OutsideBase,
        },
{
    let ghost ownv = match own { Some(b) => Some(b@), None => None };
    let ghost stack = dir_stack(dir, ownv);
    let ghost es = entry_views(entries@);
    let mut gis = copy_stack(&dir.gitignores);
    match own {
        Some(b) => {
            let lines = gitignore_lines(b);
            let ghost before = file_views(gis@);
            gis.push(GitignoreFile { root: crate::manifest::owned(dir.path.as_str()), lines });
            assert(file_views(gis@) =~= before.push((dir.path@, gitignore_text(b@))));
        },
        None => {},
    }
    assert(file_views(gis@) == stack);
    let mut kept: Vec<String> = Vec::new();
    let mut dirs: Vec<PendingDir> = Vec::new();
    let mut i: usize = 0;
    assert(es.take(0) =~= Seq::<(Seq<char>, Seq<char>, bool)>::empty());
    assert(views(kept@) =~= Seq::<Seq<char>>::empty());
    assert(pending_paths(dirs@) =~= Seq::<Seq<char>>::empty());
    while i < entries.len()
        invariant
            i <= entries.len(),
            es == entry_views(entries@),
            file_views(gis@) == stack,
            ownv == (match own {
                Some(b) => Some(b@),
                None => None,
            }),
            stack == dir_stack(dir, ownv),
            walk_result(base@, views(ignore@), stack, es.take(i as int)) == Some(
                (views(kept@), pending_paths(dirs@)),
            ),
            forall|j: int| 0 <= j < dirs@.len() ==> file_views(#[trigger] dirs@[j].gitignores@) == stack,
        decreases entries.len() - i,
    {
        let e = &entries[i];
        assert(es.take(i + 1).drop_last() =~= es.take(i as int));
        assert(es.take(i + 1).last() == (e.name@, e.path@, e.is_dir));
        let step = classify_entry(ignore, &gis, base, e.path.as_str(), e.name.as_str(), e.is_dir);
        let ghost before_kept = views(kept@);
        let ghost before_dirs = pending_paths(dirs@);
        match step {
            WalkStep::Skip => {},
            WalkStep::Descend => {
                let g = copy_stack(&gis);
                dirs.push(PendingDir { path: crate::manifest::owned(e.path.as_str()), gitignores: g });
                assert(pending_paths(dirs@) =~= before_dirs.push(e.path@));
            },
            WalkStep::Keep(rel) => {
                kept.push(rel);
                assert(views(kept@) =~= before_kept.push(kept@[kept@.len() - 1]@));
            },
            WalkStep::Stray => {
                proof {
                    assert(stack_answers(gis@, e.path@, e.is_dir) == answers_of(stack, e.path@, e.is_dir));
                    assert(entry_fate(base@, views(ignore@), stack, (e.name@, e.path@, e.is_dir)) is Stray);
                    assert(walk_result(base@, views(ignore@), stack, es.take(i + 1)) is None);
                    lemma_walk_none_extends(base@, views(ignore@), stack, es, (i + 1) as int);
                }
                return Err(RootratError::OutsideBase { path: e.path.clone() });
            },
        }
        i = i + 1;
    }
    assert(es.take(entries.len() as int) =~= es);
    proof {
        if clear_of(views(ignore@), dir.path@) && entries_below(dir.path@, es) {
            walk_keeps_clear(base@, views(ignore@), stack, dir.path@, es);
            assert forall|k: int| 0 <= k < kept@.len() implies clear_of(views(ignore@), #[trigger] kept@[k]@) by {
                assert(views(kept@)[k] == kept@[k]@);
                let w = walk_result(base@, views(ignore@), stack, es)->Some_0;
                assert(w.0 == views(kept@));
                assert(clear_of(views(ignore@), w.0[k]));
            }
            assert forall|k: int| 0 <= k < dirs@.len() implies clear_of(views(ignore@), #[trigger] dirs@[k].path@) by {
                assert(pending_paths(dirs@)[k] == dirs@[k].path@);
                let w = walk_result(base@, views(ignore@), stack, es)->Some_0;
                assert(w.1 == pending_paths(dirs@));
                assert(clear_of(views(ignore@), w.1[k]));
            }
        }
    }
    Ok((kept, dirs))
}

} // verus!
