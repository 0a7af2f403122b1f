//! Paths as `/`-separated strings.
//!
//! A path is read by its components: the pieces between separators, leaving
//! out empty pieces and `.`. Joining and prefix stripping follow
//! `std::path::Path`: prefixes are compared by components, and what is left
//! after a prefix is the path's own text from the next component on, with
//! empty and `.` pieces taken off only at its two ends.
use vstd::prelude::*;
use crate::order::{compare_chars, Order};
use crate::text::{chars_of, string_of, push_char, push_chars};

verus! {

/// Whether a piece between separators is a component.
pub open spec fn is_component(seg: Seq<char>) -> bool {
    seg.len() > 0 && seg != seq!['.']
}

/// The piece `cur` as a list of components (empty when it is not one).
pub open spec fn finish(cur: Seq<char>) -> Seq<Seq<char>> {
    if is_component(cur) {
        seq![cur]
    } else {
        seq![]
    }
}

/// The components of `cur + s`, where `cur` holds no separator.
pub open spec fn scan(cur: Seq<char>, s: Seq<char>) -> Seq<Seq<char>>
    decreases s.len(),
{
    if s.len() == 0 {
        finish(cur)
    } else if s[0] == '/' {
        finish(cur) + scan(seq![], s.drop_first())
    } else {
        scan(cur.push(s[0]), s.drop_first())
    }
}

/// The components of the path `s`.
pub open spec fn components(s: Seq<char>) -> Seq<Seq<char>> {
    scan(seq![], s)
}

/// Whether the path `s` starts at the root.
pub open spec fn is_absolute(s: Seq<char>) -> bool {
    s.len() > 0 && s[0] == '/'
}

/// `rel` joined onto `base`, as `PathBuf::push` does it: an absolute `rel`
/// replaces `base`; otherwise a separator is put between them unless `base` is
/// empty or already ends with one.
pub open spec fn join(base: Seq<char>, rel: Seq<char>) -> Seq<char> {
    if is_absolute(rel) {
        rel
    } else if base.len() == 0 || base.last() == '/' {
        base + rel
    } else {
        base + seq!['/'] + rel
    }
}

/// Whether `s` starts with a `.` piece: `.` alone or followed by `/`.
pub open spec fn is_dot_piece(s: Seq<char>) -> bool {
    s.len() > 0 && s[0] == '.' && (s.len() == 1 || s[1] == '/')
}

/// Whether `s` ends with a `.` piece: `.` alone or after a `/`.
pub open spec fn ends_with_dot_piece(s: Seq<char>) -> bool {
    s.len() > 0 && s.last() == '.' && (s.len() == 1 || s[s.len() - 2] == '/')
}

/// `s` without the separators and `.` pieces it starts with.
pub open spec fn skip_empty(s: Seq<char>) -> Seq<char>
    decreases s.len(),
{
    if s.len() > 0 && (s[0] == '/' || is_dot_piece(s)) {
        skip_empty(s.drop_first())
    } else {
        s
    }
}

/// `s` from its first separator on.
pub open spec fn drop_piece(s: Seq<char>) -> Seq<char>
    decreases s.len(),
{
    if s.len() > 0 && s[0] != '/' {
        drop_piece(s.drop_first())
    } else {
        s
    }
}

/// The text of `s` after its first `n` components, from the next component
/// on.
pub open spec fn after_components(s: Seq<char>, n: nat) -> Seq<char>
    decreases n,
{
    if n == 0 {
        skip_empty(s)
    } else {
        after_components(drop_piece(skip_empty(s)), (n - 1) as nat)
    }
}

/// `s` without the separators and `.` pieces it ends with, keeping at least
/// its first `keep` characters.
pub open spec fn trim_tail(s: Seq<char>, keep: int) -> Seq<char>
    decreases s.len(),
{
    if s.len() > keep && s.len() > 0 && (s.last() == '/' || ends_with_dot_piece(s)) {
        trim_tail(s.drop_last(), keep)
    } else {
        s
    }
}

/// How much of the start of `s` an empty prefix leaves in place: its root,
/// or a leading `.` piece.
pub open spec fn head_len(s: Seq<char>) -> int {
    if is_absolute(s) || is_dot_piece(s) {
        1
    } else {
        0
    }
}

/// What `Path::strip_prefix` leaves of `p` once `base` is taken off; `None`
/// when `base` does not lead `p`. `base` leads `p` when both are absolute or
/// both relative, both start with a `.` piece or neither does, and the
/// components of `base` start those of `p`. What is left is the text of `p`
/// after those components, without separators and `.` pieces at its two
/// ends. An empty `base` leads every path and leaves it with only its
/// trailing separators and `.` pieces taken off.
pub open spec fn strip_prefix(p: Seq<char>, base: Seq<char>) -> Option<Seq<char>> {
    let cp = components(p);
    let cb = components(base);
    if base.len() == 0 {
        Some(trim_tail(p, head_len(p)))
    } else if is_absolute(p) == is_absolute(base) && is_dot_piece(p) == is_dot_piece(base) && cb.len()
        <= cp.len() && cp.take(cb.len() as int) == cb {
        Some(trim_tail(after_components(p, cb.len()), 0))
    } else {
        None
    }
}

/// The character sequences of a sequence of character vectors.
pub open spec fn char_views(v: Seq<Vec<char>>) -> Seq<Seq<char>> {
    v.map_values(|c: Vec<char>| c@)
}

proof fn lemma_scan_step(cur: Seq<char>, s: Seq<char>, i: int)
    requires
        0 <= i < s.len(),
    ensures
        s[i] == '/' ==> scan(cur, s.skip(i)) == finish(cur) + scan(seq![], s.skip(i + 1)),
        s[i] != '/' ==> scan(cur, s.skip(i)) == scan(cur.push(s[i]), s.skip(i + 1)),
{
    assert(s.skip(i).drop_first() =~= s.skip(i + 1));
    assert(s.skip(i)[0] == s[i]);
}

/// The components of the path `s`.
pub fn components_of(s: &Vec<char>) -> (r: Vec<Vec<char>>)
    ensures
        char_views(r@) == components(s@),
{
    let mut acc: Vec<Vec<char>> = Vec::new();
    let mut cur: Vec<char> = Vec::new();
    let mut i: usize = 0;
    assert(s@.skip(0) =~= s@);
    while i < s.len()
        invariant
            i <= s.len(),
            char_views(acc@) + scan(cur@, s@.skip(i as int)) == components(s@),
        decreases s.len() - i,
    {
        proof {
            lemma_scan_step(cur@, s@, i as int);
        }
        let c = s[i];
        if c == '/' {
            let keep = cur.len() > 0 && !(cur.len() == 1 && cur[0] == '.');
            assert(keep == is_component(cur@)) by {
                if cur@ == seq!['.'] {
                    assert(cur@.len() == 1 && cur@[0] == '.');
                }
                if cur@.len() == 1 && cur@[0] == '.' {
                    assert(cur@ =~= seq!['.']);
                }
            }
            let ghost before = char_views(acc@);
            let ghost cv = cur@;
            if keep {
                acc.push(cur);
                assert(char_views(acc@) =~= before + finish(cv));
            } else {
                assert(char_views(acc@) =~= before + finish(cv));
            }
            cur = Vec::new();
            assert(cur@ =~= Seq::<char>::empty());
            assert(char_views(acc@) + scan(cur@, s@.skip(i + 1)) =~= before + scan(cv, s@.skip(i as int)));
        } else {
            cur.push(c);
        }
        assert(s@.skip(i + 1) == s@.skip((i + 1) as int));
        i = i + 1;
    }
    proof {
        assert(s@.skip(i as int).len() == 0);
    }
    let keep = cur.len() > 0 && !(cur.len() == 1 && cur[0] == '.');
    assert(keep == is_component(cur@)) by {
        if cur@ == seq!['.'] {
            assert(cur@.len() == 1 && cur@[0] == '.');
        }
        if cur@.len() == 1 && cur@[0] == '.' {
            assert(cur@ =~= seq!['.']);
        }
    }
    let ghost before = char_views(acc@);
    if keep {
        acc.push(cur);
        assert(char_views(acc@) =~= before + seq![cur@]);
    } else {
        assert(char_views(acc@) =~= before);
    }
    acc
}


proof fn lemma_skip_step(p: Seq<char>, i: int)
    requires
        0 <= i < p.len(),
    ensures
        p.skip(i).drop_first() == p.skip(i + 1),
        p.skip(i)[0] == p[i],
        is_dot_piece(p.skip(i)) == (p[i] == '.' && (i + 1 == p.len() || p[i + 1] == '/')),
{
    assert(p.skip(i).drop_first() =~= p.skip(i + 1));
}

/// Where `p` goes on from position `i` once separators and `.` pieces are
/// passed.
fn skip_empty_at(p: &Vec<char>, i: usize) -> (j: usize)
    requires
        i <= p.len(),
    ensures
        i <= j <= p.len(),
        p@.skip(j as int) == skip_empty(p@.skip(i as int)),
{
    let mut j = i;
    while j < p.len() && (p[j] == '/' || (p[j] == '.' && (j + 1 == p.len() || p[j + 1] == '/')))
        invariant
            i <= j <= p.len(),
            skip_empty(p@.skip(j as int)) == skip_empty(p@.skip(i as int)),
        decreases p.len() - j,
    {
        proof {
            lemma_skip_step(p@, j as int);
        }
        j = j + 1;
    }
    proof {
        if j < p.len() {
            lemma_skip_step(p@, j as int);
        }
    }
    j
}

/// Where the piece of `p` that starts at position `i` ends.
fn drop_piece_at(p: &Vec<char>, i: usize) -> (j: usize)
    requires
        i <= p.len(),
    ensures
        i <= j <= p.len(),
        p@.skip(j as int) == drop_piece(p@.skip(i as int)),
{
    let mut j = i;
    while j < p.len() && p[j] != '/'
        invariant
            i <= j <= p.len(),
            drop_piece(p@.skip(j as int)) == drop_piece(p@.skip(i as int)),
        decreases p.len() - j,
    {
        proof {
            lemma_skip_step(p@, j as int);
        }
        j = j + 1;
    }
    proof {
        if j < p.len() {
            lemma_skip_step(p@, j as int);
        }
    }
    j
}

/// Where `p` from position `start` ends once its trailing separators and
/// `.` pieces are taken off, keeping at least `keep` characters.
fn trim_tail_end(p: &Vec<char>, start: usize, keep: usize) -> (end: usize)
    requires
        start <= p.len(),
    ensures
        start <= end <= p.len(),
        p@.subrange(start as int, end as int) == trim_tail(p@.skip(start as int), keep as int),
{
    let mut end = p.len();
    assert(p@.subrange(start as int, end as int) =~= p@.skip(start as int));
    while end > start && end - start > keep && (p[end - 1] == '/' || (p[end - 1] == '.' && (end
        - start == 1 || p[end - 2] == '/')))
        invariant
            start <= end <= p.len(),
            trim_tail(p@.skip(start as int), keep as int) == trim_tail(
                p@.subrange(start as int, end as int),
                keep as int,
            ),
        decreases end,
    {
        let ghost t = p@.subrange(start as int, end as int);
        assert(t.drop_last() =~= p@.subrange(start as int, end - 1));
        assert(t.last() == p@[end - 1]);
        assert(end - start >= 2 ==> t[t.len() - 2] == p@[end - 2]);
        end = end - 1;
    }
    proof {
        let t = p@.subrange(start as int, end as int);
        if end > start {
            assert(t.last() == p@[end - 1]);
            assert(end - start >= 2 ==> t[t.len() - 2] == p@[end - 2]);
        }
    }
    end
}

/// The characters of `p` from `start` to `end`.
fn chars_between(p: &Vec<char>, start: usize, end: usize) -> (r: Vec<char>)
    requires
        start <= end <= p.len(),
    ensures
        r@ == p@.subrange(start as int, end as int),
{
    let mut r: Vec<char> = Vec::new();
    let mut i = start;
    while i < end
        invariant
            start <= i <= end <= p.len(),
            r@ == p@.subrange(start as int, i as int),
        decreases end - i,
    {
        r.push(p[i]);
        i = i + 1;
        assert(r@ =~= p@.subrange(start as int, i as int));
    }
    r
}

/// What is left of the path `p` once the leading components of `base` are
/// taken off, or `None` when `base` does not lead `p` (see [`strip_prefix`]).
pub fn strip_prefix_chars(p: &Vec<char>, base: &Vec<char>) -> (r: Option<Vec<char>>)
    ensures
        match r {
            Some(v) => strip_prefix(p@, base@) == Some(v@),
            None => strip_prefix(p@, base@) is None,
        },
{
    if base.len() == 0 {
        let keep: usize = if p.len() > 0 && (p[0] == '/' || (p[0] == '.' && (p.len() == 1 || p[1] == '/'))) {
            1
        } else {
            0
        };
        let end = trim_tail_end(p, 0, keep);
        assert(p@.skip(0) =~= p@);
        return Some(chars_between(p, 0, end));
    }
    let p_abs = p.len() > 0 && p[0] == '/';
    let b_abs = base.len() > 0 && base[0] == '/';
    let p_dot = p.len() > 0 && p[0] == '.' && (p.len() == 1 || p[1] == '/');
    let b_dot = base.len() > 0 && base[0] == '.' && (base.len() == 1 || base[1] == '/');
    let cp = components_of(p);
    let cb = components_of(base);
    let ghost vp = char_views(cp@);
    let ghost vb = char_views(cb@);
    if p_abs != b_abs || p_dot != b_dot || cb.len() > cp.len() {
        return None;
    }
    let mut i: usize = 0;
    while i < cb.len()
        invariant
            i <= cb.len() <= cp.len(),
            vp == char_views(cp@),
            vb == char_views(cb@),
            vp == components(p@),
            vb == components(base@),
            vp.take(i as int) == vb.take(i as int),
        decreases cb.len() - i,
    {
        match compare_chars(&cp[i], &cb[i], false) {
            Order::Equal => {
                assert(vp.take(i + 1) =~= vp.take(i as int).push(vp[i as int]));
                assert(vb.take(i + 1) =~= vb.take(i as int).push(vb[i as int]));
                i = i + 1;
            },
            _ => {
                proof {
                    assert(vp.take(vb.len() as int)[i as int] != vb[i as int]);
                    assert(vp.take(vb.len() as int) != vb);
                    assert(components(p@) == vp && components(base@) == vb);
                }
                return None;
            },
        }
    }
    assert(vb.take(cb.len() as int) =~= vb);
    let n = cb.len();
    let mut pos: usize = 0;
    let mut k: usize = 0;
    assert(p@.skip(0) =~= p@);
    while k < n
        invariant
            k <= n,
            pos <= p.len(),
            after_components(p@, n as nat) == after_components(p@.skip(pos as int), (n - k) as nat),
        decreases n - k,
    {
        let a = skip_empty_at(p, pos);
        pos = drop_piece_at(p, a);
        k = k + 1;
    }
    let start = skip_empty_at(p, pos);
    let end = trim_tail_end(p, start, 0);
    Some(chars_between(p, start, end))
}

/// Whether the path `p` starts at the root.
pub fn path_is_absolute(p: &str) -> (b: bool)
    ensures
        b == is_absolute(p@),
{
    let cs = chars_of(p);
    cs.len() > 0 && cs[0] == '/'
}

/// `rel` joined onto `base` (see [`join`]).
pub fn join_path(base: &str, rel: &str) -> (r: String)
    ensures
        r@ == join(base@, rel@),
{
    let b = chars_of(base);
    let rc = chars_of(rel);
    if rc.len() > 0 && rc[0] == '/' {
        return string_of(&rc);
    }
    let mut out = string_of(&b);
    if b.len() > 0 && b[b.len() - 1] != '/' {
        push_char(&mut out, '/');
    }
    push_chars(&mut out, &rc);
    out
}

/// What is left of the path `p` once the leading components of `base` are
/// taken off (see [`strip_prefix`]).
pub fn strip_path_prefix(p: &str, base: &str) -> (r: Option<String>)
    ensures
        match r {
            Some(v) => strip_prefix(p@, base@) == Some(v@),
            None => strip_prefix(p@, base@) is None,
        },
{
    let pc = chars_of(p);
    let bc = chars_of(base);
    match strip_prefix_chars(&pc, &bc) {
        Some(v) => Some(string_of(&v)),
        None => None,
    }
}

/// Reading a path across a separator: the components of `s`, then those
/// of `t`.
proof fn lemma_scan_split(cur: Seq<char>, s: Seq<char>, t: Seq<char>)
    ensures
        scan(cur, s + seq!['/'] + t) == scan(cur, s) + scan(seq![], t),
    decreases s.len(),
{
    let whole = s + seq!['/'] + t;
    if s.len() == 0 {
        assert(whole[0] == '/');
        assert(whole.drop_first() =~= t);
        assert(scan(cur, s) == finish(cur));
    } else {
        assert(whole[0] == s[0]);
        assert(whole.drop_first() =~= s.drop_first() + seq!['/'] + t);
        if s[0] == '/' {
            lemma_scan_split(seq![], s.drop_first(), t);
            assert(scan(cur, whole) =~= scan(cur, s) + scan(seq![], t));
        } else {
            lemma_scan_split(cur.push(s[0]), s.drop_first(), t);
        }
    }
}

/// The components of `rel` joined onto `base` are those of `base`, then
/// those of `rel`, when `rel` is relative.
pub proof fn lemma_components_join(base: Seq<char>, rel: Seq<char>)
    requires
        !is_absolute(rel),
    ensures
        components(join(base, rel)) == components(base) + components(rel),
{
    if base.len() == 0 {
        assert(base + rel =~= rel);
        assert(components(base) =~= Seq::<Seq<char>>::empty());
        assert(components(join(base, rel)) =~= components(base) + components(rel));
    } else if base.last() == '/' {
        let b0 = base.drop_last();
        assert(base =~= b0 + seq!['/'] + Seq::<char>::empty());
        assert(base + rel =~= b0 + seq!['/'] + rel);
        lemma_scan_split(seq![], b0, rel);
        lemma_scan_split(seq![], b0, Seq::<char>::empty());
        assert(scan(seq![], Seq::<char>::empty()) =~= Seq::<Seq<char>>::empty());
        assert(components(base) =~= components(b0));
    } else {
        lemma_scan_split(seq![], base, rel);
    }
}

/// The first piece of `s`: its characters up to the first separator.
pub open spec fn take_piece(s: Seq<char>) -> Seq<char>
    decreases s.len(),
{
    if s.len() > 0 && s[0] != '/' {
        seq![s[0]] + take_piece(s.drop_first())
    } else {
        seq![]
    }
}

proof fn lemma_scan_piece(cur: Seq<char>, t: Seq<char>)
    ensures
        scan(cur, t) == finish(cur + take_piece(t)) + components(drop_piece(t)),
        t.len() > 0 && t[0] != '/' ==> take_piece(t).len() > 0 && take_piece(t)[0] == t[0],
        take_piece(t).len() == 1 ==> (drop_piece(t).len() == 0 || drop_piece(t)[0] == '/'),
        t.len() > 1 && t[0] != '/' && t[1] != '/' ==> take_piece(t).len() > 1,
    decreases t.len(),
{
    if t.len() == 0 {
        assert(cur + take_piece(t) =~= cur);
        assert(components(drop_piece(t)) =~= Seq::<Seq<char>>::empty());
        assert(finish(cur) + Seq::<Seq<char>>::empty() =~= finish(cur));
    } else if t[0] == '/' {
        assert(cur + take_piece(t) =~= cur);
        assert(components(t) == finish(seq![]) + scan(seq![], t.drop_first()));
        assert(finish(seq![]) =~= Seq::<Seq<char>>::empty());
        assert(Seq::<Seq<char>>::empty() + scan(seq![], t.drop_first()) =~= scan(seq![], t.drop_first()));
    } else {
        lemma_scan_piece(cur.push(t[0]), t.drop_first());
        assert(cur.push(t[0]) + take_piece(t.drop_first()) =~= cur + take_piece(t));
    }
}

/// Separators and `.` pieces at the start of a path do not change its
/// components.
pub proof fn lemma_components_skip_empty(s: Seq<char>)
    ensures
        components(skip_empty(s)) == components(s),
        skip_empty(s).len() == 0 || (skip_empty(s)[0] != '/' && !is_dot_piece(skip_empty(s))),
        skip_empty(s).len() <= s.len(),
    decreases s.len(),
{
    if s.len() > 0 && (s[0] == '/' || is_dot_piece(s)) {
        lemma_components_skip_empty(s.drop_first());
        let r = s.drop_first();
        if s[0] == '/' {
            assert(components(s) == finish(seq![]) + scan(seq![], r));
            assert(finish(seq![]) =~= Seq::<Seq<char>>::empty());
            assert(Seq::<Seq<char>>::empty() + scan(seq![], r) =~= scan(seq![], r));
        } else {
            assert(components(s) == scan(seq!['.'], r));
            assert(finish(seq!['.']) =~= Seq::<Seq<char>>::empty());
            if r.len() == 0 {
                assert(components(r) =~= Seq::<Seq<char>>::empty());
            } else {
                assert(r[0] == '/');
                assert(components(r) == finish(seq![]) + scan(seq![], r.drop_first()));
                assert(finish(seq![]) =~= Seq::<Seq<char>>::empty());
                assert(Seq::<Seq<char>>::empty() + scan(seq![], r.drop_first()) =~= scan(seq![], r.drop_first()));
                assert(scan(seq!['.'], r) == finish(seq!['.']) + scan(seq![], r.drop_first()));
            }
        }
    }
}

/// The text after the first `n` components of a path has the path's
/// components from the `n`-th on, and starts with none of the separators.
pub proof fn lemma_components_after(s: Seq<char>, n: nat)
    requires
        n <= components(s).len(),
    ensures
        components(after_components(s, n)) == components(s).skip(n as int),
        after_components(s, n).len() == 0 || after_components(s, n)[0] != '/',
    decreases n,
{
    lemma_components_skip_empty(s);
    let t = skip_empty(s);
    if n == 0 {
        assert(components(s).skip(0) =~= components(s));
    } else {
        if t.len() == 0 {
            assert(components(t) =~= Seq::<Seq<char>>::empty());
        }
        lemma_scan_piece(seq![], t);
        let pc = take_piece(t);
        assert(seq![] + pc =~= pc);
        assert(pc != seq!['.']) by {
            if pc == seq!['.'] {
                assert(pc.len() == 1);
                if t.len() > 1 {
                    assert(t[1] == '/');
                }
            }
        }
        assert(finish(pc) == seq![pc]);
        assert(components(drop_piece(t)) =~= components(s).drop_first());
        lemma_components_after(drop_piece(t), (n - 1) as nat);
        assert(components(s).drop_first().skip(n - 1) =~= components(s).skip(n as int));
    }
}

/// Separators and `.` pieces at the end of a path do not change its
/// components; taking them off keeps a prefix of the text, and at least
/// `keep` characters of it.
pub proof fn lemma_components_trim_tail(s: Seq<char>, keep: int)
    ensures
        components(trim_tail(s, keep)) == components(s),
        trim_tail(s, keep) == s.take(trim_tail(s, keep).len() as int),
        trim_tail(s, keep).len() <= s.len(),
        s.len() >= keep ==> trim_tail(s, keep).len() >= keep,
    decreases s.len(),
{
    if s.len() > keep && s.len() > 0 && (s.last() == '/' || ends_with_dot_piece(s)) {
        let a = s.drop_last();
        lemma_components_trim_tail(a, keep);
        assert(a.take(trim_tail(a, keep).len() as int) =~= s.take(trim_tail(a, keep).len() as int));
        if s.last() == '/' {
            assert(s =~= a + seq!['/'] + Seq::<char>::empty());
            lemma_scan_split(seq![], a, Seq::<char>::empty());
            assert(scan(seq![], Seq::<char>::empty()) =~= Seq::<Seq<char>>::empty());
            assert(components(s) =~= components(a));
        } else if s.len() == 1 {
            assert(s =~= seq!['.']);
            assert(seq!['.'].drop_first() =~= Seq::<char>::empty());
            assert(Seq::<char>::empty().push('.') =~= seq!['.']);
            assert(components(s) == scan(seq!['.'], Seq::<char>::empty()));
            assert(components(s) =~= Seq::<Seq<char>>::empty());
            assert(components(a) =~= Seq::<Seq<char>>::empty());
        } else {
            let b = s.take(s.len() - 2);
            assert(s =~= b + seq!['/'] + seq!['.']);
            assert(a =~= b + seq!['/'] + Seq::<char>::empty());
            lemma_scan_split(seq![], b, seq!['.']);
            lemma_scan_split(seq![], b, Seq::<char>::empty());
            assert(seq!['.'].drop_first() =~= Seq::<char>::empty());
            assert(Seq::<char>::empty().push('.') =~= seq!['.']);
            assert(scan(seq![], seq!['.']) == scan(seq!['.'], Seq::<char>::empty()));
            assert(scan(seq![], seq!['.']) =~= Seq::<Seq<char>>::empty());
            assert(scan(seq![], Seq::<char>::empty()) =~= Seq::<Seq<char>>::empty());
            assert(components(s) =~= components(b));
            assert(components(a) =~= components(b));
        }
    } else {
        assert(s.take(s.len() as int) =~= s);
    }
}

/// What is left of `p` after `base` has the components of `p` after those
/// of `base`; it is relative unless `base` is empty, and then it keeps the
/// root of an absolute `p`.
pub proof fn lemma_strip_rest(p: Seq<char>, base: Seq<char>)
    requires
        strip_prefix(p, base) is Some,
    ensures
        components(strip_prefix(p, base)->Some_0) == components(p).skip(components(base).len() as int),
        components(p).take(components(base).len() as int) == components(base),
        base.len() > 0 ==> !is_absolute(strip_prefix(p, base)->Some_0),
        base.len() == 0 && is_absolute(p) ==> is_absolute(strip_prefix(p, base)->Some_0),
{
    let cp = components(p);
    let cb = components(base);
    if base.len() == 0 {
        assert(cb == crate::paths::finish(Seq::<char>::empty()));
        assert(cb =~= Seq::<Seq<char>>::empty());
        lemma_components_trim_tail(p, head_len(p));
        assert(cp.skip(0) =~= cp);
        assert(cp.take(0) =~= cb);
    } else {
        lemma_components_after(p, cb.len());
        let a = after_components(p, cb.len());
        lemma_components_trim_tail(a, 0);
        let rel = trim_tail(a, 0);
        if rel.len() > 0 {
            assert(rel[0] == a[0]);
        }
    }
}

} // verus!
