//! Reading what `git` printed: whether a failed commit only had nothing to
//! commit, and the commit counts that `git rev-list --count` prints.
use vstd::prelude::*;
use crate::text::{chars_of, string_of};

verus! {

/// Whether `c` is white space in Unicode (`char::is_whitespace`).
pub open spec fn is_white(c: char) -> bool {
    ||| ('\u{9}' <= c && c <= '\u{d}')
    ||| c == ' '
    ||| c == '\u{85}'
    ||| c == '\u{a0}'
    ||| c == '\u{1680}'
    ||| ('\u{2000}' <= c && c <= '\u{200a}')
    ||| c == '\u{2028}'
    ||| c == '\u{2029}'
    ||| c == '\u{202f}'
    ||| c == '\u{205f}'
    ||| c == '\u{3000}'
}

/// `s` without the white space it starts with.
pub open spec fn trim_start(s: Seq<char>) -> Seq<char>
    decreases s.len(),
{
    if s.len() > 0 && is_white(s[0]) {
        trim_start(s.drop_first())
    } else {
        s
    }
}

/// `s` without the white space it ends with.
pub open spec fn trim_end(s: Seq<char>) -> Seq<char>
    decreases s.len(),
{
    if s.len() > 0 && is_white(s.last()) {
        trim_end(s.drop_last())
    } else {
        s
    }
}

/// `s` without white space at either end (`str::trim`).
pub open spec fn trimmed(s: Seq<char>) -> Seq<char> {
    trim_start(trim_end(s))
}

/// Whether `c` is an ASCII digit.
pub open spec fn is_digit(c: char) -> bool {
    '0' <= c && c <= '9'
}

/// The number that the decimal digits `d` write.
pub open spec fn digits_value(d: Seq<char>) -> nat
    decreases d.len(),
{
    if d.len() == 0 {
        0
    } else {
        digits_value(d.drop_last()) * 10 + ((d.last() as int) - ('0' as int)) as nat
    }
}

/// The digits of a count as `usize::from_str` reads it: one optional
/// leading `+` is allowed when something follows it.
pub open spec fn count_digits(t: Seq<char>) -> Seq<char> {
    if t.len() > 1 && t[0] == '+' {
        t.skip(1)
    } else {
        t
    }
}

/// Whether `t` reads as a `usize`: at least one digit, nothing but digits
/// (after the optional `+`), and a value that fits.
pub open spec fn reads_as_count(t: Seq<char>) -> bool {
    let d = count_digits(t);
    &&& d.len() > 0
    &&& forall|i: int| 0 <= i < d.len() ==> is_digit(#[trigger] d[i])
    &&& digits_value(d) <= usize::MAX
}

/// The count that the output `out` of `git rev-list --count` gives: the
/// trimmed output read as a `usize`, or 0 when it does not read as one.
pub open spec fn count_of(out: Seq<char>) -> nat {
    let t = trimmed(out);
    if reads_as_count(t) {
        digits_value(count_digits(t))
    } else {
        0
    }
}

proof fn lemma_digits_prefix(d: Seq<char>, i: int)
    requires
        0 <= i <= d.len(),
    ensures
        digits_value(d.take(i)) <= digits_value(d),
    decreases d.len() - i,
{
    if i < d.len() {
        lemma_digits_prefix(d, i + 1);
        assert(d.take(i + 1).drop_last() =~= d.take(i));
    } else {
        assert(d.take(i) =~= d);
    }
}

/// `s` without white space at either end.
pub fn trim_text(s: &str) -> (r: String)
    ensures
        r@ == trimmed(s@),
{
    let cs = chars_of(s);
    let mut end: usize = cs.len();
    assert(cs@.take(end as int) =~= cs@);
    while end > 0 && (('\u{9}' <= cs[end - 1] && cs[end - 1] <= '\u{d}') || cs[end - 1] == ' '
        || cs[end - 1] == '\u{85}' || cs[end - 1] == '\u{a0}' || cs[end - 1] == '\u{1680}' || (
    '\u{2000}' <= cs[end - 1] && cs[end - 1] <= '\u{200a}') || cs[end - 1] == '\u{2028}' || cs[end
        - 1] == '\u{2029}' || cs[end - 1] == '\u{202f}' || cs[end - 1] == '\u{205f}' || cs[end - 1]
        == '\u{3000}')
        invariant
            end <= cs.len(),
            cs@ == s@,
            trim_end(s@) == trim_end(cs@.take(end as int)),
        decreases end,
    {
        assert(cs@.take(end as int).drop_last() =~= cs@.take(end - 1));
        end = end - 1;
    }
    let ghost te = cs@.take(end as int);
    assert(trim_end(te) == te);
    let mut start: usize = 0;
    assert(te.skip(0) =~= te);
    while start < end && (('\u{9}' <= cs[start] && cs[start] <= '\u{d}') || cs[start] == ' '
        || cs[start] == '\u{85}' || cs[start] == '\u{a0}' || cs[start] == '\u{1680}' || (
    '\u{2000}' <= cs[start] && cs[start] <= '\u{200a}') || cs[start] == '\u{2028}' || cs[start]
        == '\u{2029}' || cs[start] == '\u{202f}' || cs[start] == '\u{205f}' || cs[start]
        == '\u{3000}')
        invariant
            start <= end <= cs.len(),
            te == cs@.take(end as int),
            trim_start(te) == trim_start(te.skip(start as int)),
        decreases end - start,
    {
        assert(te.skip(start as int).drop_first() =~= te.skip(start + 1));
        start = start + 1;
    }
    assert(trim_start(te.skip(start as int)) == te.skip(start as int));
    let mut out: Vec<char> = Vec::new();
    let mut i = start;
    while i < end
        invariant
            start <= i <= end <= cs.len(),
            out@ == cs@.subrange(start as int, i as int),
        decreases end - i,
    {
        out.push(cs[i]);
        i = i + 1;
        assert(out@ =~= cs@.subrange(start as int, i as int));
    }
    assert(out@ =~= te.skip(start as int));
    string_of(&out)
}

/// The count that the output `out` of `git rev-list --count` gives (see
/// [`count_of`]).
pub fn parse_count(out: &str) -> (n: usize)
    ensures
        n == count_of(out@),
{
    let t = trim_text(out);
    let cs = chars_of(t.as_str());
    let from: usize = if cs.len() > 1 && cs[0] == '+' { 1 } else { 0 };
    let ghost d = count_digits(t@);
    assert(d =~= cs@.skip(from as int));
    if from == cs.len() {
        return 0;
    }
    let mut acc: usize = 0;
    let mut i = from;
    assert(d.take(0) =~= Seq::<char>::empty());
    while i < cs.len()
        invariant
            from <= i <= cs.len(),
            t@ == trimmed(out@),
            cs@ == t@,
            d == count_digits(t@),
            d == cs@.skip(from as int),
            forall|j: int| 0 <= j < i - from ==> is_digit(#[trigger] d[j]),
            acc == digits_value(d.take(i - from)),
        decreases cs.len() - i,
    {
        let c = cs[i];
        if !('0' <= c && c <= '9') {
            assert(d[i - from] == c);
            assert(!is_digit(d[i - from]));
            return 0;
        }
        assert(d.take(i + 1 - from).drop_last() =~= d.take(i - from));
        let digit: usize = ((c as u32) - ('0' as u32)) as usize;
        let next = match acc.checked_mul(10) {
            Some(x) => x.checked_add(digit),
            None => None,
        };
        match next {
            Some(v) => {
                acc = v;
            },
            None => {
                proof {
                    lemma_digits_prefix(d, i + 1 - from);
                }
                return 0;
            },
        }
        i = i + 1;
    }
    assert(d.take(cs.len() - from) =~= d);
    acc
}

/// How many commits the output `out` of a `git rev-list --count` run
/// reports: 0 when the run failed, else the count it printed (see
/// [`count_of`]).
pub fn commit_count(success: bool, out: &str) -> (n: usize)
    ensures
        n == if success { count_of(out@) } else { 0 },
{
    if success {
        parse_count(out)
    } else {
        0
    }
}

/// Whether `s` holds `t` somewhere.
pub open spec fn holds(s: Seq<char>, t: Seq<char>) -> bool {
    exists|i: int| 0 <= i && i + t.len() <= s.len() && #[trigger] s.subrange(i, i + t.len()) == t
}

/// Whether `s` holds `t` somewhere.
pub fn contains_text(s: &str, t: &str) -> (r: bool)
    ensures
        r == holds(s@, t@),
{
    let sc = chars_of(s);
    let tc = chars_of(t);
    if tc.len() > sc.len() {
        assert(!holds(s@, t@));
        return false;
    }
    let mut i: usize = 0;
    while i <= sc.len() - tc.len()
        invariant
            tc.len() <= sc.len(),
            sc@ == s@,
            tc@ == t@,
            i <= sc.len() - tc.len() + 1,
            forall|k: int| 0 <= k < i ==> #[trigger] sc@.subrange(k, k + tc.len()) != tc@,
        decreases sc.len() - i,
    {
        let mut j: usize = 0;
        while j < tc.len() && sc[i + j] == tc[j]
            invariant
                j <= tc.len(),
                i + tc.len() <= sc.len(),
                forall|q: int| 0 <= q < j ==> sc@[i + q] == tc@[q],
            decreases tc.len() - j,
        {
            j = j + 1;
        }
        if j == tc.len() {
            assert(sc@.subrange(i as int, i + tc.len()) =~= tc@);
            return true;
        }
        assert(sc@.subrange(i as int, i + tc.len())[j as int] != tc@[j as int]);
        i = i + 1;
    }
    assert(!holds(s@, t@));
    false
}

/// Whether a `git commit` run is a failure: it exited with an error and
/// its output `out` does not say that there was nothing to commit.
pub open spec fn commit_failed_spec(success: bool, out: Seq<char>) -> bool {
    !success && !holds(out, "nothing to commit"@)
}

/// Whether a `git commit` run is a failure (see [`commit_failed_spec`]).
pub fn commit_failed(success: bool, out: &str) -> (r: bool)
    ensures
        r == commit_failed_spec(success, out@),
{
    if success {
        return false;
    }
    !contains_text(out, "nothing to commit")
}

} // verus!
