//! The lexicographic orders by which the library keeps its keys sorted.
//!
//! Two orders are used. Plain strings compare character by character by code
//! point, which for UTF-8 is the same as comparing their bytes. Relative paths
//! compare component by component; for paths without empty components this is
//! the character order in which `/` ranks below every other character.
use vstd::prelude::*;

verus! {

/// The rank of a character in the order: `/` ranks lowest in path order.
pub open spec fn weight(c: char, path: bool) -> int {
    if path && c == '/' {
        -1
    } else {
        (c as u32) as int
    }
}

/// Strict lexicographic order on character sequences.
pub open spec fn lex_lt(a: Seq<char>, b: Seq<char>, path: bool) -> bool
    decreases a.len(),
{
    if a.len() == 0 {
        b.len() > 0
    } else if b.len() == 0 {
        false
    } else if a[0] != b[0] {
        weight(a[0], path) < weight(b[0], path)
    } else {
        lex_lt(a.drop_first(), b.drop_first(), path)
    }
}

/// The outcome of comparing two values.
#[derive(PartialEq, Eq, Structural, Debug, Clone, Copy)]
pub enum Order {
    Less,
    Equal,
    Greater,
}

pub proof fn lemma_weight_injective(c: char, d: char, path: bool)
    ensures
        c != d ==> weight(c, path) != weight(d, path),
{
    vstd::utf8::char_u32_cast(c, c as u32);
    vstd::utf8::char_u32_cast(d, d as u32);
    assert(('/' as u32) == 47u32);
}

pub proof fn lemma_lt_irreflexive(a: Seq<char>, path: bool)
    ensures
        !lex_lt(a, a, path),
    decreases a.len(),
{
    if a.len() > 0 {
        lemma_lt_irreflexive(a.drop_first(), path);
    }
}

pub proof fn lemma_lt_asymmetric(a: Seq<char>, b: Seq<char>, path: bool)
    ensures
        lex_lt(a, b, path) ==> !lex_lt(b, a, path),
    decreases a.len(),
{
    if a.len() > 0 && b.len() > 0 && a[0] == b[0] {
        lemma_lt_asymmetric(a.drop_first(), b.drop_first(), path);
    }
}

pub proof fn lemma_lt_transitive(a: Seq<char>, b: Seq<char>, c: Seq<char>, path: bool)
    ensures
        lex_lt(a, b, path) && lex_lt(b, c, path) ==> lex_lt(a, c, path),
    decreases a.len(),
{
    if a.len() > 0 && b.len() > 0 && c.len() > 0 {
        lemma_weight_injective(a[0], b[0], path);
        lemma_weight_injective(b[0], c[0], path);
        lemma_weight_injective(a[0], c[0], path);
        if a[0] == b[0] && b[0] == c[0] {
            lemma_lt_transitive(a.drop_first(), b.drop_first(), c.drop_first(), path);
        }
    }
}

pub proof fn lemma_lt_total(a: Seq<char>, b: Seq<char>, path: bool)
    ensures
        a != b ==> lex_lt(a, b, path) || lex_lt(b, a, path),
    decreases a.len(),
{
    if a.len() > 0 && b.len() > 0 {
        lemma_weight_injective(a[0], b[0], path);
        if a[0] == b[0] {
            lemma_lt_total(a.drop_first(), b.drop_first(), path);
            if a.drop_first() == b.drop_first() {
                assert(a =~= seq![a[0]] + a.drop_first());
                assert(b =~= seq![b[0]] + b.drop_first());
            }
        }
    } else if a.len() == 0 && b.len() == 0 {
        assert(a =~= b);
    }
}

proof fn lemma_lt_skip(a: Seq<char>, b: Seq<char>, i: int, path: bool)
    requires
        0 <= i <= a.len(),
        i <= b.len(),
        a.take(i) == b.take(i),
    ensures
        lex_lt(a, b, path) == lex_lt(a.skip(i), b.skip(i), path),
    decreases i,
{
    if i > 0 {
        assert(a[0] == a.take(i)[0]);
        assert(b[0] == b.take(i)[0]);
        assert(a.drop_first().take(i - 1) =~= a.take(i).drop_first());
        assert(b.drop_first().take(i - 1) =~= b.take(i).drop_first());
        lemma_lt_skip(a.drop_first(), b.drop_first(), i - 1, path);
        assert(a.drop_first().skip(i - 1) =~= a.skip(i));
        assert(b.drop_first().skip(i - 1) =~= b.skip(i));
    } else {
        assert(a.skip(0) =~= a);
        assert(b.skip(0) =~= b);
    }
}

/// Compares two character sequences in the order chosen by `path`.
pub fn compare_chars(a: &Vec<char>, b: &Vec<char>, path: bool) -> (r: Order)
    ensures
        (r == Order::Less) == lex_lt(a@, b@, path),
        (r == Order::Equal) == (a@ == b@),
        (r == Order::Greater) == lex_lt(b@, a@, path),
{
    proof {
        lemma_lt_irreflexive(a@, path);
        lemma_lt_asymmetric(a@, b@, path);
        lemma_lt_total(a@, b@, path);
    }
    let mut i: usize = 0;
    while i < a.len() && i < b.len() && a[i] == b[i]
        invariant
            i <= a.len(),
            i <= b.len(),
            a@.take(i as int) == b@.take(i as int),
        decreases a.len() - i,
    {
        assert(a@.take(i + 1) =~= a@.take(i as int).push(a@[i as int]));
        assert(b@.take(i + 1) =~= b@.take(i as int).push(b@[i as int]));
        i = i + 1;
    }
    proof {
        lemma_lt_skip(a@, b@, i as int, path);
        lemma_lt_skip(b@, a@, i as int, path);
    }
    if i == a.len() && i == b.len() {
        assert(a@ =~= a@.take(i as int));
        assert(b@ =~= b@.take(i as int));
        Order::Equal
    } else if i == a.len() {
        assert(a@.skip(i as int).len() == 0);
        Order::Less
    } else if i == b.len() {
        assert(b@.skip(i as int).len() == 0);
        Order::Greater
    } else {
        let ca = a[i];
        let cb = b[i];
        assert(a@.skip(i as int)[0] == ca);
        assert(b@.skip(i as int)[0] == cb);
        let less = if path && ca == '/' {
            true
        } else if path && cb == '/' {
            false
        } else {
            (ca as u32) < (cb as u32)
        };
        proof {
            lemma_weight_injective(ca, cb, path);
        }
        if less {
            Order::Less
        } else {
            Order::Greater
        }
    }
}

} // verus!
