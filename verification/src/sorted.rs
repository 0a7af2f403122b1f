//! Sorted sequences of strings without repetition, and the maps they carry.
use vstd::prelude::*;
use crate::order::{lex_lt, lemma_lt_irreflexive, lemma_lt_transitive, compare_chars, Order};
use crate::text::chars_of;

verus! {

/// The character sequences of a sequence of strings.
pub open spec fn views(v: Seq<String>) -> Seq<Seq<char>> {
    v.map_values(|s: String| s@)
}

/// Every element is strictly below every later one.
pub open spec fn sorted_by(s: Seq<Seq<char>>, path: bool) -> bool {
    forall|i: int, j: int| 0 <= i < j < s.len() ==> lex_lt(#[trigger] s[i], #[trigger] s[j], path)
}

pub proof fn lemma_sorted_no_duplicates(s: Seq<Seq<char>>, path: bool)
    requires
        sorted_by(s, path),
    ensures
        s.no_duplicates(),
{
    assert forall|i: int, j: int| 0 <= i < s.len() && 0 <= j < s.len() && i != j implies s[i]
        != s[j] by {
        lemma_lt_irreflexive(s[i], path);
        if i < j {
            assert(lex_lt(s[i], s[j], path));
        } else {
            assert(lex_lt(s[j], s[i], path));
        }
    }
}

/// Inserting a key at the place where it belongs keeps a sequence sorted.
pub proof fn lemma_insert_sorted(s: Seq<Seq<char>>, i: int, k: Seq<char>, path: bool)
    requires
        sorted_by(s, path),
        0 <= i <= s.len(),
        forall|j: int| 0 <= j < i ==> lex_lt(#[trigger] s[j], k, path),
        i < s.len() ==> lex_lt(k, s[i], path),
    ensures
        sorted_by(s.insert(i, k), path),
{
    let t = s.insert(i, k);
    assert forall|a: int, b: int| 0 <= a < b < t.len() implies lex_lt(
        #[trigger] t[a],
        #[trigger] t[b],
        path,
    ) by {
        if b < i {
            assert(t[a] == s[a] && t[b] == s[b]);
        } else if b == i {
            assert(t[a] == s[a]);
        } else if a < i {
            assert(t[a] == s[a] && t[b] == s[b - 1]);
            lemma_lt_transitive(s[a], k, s[i], path);
            if b - 1 > i {
                lemma_lt_transitive(s[a], s[i], s[b - 1], path);
            }
        } else if a == i {
            assert(t[b] == s[b - 1]);
            if b - 1 > i {
                lemma_lt_transitive(k, s[i], s[b - 1], path);
            }
        } else {
            assert(t[a] == s[a - 1] && t[b] == s[b - 1]);
        }
    }
}

/// Removing an element keeps a sequence sorted.
pub proof fn lemma_remove_sorted(s: Seq<Seq<char>>, i: int, path: bool)
    requires
        sorted_by(s, path),
        0 <= i < s.len(),
    ensures
        sorted_by(s.remove(i), path),
{
    let t = s.remove(i);
    assert forall|a: int, b: int| 0 <= a < b < t.len() implies lex_lt(
        #[trigger] t[a],
        #[trigger] t[b],
        path,
    ) by {
        if b < i {
            assert(t[a] == s[a] && t[b] == s[b]);
        } else if a < i {
            assert(t[a] == s[a] && t[b] == s[b + 1]);
        } else {
            assert(t[a] == s[a + 1] && t[b] == s[b + 1]);
        }
    }
}

/// Finds where `key` stands, or would stand, in the sorted strings `items`.
/// Returns the position and whether `key` is there.
pub fn locate(items: &Vec<String>, key: &Vec<char>, path: bool) -> (r: (usize, bool))
    requires
        sorted_by(views(items@), path),
    ensures
        r.0 <= items.len(),
        forall|j: int| 0 <= j < r.0 ==> lex_lt(#[trigger] views(items@)[j], key@, path),
        r.1 ==> r.0 < items.len() && views(items@)[r.0 as int] == key@,
        !r.1 ==> r.0 == items.len() || lex_lt(key@, views(items@)[r.0 as int], path),
        r.1 == views(items@).contains(key@),
{
    let ghost s = views(items@);
    let mut i: usize = 0;
    while i < items.len()
        invariant
            i <= items.len(),
            s == views(items@),
            sorted_by(s, path),
            forall|j: int| 0 <= j < i ==> lex_lt(#[trigger] s[j], key@, path),
        decreases items.len() - i,
    {
        let cs = chars_of(items[i].as_str());
        assert(cs@ == s[i as int]);
        match compare_chars(&cs, key, path) {
            Order::Less => {
                i = i + 1;
            },
            Order::Equal => {
                return (i, true);
            },
            Order::Greater => {
                proof {
                    assert forall|j: int| 0 <= j < s.len() implies s[j] != key@ by {
                        lemma_lt_irreflexive(key@, path);
                        if j < i {
                            assert(lex_lt(s[j], key@, path));
                        } else if j > i {
                            assert(lex_lt(s[i as int], s[j], path));
                            lemma_lt_transitive(key@, s[i as int], s[j], path);
                        }
                    }
                }
                return (i, false);
            },
        }
    }
    proof {
        assert forall|j: int| 0 <= j < s.len() implies s[j] != key@ by {
            lemma_lt_irreflexive(key@, path);
            assert(lex_lt(s[j], key@, path));
        }
    }
    (i, false)
}

} // verus!
