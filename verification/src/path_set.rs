//! A set of relative paths kept in path order, as a `BTreeSet<PathBuf>`
//! iterates them.
use vstd::prelude::*;
use crate::order::{lex_lt, lemma_lt_irreflexive, lemma_lt_asymmetric};
use crate::sorted::{views, sorted_by, locate, lemma_sorted_no_duplicates, lemma_insert_sorted};
use crate::text::chars_of;

verus! {

/// The elements of the set `s` in increasing path order.
pub open spec fn in_path_order(s: Set<Seq<char>>) -> Seq<Seq<char>> {
    choose|t: Seq<Seq<char>>| sorted_by(t, true) && t.to_set() == s
}

/// Two sorted sequences with the same elements are the same sequence.
pub proof fn lemma_sorted_unique(a: Seq<Seq<char>>, b: Seq<Seq<char>>, path: bool)
    requires
        sorted_by(a, path),
        sorted_by(b, path),
        a.to_set() == b.to_set(),
    ensures
        a == b,
    decreases a.len(),
{
    if a.len() == 0 {
        if b.len() > 0 {
            assert(b.to_set().contains(b[0]));
        }
        assert(a =~= b);
    } else {
        assert(a.to_set().contains(a[0]));
        assert(b.len() > 0);
        assert(b.to_set().contains(b[0]));
        let j = choose|j: int| 0 <= j < b.len() && b[j] == a[0];
        let i = choose|i: int| 0 <= i < a.len() && a[i] == b[0];
        lemma_lt_irreflexive(a[0], path);
        if j > 0 {
            assert(lex_lt(b[0], b[j], path));
            if i > 0 {
                assert(lex_lt(a[0], a[i], path));
                lemma_lt_asymmetric(a[0], b[0], path);
            }
        }
        assert(a[0] == b[0]);
        lemma_sorted_no_duplicates(a, path);
        lemma_sorted_no_duplicates(b, path);
        let ta = a.drop_first();
        let tb = b.drop_first();
        assert(ta.to_set() =~= tb.to_set()) by {
            assert forall|x: Seq<char>| ta.to_set().contains(x) implies tb.to_set().contains(x) by {
                let k = choose|k: int| 0 <= k < ta.len() && ta[k] == x;
                assert(a[k + 1] == x);
                assert(b.to_set().contains(x));
                let m = choose|m: int| 0 <= m < b.len() && b[m] == x;
                if m == 0 {
                    assert(a[0] == a[k + 1]);
                }
                assert(tb[m - 1] == x);
            }
            assert forall|x: Seq<char>| tb.to_set().contains(x) implies ta.to_set().contains(x) by {
                let k = choose|k: int| 0 <= k < tb.len() && tb[k] == x;
                assert(b[k + 1] == x);
                assert(a.to_set().contains(x));
                let m = choose|m: int| 0 <= m < a.len() && a[m] == x;
                if m == 0 {
                    assert(b[0] == b[k + 1]);
                }
                assert(ta[m - 1] == x);
            }
        }
        assert(sorted_by(ta, path));
        assert(sorted_by(tb, path));
        lemma_sorted_unique(ta, tb, path);
        assert(a =~= seq![a[0]] + ta);
        assert(b =~= seq![b[0]] + tb);
    }
}

/// A sorted sequence enumerates its set in path order.
pub proof fn lemma_in_path_order(t: Seq<Seq<char>>)
    requires
        sorted_by(t, true),
    ensures
        in_path_order(t.to_set()) == t,
{
    let u = in_path_order(t.to_set());
    assert(sorted_by(u, true) && u.to_set() == t.to_set());
    lemma_sorted_unique(u, t, true);
}

/// A set of relative paths, enumerated in path order.
#[derive(Debug)]
pub struct PathSet {
    items: Vec<String>,
}

impl PathSet {
    #[verifier::type_invariant]
    closed spec fn wf(&self) -> bool {
        sorted_by(views(self.items@), true)
    }

    /// An empty set.
    pub fn new() -> (s: Self)
        ensures
            s@ == Seq::<Seq<char>>::empty(),
    {
        let s = PathSet { items: Vec::new() };
        assert(s@ =~= Seq::<Seq<char>>::empty());
        s
    }

    /// The set of the given paths, each once, in path order.
    pub fn from_vec(paths: Vec<String>) -> (s: Self)
        ensures
            s@ == in_path_order(views(paths@).to_set()),
    {
        let mut s = PathSet::new();
        let mut i: usize = 0;
        while i < paths.len()
            invariant
                i <= paths.len(),
                sorted_by(s@, true),
                s@.to_set() == views(paths@).take(i as int).to_set(),
            decreases paths.len() - i,
        {
            let p = paths[i].clone();
            s.insert(p);
            assert(views(paths@).take(i + 1) =~= views(paths@).take(i as int).push(paths@[i as int]@));
            assert(s@.to_set() =~= views(paths@).take(i + 1).to_set()) by {
                views(paths@).take(i as int).lemma_push_to_set_commute(paths@[i as int]@);
            }
            i = i + 1;
        }
        assert(views(paths@).take(paths.len() as int) =~= views(paths@));
        proof {
            lemma_in_path_order(s@);
        }
        s
    }

    /// The number of paths.
    pub fn len(&self) -> (n: usize)
        ensures
            n == self@.len(),
    {
        self.items.len()
    }

    /// The `i`-th path in path order.
    pub fn at(&self, i: usize) -> (p: &String)
        requires
            i < self@.len(),
        ensures
            p@ == self@[i as int],
    {
        &self.items[i]
    }

    /// Whether `path` is in the set.
    pub fn contains(&self, path: &str) -> (b: bool)
        ensures
            b == self@.contains(path@),
    {
        proof {
            use_type_invariant(self);
        }
        let cs = chars_of(path);
        let (_i, found) = locate(&self.items, &cs, true);
        found
    }

    /// Adds `path`; returns whether it was new.
    pub fn insert(&mut self, path: String) -> (added: bool)
        ensures
            final(self)@.to_set() == old(self)@.to_set().insert(path@),
            sorted_by(final(self)@, true),
            added == !old(self)@.contains(path@),
    {
        proof {
            use_type_invariant(&*self);
        }
        let ghost ks = self@;
        let cs = chars_of(path.as_str());
        let (i, found) = locate(&self.items, &cs, true);
        if found {
            proof {
                assert(ks.to_set() =~= ks.to_set().insert(path@)) by {
                    assert(ks[i as int] == path@);
                }
            }
            false
        } else {
            let mut taken = PathSet::new();
            std::mem::swap(self, &mut taken);
            let PathSet { mut items } = taken;
            items.insert(i, path);
            proof {
                assert(views(items@) =~= ks.insert(i as int, cs@));
                lemma_insert_sorted(ks, i as int, cs@, true);
            }
            *self = PathSet { items };
            proof {
                let t = self@;
                assert(t.to_set() =~= ks.to_set().insert(path@)) by {
                    assert forall|x: Seq<char>| t.to_set().contains(x) implies ks.to_set().insert(
                        path@,
                    ).contains(x) by {
                        let k = choose|k: int| 0 <= k < t.len() && t[k] == x;
                        if k < i {
                            assert(ks[k] == x);
                        } else if k > i {
                            assert(ks[k - 1] == x);
                        }
                    }
                    assert forall|x: Seq<char>| ks.to_set().insert(path@).contains(x) implies t.to_set().contains(
                        x,
                    ) by {
                        if x == path@ {
                            assert(t[i as int] == x);
                        } else {
                            let k = choose|k: int| 0 <= k < ks.len() && ks[k] == x;
                            if k < i {
                                assert(t[k] == x);
                            } else {
                                assert(t[k + 1] == x);
                            }
                        }
                    }
                }
            }
            true
        }
    }

    /// The paths of `self` and of `other`, each once, in path order.
    pub fn union(&self, other: &PathSet) -> (u: PathSet)
        ensures
            u@ == in_path_order(self@.to_set() + other@.to_set()),
    {
        proof {
            use_type_invariant(self);
        }
        let mut u = PathSet::new();
        let mut i: usize = 0;
        while i < self.items.len()
            invariant
                i <= self@.len(),
                sorted_by(u@, true),
                u@.to_set() == self@.take(i as int).to_set(),
            decreases self@.len() - i,
        {
            let p = self.items[i].clone();
            u.insert(p);
            assert(self@.take(i + 1) =~= self@.take(i as int).push(self@[i as int]));
            proof {
                self@.take(i as int).lemma_push_to_set_commute(self@[i as int]);
            }
            i = i + 1;
        }
        assert(self@.take(self@.len() as int) =~= self@);
        let mut j: usize = 0;
        while j < other.items.len()
            invariant
                j <= other@.len(),
                sorted_by(u@, true),
                u@.to_set() == self@.to_set() + other@.take(j as int).to_set(),
            decreases other@.len() - j,
        {
            let p = other.items[j].clone();
            u.insert(p);
            assert(other@.take(j + 1) =~= other@.take(j as int).push(other@[j as int]));
            proof {
                other@.take(j as int).lemma_push_to_set_commute(other@[j as int]);
                assert(u@.to_set() =~= self@.to_set() + other@.take(j + 1).to_set());
            }
            j = j + 1;
        }
        assert(other@.take(other@.len() as int) =~= other@);
        proof {
            lemma_in_path_order(u@);
        }
        u
    }
}

impl View for PathSet {
    type V = Seq<Seq<char>>;

    closed spec fn view(&self) -> Seq<Seq<char>> {
        views(self.items@)
    }
}

} // verus!
