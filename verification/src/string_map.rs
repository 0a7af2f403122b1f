//! A map from strings to strings that keeps its keys in string order.
use vstd::prelude::*;
use crate::order::lex_lt;
use crate::sorted::{views, sorted_by, locate, lemma_sorted_no_duplicates, lemma_insert_sorted, lemma_remove_sorted};
use crate::text::chars_of;

verus! {

/// Where the key `k` stands among the pairs `ps`.
pub open spec fn key_index(ps: Seq<(Seq<char>, Seq<char>)>, k: Seq<char>) -> int {
    choose|i: int| 0 <= i < ps.len() && ps[i].0 == k
}

/// The map that a sequence of key/value pairs with distinct keys denotes.
pub open spec fn pairs_map(ps: Seq<(Seq<char>, Seq<char>)>) -> Map<Seq<char>, Seq<char>> {
    Map::new(
        |k: Seq<char>| exists|i: int| 0 <= i < ps.len() && ps[i].0 == k,
        |k: Seq<char>| ps[key_index(ps, k)].1,
    )
}

/// The keys of a sequence of pairs.
pub open spec fn pair_keys(ps: Seq<(Seq<char>, Seq<char>)>) -> Seq<Seq<char>> {
    ps.map_values(|p: (Seq<char>, Seq<char>)| p.0)
}

pub proof fn lemma_pairs_map_at(ps: Seq<(Seq<char>, Seq<char>)>, i: int)
    requires
        pair_keys(ps).no_duplicates(),
        0 <= i < ps.len(),
    ensures
        pairs_map(ps).contains_key(ps[i].0),
        pairs_map(ps)[ps[i].0] == ps[i].1,
{
    let k = ps[i].0;
    assert(exists|j: int| 0 <= j < ps.len() && ps[j].0 == k);
    let j = key_index(ps, k);
    assert(pair_keys(ps)[j] == ps[j].0);
    assert(pair_keys(ps)[i] == ps[i].0);
    assert(j == i);
    assert(pairs_map(ps).contains_key(k));
    assert(pairs_map(ps)[k] == ps[j].1);
}

/// The entries of the map `m` in increasing key order (string order), as a
/// `BTreeMap<String, String>` iterates them.
pub open spec fn entries_of(m: Map<Seq<char>, Seq<char>>) -> Seq<(Seq<char>, Seq<char>)> {
    choose|ps: Seq<(Seq<char>, Seq<char>)>| sorted_by(pair_keys(ps), false) && pairs_map(ps) == m
}

/// Two key-sorted sequences of pairs that denote the same map are equal.
proof fn lemma_sorted_pairs_unique(a: Seq<(Seq<char>, Seq<char>)>, b: Seq<(Seq<char>, Seq<char>)>)
    requires
        sorted_by(pair_keys(a), false),
        sorted_by(pair_keys(b), false),
        pairs_map(a) == pairs_map(b),
    ensures
        a == b,
{
    let ka = pair_keys(a);
    let kb = pair_keys(b);
    lemma_sorted_no_duplicates(ka, false);
    lemma_sorted_no_duplicates(kb, false);
    assert(ka.to_set() =~= kb.to_set()) by {
        assert forall|k: Seq<char>| ka.to_set().contains(k) implies kb.to_set().contains(k) by {
            let i = choose|i: int| 0 <= i < ka.len() && ka[i] == k;
            lemma_pairs_map_at(a, i);
            let j = choose|j: int| 0 <= j < b.len() && b[j].0 == k;
            assert(kb[j] == k);
        }
        assert forall|k: Seq<char>| kb.to_set().contains(k) implies ka.to_set().contains(k) by {
            let i = choose|i: int| 0 <= i < kb.len() && kb[i] == k;
            lemma_pairs_map_at(b, i);
            let j = choose|j: int| 0 <= j < a.len() && a[j].0 == k;
            assert(ka[j] == k);
        }
    }
    crate::path_set::lemma_sorted_unique(ka, kb, false);
    assert forall|i: int| 0 <= i < a.len() implies a[i] == b[i] by {
        assert(ka[i] == kb[i]);
        lemma_pairs_map_at(a, i);
        lemma_pairs_map_at(b, i);
    }
    assert(a =~= b);
}

/// A key-sorted sequence of pairs lists the entries of the map it denotes:
/// the entries of a map are found by writing them out in key order.
pub proof fn lemma_entries_of(ps: Seq<(Seq<char>, Seq<char>)>)
    requires
        sorted_by(pair_keys(ps), false),
    ensures
        entries_of(pairs_map(ps)) == ps,
{
    let m = pairs_map(ps);
    assert(sorted_by(pair_keys(ps), false) && pairs_map(ps) == m);
    let qs = entries_of(m);
    lemma_sorted_pairs_unique(qs, ps);
}

/// A map from strings to strings whose entries are kept sorted by key in
/// string order, as a `BTreeMap<String, String>` iterates them.
#[derive(Debug)]
pub struct StringMap {
    keys: Vec<String>,
    vals: Vec<String>,
}

impl StringMap {
    /// The entries, in key order.
    pub open spec fn pairs(&self) -> Seq<(Seq<char>, Seq<char>)> {
        entries_of(self@)
    }

    /// The entries as stored.
    closed spec fn raw_pairs(&self) -> Seq<(Seq<char>, Seq<char>)> {
        Seq::new(self.keys@.len(), |i: int| (self.keys@[i]@, self.vals@[i]@))
    }

    #[verifier::type_invariant]
    closed spec fn wf(&self) -> bool {
        &&& self.keys@.len() == self.vals@.len()
        &&& sorted_by(views(self.keys@), false)
    }

    proof fn lemma_keys(&self)
        requires
            self.wf(),
        ensures
            pair_keys(self.raw_pairs()) == views(self.keys@),
            pair_keys(self.raw_pairs()).no_duplicates(),
            sorted_by(pair_keys(self.raw_pairs()), false),
    {
        assert(pair_keys(self.raw_pairs()) =~= views(self.keys@));
        lemma_sorted_no_duplicates(views(self.keys@), false);
    }

    proof fn lemma_raw_is_pairs(&self)
        requires
            self.wf(),
        ensures
            self.raw_pairs() == self.pairs(),
    {
        self.lemma_keys();
        lemma_entries_of(self.raw_pairs());
    }

    /// An empty map.
    pub fn new() -> (m: Self)
        ensures
            m@ == Map::<Seq<char>, Seq<char>>::empty(),
            m.pairs().len() == 0,
    {
        let m = StringMap { keys: Vec::new(), vals: Vec::new() };
        assert(m@ =~= Map::<Seq<char>, Seq<char>>::empty());
        proof {
            m.lemma_raw_is_pairs();
        }
        m
    }

    /// The number of entries.
    pub fn len(&self) -> (n: usize)
        ensures
            n == self.pairs().len(),
            n == self@.len(),
            self@ == pairs_map(self.pairs()),
            sorted_by(pair_keys(self.pairs()), false),
    {
        proof {
            use_type_invariant(self);
            self.lemma_keys();
            self.lemma_len();
            self.lemma_raw_is_pairs();
        }
        self.keys.len()
    }

    proof fn lemma_len(&self)
        requires
            self.wf(),
        ensures
            self@.dom() == pair_keys(self.raw_pairs()).to_set(),
            self@.len() == self.raw_pairs().len(),
    {
        self.lemma_keys();
        let ks = pair_keys(self.raw_pairs());
        assert(self@.dom() =~= ks.to_set()) by {
            assert forall|k: Seq<char>| self@.dom().contains(k) implies ks.to_set().contains(k) by {
                let i = choose|i: int| 0 <= i < self.raw_pairs().len() && self.raw_pairs()[i].0 == k;
                assert(ks[i] == k);
            }
            assert forall|k: Seq<char>| ks.to_set().contains(k) implies self@.dom().contains(k) by {
                let i = choose|i: int| 0 <= i < ks.len() && ks[i] == k;
                assert(self.raw_pairs()[i].0 == k);
            }
        }
        ks.unique_seq_to_set();
    }

    /// Whether there are no entries.
    pub fn is_empty(&self) -> (b: bool)
        ensures
            b == (self@.len() == 0),
            b == (self.pairs().len() == 0),
    {
        self.len() == 0
    }

    /// The key of the `i`-th entry in key order.
    pub fn key_at(&self, i: usize) -> (k: &String)
        requires
            i < self.pairs().len(),
        ensures
            k@ == self.pairs()[i as int].0,
    {
        proof {
            use_type_invariant(self);
            self.lemma_raw_is_pairs();
        }
        &self.keys[i]
    }

    /// The value of the `i`-th entry in key order.
    pub fn value_at(&self, i: usize) -> (v: &String)
        requires
            i < self.pairs().len(),
        ensures
            v@ == self.pairs()[i as int].1,
    {
        proof {
            use_type_invariant(self);
            self.lemma_raw_is_pairs();
        }
        &self.vals[i]
    }

    /// Whether `key` has an entry.
    pub fn contains_key(&self, key: &str) -> (b: bool)
        ensures
            b == self@.contains_key(key@),
    {
        proof {
            use_type_invariant(self);
            self.lemma_keys();
        }
        let cs = chars_of(key);
        let (i, found) = locate(&self.keys, &cs, false);
        proof {
            if found {
                assert(self.raw_pairs()[i as int].0 == key@);
            } else {
                assert(!views(self.keys@).contains(key@));
                if self@.contains_key(key@) {
                    let j = choose|j: int| 0 <= j < self.raw_pairs().len() && self.raw_pairs()[j].0 == key@;
                    assert(views(self.keys@)[j] == key@);
                }
            }
        }
        found
    }

    /// The value stored for `key`, if any.
    pub fn get(&self, key: &str) -> (r: Option<&String>)
        ensures
            match r {
                Some(v) => self@.contains_key(key@) && self@[key@] == v@,
                None => !self@.contains_key(key@),
            },
    {
        proof {
            use_type_invariant(self);
            self.lemma_keys();
        }
        let cs = chars_of(key);
        let (i, found) = locate(&self.keys, &cs, false);
        if found {
            proof {
                lemma_pairs_map_at(self.raw_pairs(), i as int);
            }
            Some(&self.vals[i])
        } else {
            proof {
                if self@.contains_key(key@) {
                    let j = choose|j: int| 0 <= j < self.raw_pairs().len() && self.raw_pairs()[j].0 == key@;
                    assert(views(self.keys@)[j] == key@);
                }
            }
            None
        }
    }

    /// Sets the value of `key` to `value`; returns the value it had before.
    pub fn insert(&mut self, key: String, value: String) -> (old_value: Option<String>)
        ensures
            final(self)@ == old(self)@.insert(key@, value@),
            match old_value {
                Some(v) => old(self)@.contains_key(key@) && old(self)@[key@] == v@,
                None => !old(self)@.contains_key(key@),
            },
    {
        proof {
            use_type_invariant(&*self);
            self.lemma_keys();
        }
        let ghost ps = self.raw_pairs();
        let ghost ks = views(self.keys@);
        let cs = chars_of(key.as_str());
        let (i, found) = locate(&self.keys, &cs, false);
        if found {
            proof {
                lemma_pairs_map_at(ps, i as int);
            }
            let mut taken = StringMap::new();
            std::mem::swap(self, &mut taken);
            let StringMap { keys, mut vals } = taken;
            let old_v = vals.remove(i);
            vals.insert(i, value);
            proof {
                assert(views(keys@) == ks);
            }
            *self = StringMap { keys, vals };
            proof {
                let qs = self.raw_pairs();
                assert(qs =~= ps.update(i as int, (key@, value@)));
                assert(pair_keys(qs) =~= pair_keys(ps));
                assert(self@ =~= old(self)@.insert(key@, value@)) by {
                    assert forall|k: Seq<char>| #[trigger] self@.contains_key(k) == old(self)@.insert(
                        key@,
                        value@,
                    ).contains_key(k) by {
                        if self@.contains_key(k) {
                            let j = choose|j: int| 0 <= j < qs.len() && qs[j].0 == k;
                            assert(ps[j].0 == k);
                        }
                        if old(self)@.contains_key(k) {
                            let j = choose|j: int| 0 <= j < ps.len() && ps[j].0 == k;
                            assert(qs[j].0 == k);
                        }
                    }
                    assert forall|k: Seq<char>| #[trigger] self@.contains_key(k) implies self@[k]
                        == old(self)@.insert(key@, value@)[k] by {
                        let j = choose|j: int| 0 <= j < qs.len() && qs[j].0 == k;
                        lemma_pairs_map_at(qs, j);
                        assert(qs[j].0 == k);
                        if j != i {
                            assert(pair_keys(qs)[j] != pair_keys(qs)[i as int]);
                            assert(qs[j] == ps[j]);
                            lemma_pairs_map_at(ps, j);
                        }
                    }
                }
            }
            Some(old_v)
        } else {
            let mut taken = StringMap::new();
            std::mem::swap(self, &mut taken);
            let StringMap { mut keys, mut vals } = taken;
            keys.insert(i, key);
            vals.insert(i, value);
            proof {
                assert(views(keys@) =~= ks.insert(i as int, key@));
                lemma_insert_sorted(ks, i as int, key@, false);
            }
            *self = StringMap { keys, vals };
            proof {
                let qs = self.raw_pairs();
                assert(qs =~= ps.insert(i as int, (key@, value@)));
                lemma_sorted_no_duplicates(views(self.keys@), false);
                assert(pair_keys(qs) =~= views(self.keys@));
                assert(self@ =~= old(self)@.insert(key@, value@)) by {
                    assert forall|k: Seq<char>| #[trigger] self@.contains_key(k) == old(self)@.insert(
                        key@,
                        value@,
                    ).contains_key(k) by {
                        if self@.contains_key(k) && k != key@ {
                            let j = choose|j: int| 0 <= j < qs.len() && qs[j].0 == k;
                            if j < i {
                                assert(ps[j].0 == k);
                            } else {
                                assert(ps[j - 1].0 == k);
                            }
                        }
                        if k == key@ {
                            assert(qs[i as int].0 == k);
                        }
                        if old(self)@.contains_key(k) {
                            let j = choose|j: int| 0 <= j < ps.len() && ps[j].0 == k;
                            if j < i {
                                assert(qs[j].0 == k);
                            } else {
                                assert(qs[j + 1].0 == k);
                            }
                        }
                    }
                    assert forall|k: Seq<char>| #[trigger] self@.contains_key(k) implies self@[k]
                        == old(self)@.insert(key@, value@)[k] by {
                        let j = choose|j: int| 0 <= j < qs.len() && qs[j].0 == k;
                        lemma_pairs_map_at(qs, j);
                        assert(qs[j].0 == k);
                        if j < i {
                            assert(pair_keys(qs)[j] != pair_keys(qs)[i as int]);
                            assert(qs[j] == ps[j]);
                            lemma_pairs_map_at(ps, j);
                        } else if j > i {
                            assert(pair_keys(qs)[j] != pair_keys(qs)[i as int]);
                            assert(qs[j] == ps[j - 1]);
                            lemma_pairs_map_at(ps, j - 1);
                        }
                    }
                }
                if old(self)@.contains_key(key@) {
                    let j = choose|j: int| 0 <= j < ps.len() && ps[j].0 == key@;
                    assert(ks[j] == key@);
                }
            }
            None
        }
    }

    /// Removes the entry of `key`; returns its value if there was one.
    pub fn remove(&mut self, key: &str) -> (old_value: Option<String>)
        ensures
            final(self)@ == old(self)@.remove(key@),
            match old_value {
                Some(v) => old(self)@.contains_key(key@) && old(self)@[key@] == v@,
                None => !old(self)@.contains_key(key@),
            },
    {
        proof {
            use_type_invariant(&*self);
            self.lemma_keys();
        }
        let ghost ps = self.raw_pairs();
        let ghost ks = views(self.keys@);
        let cs = chars_of(key);
        let (i, found) = locate(&self.keys, &cs, false);
        if found {
            proof {
                lemma_pairs_map_at(ps, i as int);
            }
            let mut taken = StringMap::new();
            std::mem::swap(self, &mut taken);
            let StringMap { mut keys, mut vals } = taken;
            let _k = keys.remove(i);
            let old_v = vals.remove(i);
            proof {
                assert(views(keys@) =~= ks.remove(i as int));
                lemma_remove_sorted(ks, i as int, false);
            }
            *self = StringMap { keys, vals };
            proof {
                let qs = self.raw_pairs();
                assert(qs =~= ps.remove(i as int));
                lemma_sorted_no_duplicates(views(self.keys@), false);
                assert(pair_keys(qs) =~= views(self.keys@));
                assert(self@ =~= old(self)@.remove(key@)) by {
                    assert forall|k: Seq<char>| #[trigger] self@.contains_key(k) == old(self)@.remove(
                        key@,
                    ).contains_key(k) by {
                        if self@.contains_key(k) {
                            let j = choose|j: int| 0 <= j < qs.len() && qs[j].0 == k;
                            if j < i {
                                assert(ps[j].0 == k);
                                assert(ks[j] != ks[i as int]);
                            } else {
                                assert(ps[j + 1].0 == k);
                                assert(ks[j + 1] != ks[i as int]);
                            }
                        }
                        if old(self)@.contains_key(k) && k != key@ {
                            let j = choose|j: int| 0 <= j < ps.len() && ps[j].0 == k;
                            if j < i {
                                assert(qs[j].0 == k);
                            } else {
                                assert(qs[j - 1].0 == k);
                            }
                        }
                    }
                    assert forall|k: Seq<char>| #[trigger] self@.contains_key(k) implies self@[k]
                        == old(self)@.remove(key@)[k] by {
                        let j = choose|j: int| 0 <= j < qs.len() && qs[j].0 == k;
                        lemma_pairs_map_at(qs, j);
                        if j < i {
                            lemma_pairs_map_at(ps, j);
                        } else {
                            lemma_pairs_map_at(ps, j + 1);
                        }
                    }
                }
            }
            Some(old_v)
        } else {
            proof {
                if old(self)@.contains_key(key@) {
                    let j = choose|j: int| 0 <= j < ps.len() && ps[j].0 == key@;
                    assert(ks[j] == key@);
                }
                assert(old(self)@.remove(key@) =~= old(self)@);
            }
            None
        }
    }
}

impl View for StringMap {
    type V = Map<Seq<char>, Seq<char>>;

    closed spec fn view(&self) -> Map<Seq<char>, Seq<char>> {
        pairs_map(self.raw_pairs())
    }
}

} // verus!
