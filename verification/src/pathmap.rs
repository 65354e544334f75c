//! Maps keyed by path, kept in path order.
//!
//! Config layers accumulate grants per path, and a resolved policy lists them
//! sorted by path. A `PathMap` is that accumulation: at most one entry per
//! path, entries always in strictly increasing path order.

use vstd::prelude::*;

use crate::path::{
    lemma_path_lt_irreflexive, lemma_path_lt_total, lemma_path_lt_transitive, path_lt, PathBuf,
    PathView,
};

verus! {

/// Whether the keys of `s` strictly increase.
pub open spec fn sorted_keys<V>(s: Seq<(PathView, V)>) -> bool {
    forall|i: int, j: int| 0 <= i < j < s.len() ==> path_lt(#[trigger] s[i].0, #[trigger] s[j].0)
}

/// Whether `k` is a key of `s`.
pub open spec fn has_key<V>(s: Seq<(PathView, V)>, k: PathView) -> bool {
    exists|i: int| 0 <= i < s.len() && #[trigger] s[i].0 == k
}

/// Some index at which `k` is a key of `s`.
pub open spec fn key_index<V>(s: Seq<(PathView, V)>, k: PathView) -> int {
    choose|i: int| 0 <= i < s.len() && #[trigger] s[i].0 == k
}

/// The map an entry sequence describes.
pub open spec fn map_of<V>(s: Seq<(PathView, V)>) -> Map<PathView, V> {
    Map::new(|k: PathView| has_key(s, k), |k: PathView| s[key_index(s, k)].1)
}

/// Whether `s` lists the entries of `m` in path order.
pub open spec fn lists<V>(s: Seq<(PathView, V)>, m: Map<PathView, V>) -> bool {
    sorted_keys(s) && map_of(s) == m
}

pub proof fn lemma_map_of_index<V>(s: Seq<(PathView, V)>, i: int)
    requires
        sorted_keys(s),
        0 <= i < s.len(),
    ensures
        map_of(s).contains_key(s[i].0),
        map_of(s)[s[i].0] == s[i].1,
{
    let k = s[i].0;
    assert(has_key(s, k));
    assert(map_of(s).contains_key(k));
    let j = key_index(s, k);
    assert(map_of(s)[k] == s[j].1);
    if j != i {
        if j < i {
            assert(path_lt(s[j].0, s[i].0));
        } else {
            assert(path_lt(s[i].0, s[j].0));
        }
        lemma_path_lt_irreflexive(k);
    }
}

/// Entries keyed by path, in path order.
#[derive(Debug, Clone, PartialEq, Eq)]
pub struct PathMap<V> {
    entries: Vec<(PathBuf, V)>,
}

impl<V> PathMap<V> {
    /// The entries as mathematical values, in order.
    pub closed spec fn seq(&self) -> Seq<(PathView, V)> {
        Seq::new(self.entries@.len(), |i: int| (self.entries@[i].0@, self.entries@[i].1))
    }

    /// The map the entries describe.
    pub open spec fn map(&self) -> Map<PathView, V> {
        map_of(self.seq())
    }

    /// Entries are strictly increasing in path order.
    pub closed spec fn wf(&self) -> bool {
        sorted_keys(self.seq())
    }

    pub proof fn lemma_wf(&self)
        requires
            self.wf(),
        ensures
            sorted_keys(self.seq()),
            lists(self.seq(), self.map()),
    {
    }

    /// An empty map.
    pub fn new() -> (r: Self)
        ensures
            r.wf(),
            r.seq() == Seq::<(PathView, V)>::empty(),
            r.map() == Map::<PathView, V>::empty(),
    {
        let r = PathMap { entries: Vec::new() };
        assert(r.seq() =~= Seq::<(PathView, V)>::empty());
        assert(r.map() =~= Map::<PathView, V>::empty());
        r
    }

    /// The number of entries.
    pub fn len(&self) -> (r: usize)
        ensures
            r == self.seq().len(),
    {
        self.entries.len()
    }

    /// The key of entry `i`.
    pub fn key_at(&self, i: usize) -> (r: &PathBuf)
        requires
            i < self.seq().len(),
        ensures
            r@ == self.seq()[i as int].0,
    {
        &self.entries[i].0
    }

    /// The value of entry `i`.
    pub fn value_at(&self, i: usize) -> (r: &V)
        requires
            i < self.seq().len(),
        ensures
            *r == self.seq()[i as int].1,
    {
        &self.entries[i].1
    }

    /// Where the first entry not below `k` is, and whether it is `k`.
    fn position(&self, k: &PathBuf) -> (r: (usize, bool))
        requires
            self.wf(),
        ensures
            r.0 <= self.seq().len(),
            forall|j: int| 0 <= j < r.0 ==> path_lt(#[trigger] self.seq()[j].0, k@),
            r.1 ==> r.0 < self.seq().len() && self.seq()[r.0 as int].0 == k@,
            !r.1 ==> (r.0 < self.seq().len() ==> path_lt(k@, self.seq()[r.0 as int].0)),
            r.1 == self.map().contains_key(k@),
    {
        let mut i: usize = 0;
        while i < self.entries.len()
            invariant
                i <= self.entries.len(),
                self.seq().len() == self.entries.len(),
                self.wf(),
                forall|j: int| 0 <= j < i ==> path_lt(#[trigger] self.seq()[j].0, k@),
            decreases self.entries.len() - i,
        {
            let key = &self.entries[i].0;
            assert(key@ == self.seq()[i as int].0);
            if !key.less(k) {
                if key.same(k) {
                    proof {
                        lemma_map_of_index(self.seq(), i as int);
                    }
                    return (i, true);
                }
                proof {
                    lemma_path_lt_total(key@, k@);
                    self.lemma_absent_between(k@, i as int);
                }
                return (i, false);
            }
            i = i + 1;
        }
        proof {
            self.lemma_absent_between(k@, i as int);
        }
        (i, false)
    }

    proof fn lemma_absent_between(&self, k: PathView, i: int)
        requires
            self.wf(),
            0 <= i <= self.seq().len(),
            forall|j: int| 0 <= j < i ==> path_lt(#[trigger] self.seq()[j].0, k),
            i < self.seq().len() ==> path_lt(k, self.seq()[i].0),
        ensures
            !self.map().contains_key(k),
    {
        if has_key(self.seq(), k) {
            let j = choose|j: int| 0 <= j < self.seq().len() && #[trigger] self.seq()[j].0 == k;
            if j < i {
                lemma_path_lt_irreflexive(k);
            } else {
                if j > i {
                    assert(path_lt(self.seq()[i].0, self.seq()[j].0));
                    lemma_path_lt_transitive(k, self.seq()[i].0, k);
                }
                lemma_path_lt_irreflexive(k);
            }
        }
    }

    /// Whether `k` has an entry.
    pub fn contains(&self, k: &PathBuf) -> (r: bool)
        requires
            self.wf(),
        ensures
            r == self.map().contains_key(k@),
    {
        let (_i, found) = self.position(k);
        found
    }

    /// The value for `k`, if it has one.
    pub fn get(&self, k: &PathBuf) -> (r: Option<&V>)
        requires
            self.wf(),
        ensures
            r.is_some() == self.map().contains_key(k@),
            r matches Some(v) ==> *v == self.map()[k@],
    {
        let (i, found) = self.position(k);
        if found {
            proof {
                lemma_map_of_index(self.seq(), i as int);
            }
            Some(&self.entries[i].1)
        } else {
            None
        }
    }

    /// Sets the value for `k`, adding an entry if there was none.
    pub fn insert(&mut self, k: PathBuf, v: V)
        requires
            old(self).wf(),
        ensures
            final(self).wf(),
            final(self).map() == old(self).map().insert(k@, v),
    {
        let (i, found) = self.position(&k);
        let ghost s = self.seq();
        let ghost kv = k@;
        if found {
            self.entries.set(i, (k, v));
            let ghost t = self.seq();
            assert(t =~= s.update(i as int, (kv, v)));
            assert(sorted_keys(t)) by {
                assert forall|a: int, b: int| 0 <= a < b < t.len() implies path_lt(#[trigger] t[a].0, #[trigger] t[b].0) by {
                    assert(t[a].0 == s[a].0);
                    assert(t[b].0 == s[b].0);
                }
            }
            assert(map_of(t) =~= map_of(s).insert(kv, v)) by {
                assert forall|q: PathView| #[trigger] map_of(t).contains_key(q) <==> map_of(s).insert(kv, v).contains_key(q) by {
                    if has_key(t, q) {
                        let j = choose|j: int| 0 <= j < t.len() && #[trigger] t[j].0 == q;
                        assert(s[j].0 == q);
                    }
                    if has_key(s, q) {
                        let j = choose|j: int| 0 <= j < s.len() && #[trigger] s[j].0 == q;
                        assert(t[j].0 == q);
                    }
                }
                assert forall|q: PathView| #[trigger] map_of(t).contains_key(q) implies map_of(t)[q] == map_of(s).insert(kv, v)[q] by {
                    let j = choose|j: int| 0 <= j < t.len() && #[trigger] t[j].0 == q;
                    lemma_map_of_index(t, j);
                    lemma_map_of_index(t, i as int);
                    if j != i {
                        lemma_map_of_index(s, j);
                        if j < i {
                            assert(path_lt(t[j].0, t[i as int].0));
                        } else {
                            assert(path_lt(t[i as int].0, t[j].0));
                        }
                        lemma_path_lt_irreflexive(q);
                    }
                }
            }
        } else {
            self.entries.insert(i, (k, v));
            let ghost t = self.seq();
            assert(t =~= s.insert(i as int, (kv, v)));
            assert(sorted_keys(t)) by {
                assert forall|a: int, b: int| 0 <= a < b < t.len() implies path_lt(#[trigger] t[a].0, #[trigger] t[b].0) by {
                    if a < i && b < i {
                        assert(t[a].0 == s[a].0 && t[b].0 == s[b].0);
                    } else if a < i && b == i {
                        assert(t[a].0 == s[a].0);
                    } else if a < i {
                        assert(t[a].0 == s[a].0 && t[b].0 == s[b - 1].0);
                        lemma_path_lt_transitive(s[a].0, kv, s[i as int].0);
                        if b - 1 > i {
                            lemma_path_lt_transitive(s[a].0, s[i as int].0, s[b - 1].0);
                        }
                    } else if a == i {
                        assert(t[b].0 == s[b - 1].0);
                        if b - 1 > i {
                            lemma_path_lt_transitive(kv, s[i as int].0, s[b - 1].0);
                        }
                    } else {
                        assert(t[a].0 == s[a - 1].0 && t[b].0 == s[b - 1].0);
                    }
                }
            }
            assert(map_of(t) =~= map_of(s).insert(kv, v)) by {
                assert forall|q: PathView| #[trigger] map_of(t).contains_key(q) <==> map_of(s).insert(kv, v).contains_key(q) by {
                    if has_key(t, q) {
                        let j = choose|j: int| 0 <= j < t.len() && #[trigger] t[j].0 == q;
                        if j < i {
                            assert(s[j].0 == q);
                        } else if j > i {
                            assert(s[j - 1].0 == q);
                        }
                    }
                    if has_key(s, q) {
                        let j = choose|j: int| 0 <= j < s.len() && #[trigger] s[j].0 == q;
                        if j < i {
                            assert(t[j].0 == q);
                        } else {
                            assert(t[j + 1].0 == q);
                        }
                    }
                    assert(t[i as int].0 == kv);
                }
                assert forall|q: PathView| #[trigger] map_of(t).contains_key(q) implies map_of(t)[q] == map_of(s).insert(kv, v)[q] by {
                    let j = choose|j: int| 0 <= j < t.len() && #[trigger] t[j].0 == q;
                    lemma_map_of_index(t, j);
                    if j < i {
                        lemma_map_of_index(s, j);
                        lemma_map_of_index(t, i as int);
                        if q == kv {
                            lemma_path_lt_irreflexive(kv);
                        }
                    } else if j > i {
                        lemma_map_of_index(s, j - 1);
                        lemma_map_of_index(t, i as int);
                        if q == kv {
                            lemma_path_lt_irreflexive(kv);
                        }
                    }
                }
            }
        }
    }

    /// Removes the entry for `k`, reporting whether there was one.
    pub fn remove(&mut self, k: &PathBuf) -> (r: bool)
        requires
            old(self).wf(),
        ensures
            final(self).wf(),
            final(self).map() == old(self).map().remove(k@),
            r == old(self).map().contains_key(k@),
    {
        let (i, found) = self.position(k);
        if !found {
            assert(self.map() =~= self.map().remove(k@));
            return false;
        }
        let ghost s = self.seq();
        self.entries.remove(i);
        let ghost t = self.seq();
        assert(t =~= s.remove(i as int));
        assert(sorted_keys(t)) by {
            assert forall|a: int, b: int| 0 <= a < b < t.len() implies path_lt(#[trigger] t[a].0, #[trigger] t[b].0) by {
                if b < i {
                    assert(t[a].0 == s[a].0 && t[b].0 == s[b].0);
                } else if a < i {
                    assert(t[a].0 == s[a].0 && t[b].0 == s[b + 1].0);
                } else {
                    assert(t[a].0 == s[a + 1].0 && t[b].0 == s[b + 1].0);
                }
            }
        }
        assert(map_of(t) =~= map_of(s).remove(k@)) by {
            assert forall|q: PathView| #[trigger] map_of(t).contains_key(q) <==> map_of(s).remove(k@).contains_key(q) by {
                if has_key(t, q) {
                    let j = choose|j: int| 0 <= j < t.len() && #[trigger] t[j].0 == q;
                    if j < i {
                        assert(s[j].0 == q);
                        assert(path_lt(s[j].0, s[i as int].0));
                    } else {
                        assert(s[j + 1].0 == q);
                        assert(path_lt(s[i as int].0, s[j + 1].0));
                    }
                    lemma_path_lt_irreflexive(q);
                }
                if has_key(s, q) && q != k@ {
                    let j = choose|j: int| 0 <= j < s.len() && #[trigger] s[j].0 == q;
                    if j < i {
                        assert(t[j].0 == q);
                    } else {
                        assert(j != i);
                        assert(t[j - 1].0 == q);
                    }
                }
            }
            assert forall|q: PathView| #[trigger] map_of(t).contains_key(q) implies map_of(t)[q] == map_of(s).remove(k@)[q] by {
                let j = choose|j: int| 0 <= j < t.len() && #[trigger] t[j].0 == q;
                lemma_map_of_index(t, j);
                if j < i {
                    lemma_map_of_index(s, j);
                } else {
                    lemma_map_of_index(s, j + 1);
                }
            }
        }
        true
    }

    /// Removes every entry.
    pub fn clear(&mut self)
        ensures
            final(self).wf(),
            final(self).seq() == Seq::<(PathView, V)>::empty(),
            final(self).map() == Map::<PathView, V>::empty(),
    {
        self.entries.clear();
        assert(self.seq() =~= Seq::<(PathView, V)>::empty());
        assert(self.map() =~= Map::<PathView, V>::empty());
    }

    /// The keys, in order.
    pub fn keys(&self) -> (r: Vec<PathBuf>)
        ensures
            r@.len() == self.seq().len(),
            forall|i: int| 0 <= i < r@.len() ==> #[trigger] r@[i]@ == self.seq()[i].0,
    {
        let mut r: Vec<PathBuf> = Vec::new();
        let mut i: usize = 0;
        while i < self.entries.len()
            invariant
                i <= self.entries.len(),
                r@.len() == i,
                forall|j: int| 0 <= j < i ==> #[trigger] r@[j]@ == self.seq()[j].0,
            decreases self.entries.len() - i,
        {
            r.push(self.entries[i].0.duplicate());
            i = i + 1;
        }
        r
    }

}

} // verus!
