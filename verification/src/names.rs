//! A table keyed by names (topics, service names), kept as a vector of
//! entries whose names are pairwise distinct.
use vstd::prelude::*;

verus! {

/// Entries `(name, value)` with pairwise distinct names.
pub struct NameTable<V> {
    pub entries: Vec<(String, V)>,
}

/// Some entry of `s` carries the name `k`.
pub open spec fn has_name<V>(s: Seq<(String, V)>, k: Seq<char>) -> bool {
    exists|i: int| 0 <= i < s.len() && #[trigger] s[i].0@ == k
}

/// No two entries of `s` carry the same name.
pub open spec fn names_distinct<V>(s: Seq<(String, V)>) -> bool {
    forall|i: int, j: int| 0 <= i < s.len() && 0 <= j < s.len() && i != j ==> s[i].0@ != s[j].0@
}

impl<V> NameTable<V> {
    pub open spec fn wf(&self) -> bool {
        names_distinct(self.entries@)
    }

    /// The table as a map from names to values.
    pub open spec fn view(&self) -> Map<Seq<char>, V> {
        Map::new(
            |k: Seq<char>| has_name(self.entries@, k),
            |k: Seq<char>|
                self.entries@[choose|i: int|
                    0 <= i < self.entries@.len() && #[trigger] self.entries@[i].0@ == k].1,
        )
    }

    /// The value of the entry at `i` is the value of its name.
    pub proof fn lemma_entry(&self, i: int)
        requires
            self.wf(),
            0 <= i < self.entries@.len(),
        ensures
            self@.contains_key(self.entries@[i].0@),
            self@[self.entries@[i].0@] == self.entries@[i].1,
    {
        let k = self.entries@[i].0@;
        assert(has_name(self.entries@, k));
        let j = choose|j: int| 0 <= j < self.entries@.len() && #[trigger] self.entries@[j].0@ == k;
        assert(i == j);
    }

    /// An empty table.
    pub fn new() -> (t: Self)
        ensures
            t.wf(),
            t@ == Map::<Seq<char>, V>::empty(),
    {
        let t = NameTable { entries: Vec::new() };
        assert(t@ =~= Map::<Seq<char>, V>::empty());
        t
    }

    /// The position of the entry named `name`, if any.
    pub fn index_of(&self, name: &str) -> (r: Option<usize>)
        requires
            self.wf(),
        ensures
            r.is_none() <==> !self@.contains_key(name@),
            r matches Some(i) ==> i < self.entries@.len() && self.entries@[i as int].0@ == name@,
    {
        let mut i: usize = 0;
        while i < self.entries.len()
            invariant
                i <= self.entries@.len(),
                forall|k: int| 0 <= k < i ==> self.entries@[k].0@ != name@,
            decreases self.entries@.len() - i,
        {
            if crate::text::str_eq(self.entries[i].0.as_str(), name) {
                return Some(i);
            }
            i = i + 1;
        }
        None
    }

    /// The value of the entry named `name`, if any.
    pub fn get(&self, name: &str) -> (r: Option<&V>)
        requires
            self.wf(),
        ensures
            r.is_none() <==> !self@.contains_key(name@),
            r matches Some(v) ==> *v == self@[name@],
    {
        match self.index_of(name) {
            Some(i) => {
                proof {
                    self.lemma_entry(i as int);
                }
                Some(&self.entries[i].1)
            },
            None => None,
        }
    }

    /// Removes the entry named `name` and returns its value, if any.
    pub fn take(&mut self, name: &str) -> (r: Option<V>)
        requires
            old(self).wf(),
        ensures
            final(self).wf(),
            final(self)@ == old(self)@.remove(name@),
            r.is_none() <==> !old(self)@.contains_key(name@),
            r matches Some(v) ==> v == old(self)@[name@],
    {
        match self.index_of(name) {
            Some(i) => {
                proof {
                    self.lemma_entry(i as int);
                }
                let ghost before = self.entries@;
                let e = self.entries.remove(i);
                proof {
                    assert forall|a: int, b: int|
                        0 <= a < self.entries@.len() && 0 <= b < self.entries@.len() && a != b implies self.entries@[a].0@
                        != self.entries@[b].0@ by {
                        let a2 = if a < i { a } else { a + 1 };
                        let b2 = if b < i { b } else { b + 1 };
                        assert(self.entries@[a] == before[a2]);
                        assert(self.entries@[b] == before[b2]);
                    }
                    assert forall|k: Seq<char>| #[trigger] self@.contains_key(k) <==> old(self)@.remove(
                        name@,
                    ).contains_key(k) by {
                        if has_name(self.entries@, k) {
                            let j = choose|j: int|
                                0 <= j < self.entries@.len() && #[trigger] self.entries@[j].0@ == k;
                            let j2 = if j < i { j } else { j + 1 };
                            assert(before[j2].0@ == k);
                            assert(j2 != i);
                        }
                        if has_name(before, k) && k != name@ {
                            let j = choose|j: int| 0 <= j < before.len() && #[trigger] before[j].0@ == k;
                            assert(j != i);
                            let j2 = if j < i { j } else { j - 1 };
                            assert(self.entries@[j2].0@ == k);
                        }
                    }
                    assert forall|k: Seq<char>| #[trigger] self@.contains_key(k) implies self@[k] == old(
                        self,
                    )@[k] by {
                        let j = choose|j: int|
                            0 <= j < self.entries@.len() && #[trigger] self.entries@[j].0@ == k;
                        self.lemma_entry(j);
                        let j2 = if j < i { j } else { j + 1 };
                        assert(before[j2] == self.entries@[j]);
                        old(self).lemma_entry(j2);
                    }
                    assert(self@ =~= old(self)@.remove(name@));
                }
                Some(e.1)
            },
            None => {
                assert(self@ =~= old(self)@.remove(name@));
                None
            },
        }
    }

    /// Sets the value of `name`, replacing the entry that had that name.
    pub fn insert(&mut self, name: String, v: V)
        requires
            old(self).wf(),
        ensures
            final(self).wf(),
            final(self)@ == old(self)@.insert(name@, v),
    {
        let _ = self.take(name.as_str());
        let ghost mid = *self;
        let ghost k = name@;
        self.entries.push((name, v));
        proof {
            let n = mid.entries@.len() as int;
            assert(self.entries@[n].0@ == k);
            assert forall|a: int, b: int|
                0 <= a < self.entries@.len() && 0 <= b < self.entries@.len() && a != b implies self.entries@[a].0@
                != self.entries@[b].0@ by {
                if a < n && b < n {
                    assert(self.entries@[a] == mid.entries@[a]);
                    assert(self.entries@[b] == mid.entries@[b]);
                } else if a < n {
                    assert(self.entries@[a] == mid.entries@[a]);
                    if mid.entries@[a].0@ == k {
                        mid.lemma_entry(a);
                    }
                } else if b < n {
                    assert(self.entries@[b] == mid.entries@[b]);
                    if mid.entries@[b].0@ == k {
                        mid.lemma_entry(b);
                    }
                }
            }
            assert forall|q: Seq<char>| #[trigger] self@.contains_key(q) <==> old(self)@.insert(
                k,
                v,
            ).contains_key(q) by {
                assert(mid@ == old(self)@.remove(k));
                if q == k {
                    assert(self.entries@[n].0@ == q);
                    assert(has_name(self.entries@, q));
                }
                if q != k && old(self)@.contains_key(q) {
                    assert(mid@.contains_key(q));
                }
                if has_name(self.entries@, q) && q != k {
                    let j = choose|j: int| 0 <= j < self.entries@.len() && #[trigger] self.entries@[j].0@ == q;
                    assert(j < n);
                    assert(mid.entries@[j].0@ == q);
                    assert(has_name(mid.entries@, q));
                }
                if has_name(mid.entries@, q) {
                    let j = choose|j: int| 0 <= j < mid.entries@.len() && #[trigger] mid.entries@[j].0@ == q;
                    assert(self.entries@[j].0@ == q);
                }
                assert(self@.contains_key(q) == has_name(self.entries@, q));
                assert(mid@.contains_key(q) == has_name(mid.entries@, q));
                assert(old(self)@.insert(k, v).contains_key(q) == (q == k || old(self)@.contains_key(q)));
            }
            assert forall|q: Seq<char>| #[trigger] self@.contains_key(q) implies self@[q] == old(self)@.insert(
                k,
                v,
            )[q] by {
                let j = choose|j: int| 0 <= j < self.entries@.len() && #[trigger] self.entries@[j].0@ == q;
                self.lemma_entry(j);
                if j < n {
                    assert(self.entries@[j] == mid.entries@[j]);
                    mid.lemma_entry(j);
                }
            }
            assert(self@ =~= old(self)@.insert(k, v));
        }
    }
}

} // verus!
