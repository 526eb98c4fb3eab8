//! A table keyed by names, with at most one entry per name.

use vstd::prelude::*;

verus! {

/// No name occurs twice in `entries`.
pub open spec fn distinct_keys<V>(entries: Seq<(String, V)>) -> bool {
    forall|i: int, j: int|
        0 <= i < j < entries.len() ==> #[trigger] entries[i].0@ != #[trigger] entries[j].0@
}

/// Values by name.
pub struct NameMap<V> {
    entries: Vec<(String, V)>,
}

impl<V> NameMap<V> {
    #[verifier::type_invariant]
    spec fn keys_distinct(self) -> bool {
        distinct_keys(self.entries@)
    }

    /// The value of each name.
    pub closed spec fn map(&self) -> Map<Seq<char>, V> {
        Map::new(
            |n: Seq<char>| exists|i: int| 0 <= i < self.entries@.len() && self.entries@[i].0@ == n,
            |n: Seq<char>|
                {
                    let i = choose|i: int| 0 <= i < self.entries@.len() && self.entries@[i].0@ == n;
                    self.entries@[i].1
                },
        )
    }

    /// An empty table.
    pub fn new() -> (t: NameMap<V>)
        ensures
            t.map() == Map::<Seq<char>, V>::empty(),
    {
        let t = NameMap { entries: Vec::new() };
        assert(t.map() =~= Map::<Seq<char>, V>::empty());
        t
    }

    fn index_of(&self, name: &str) -> (r: Option<usize>)
        ensures
            match r {
                Some(i) => i < self.entries@.len() && self.entries@[i as int].0@ == name@,
                None => forall|i: int| 0 <= i < self.entries@.len() ==> self.entries@[i].0@ != name@,
            },
    {
        let mut i: usize = 0;
        while i < self.entries.len()
            invariant
                i <= self.entries@.len(),
                forall|k: int| 0 <= k < i ==> self.entries@[k].0@ != name@,
            decreases self.entries@.len() - i,
        {
            if str_eq(self.entries[i].0.as_str(), name) {
                return Some(i);
            }
            i = i + 1;
        }
        None
    }

    proof fn lemma_lookup(&self, i: int)
        requires
            0 <= i < self.entries@.len(),
            distinct_keys(self.entries@),
        ensures
            self.map().dom().contains(self.entries@[i].0@),
            self.map()[self.entries@[i].0@] == self.entries@[i].1,
    {
        let n = self.entries@[i].0@;
        let j = choose|j: int| 0 <= j < self.entries@.len() && self.entries@[j].0@ == n;
        assert(j == i);
    }

    /// The value of `name`, if any.
    pub fn get(&self, name: &str) -> (r: Option<&V>)
        ensures
            match r {
                Some(v) => self.map().dom().contains(name@) && self.map()[name@] == *v,
                None => !self.map().dom().contains(name@),
            },
    {
        match self.index_of(name) {
            Some(i) => {
                proof {
                    use_type_invariant(self);
                    self.lemma_lookup(i as int);
                }
                Some(&self.entries[i].1)
            },
            None => None,
        }
    }

    /// Sets the value of `name`, in place of the one it had.
    pub fn insert(&mut self, name: String, value: V)
        ensures
            final(self).map() == old(self).map().insert(name@, value),
    {
        proof {
            use_type_invariant(&*self);
        }
        let ghost n = name@;
        let ghost before = self.map();
        let found = self.index_of(name.as_str());
        let mut entries = Vec::new();
        std::mem::swap(&mut entries, &mut self.entries);
        let ghost old_entries = entries@;
        let ghost pos: int = match found {
            Some(i) => i as int,
            None => old_entries.len() as int,
        };
        match found {
            Some(i) => {
                entries.set(i, (name, value));
            },
            None => {
                entries.push((name, value));
            },
        }
        proof {
            assert forall|a: int, b: int|
                0 <= a < b < entries@.len() implies #[trigger] entries@[a].0@ != #[trigger] entries@[b].0@ by {
                if a != pos && b != pos {
                    assert(entries@[a] == old_entries[a] && entries@[b] == old_entries[b]);
                } else if a == pos {
                    assert(entries@[b] == old_entries[b]);
                } else {
                    assert(entries@[a] == old_entries[a]);
                }
            }
        }
        self.entries = entries;
        proof {
            use_type_invariant(&*self);
            let after = self.map();
            assert(self.entries@[pos].0@ == n);
            assert forall|k: Seq<char>| #[trigger] after.dom().contains(k) <==> before.insert(n, value).dom().contains(k) by {
                if k != n {
                    if after.dom().contains(k) {
                        let j = choose|j: int| 0 <= j < self.entries@.len() && self.entries@[j].0@ == k;
                        assert(j != pos);
                        assert(old_entries[j].0@ == k);
                    }
                    if before.dom().contains(k) {
                        let j = choose|j: int| 0 <= j < old_entries.len() && old_entries[j].0@ == k;
                        assert(j != pos);
                        assert(self.entries@[j].0@ == k);
                    }
                }
            }
            assert forall|k: Seq<char>| #[trigger] after.dom().contains(k) implies after[k] == before.insert(n, value)[k] by {
                let j = choose|j: int| 0 <= j < self.entries@.len() && self.entries@[j].0@ == k;
                self.lemma_lookup(j);
                if k != n {
                    assert(j != pos);
                    assert(old_entries[j] == self.entries@[j]);
                    let jj = choose|jj: int| 0 <= jj < old_entries.len() && old_entries[jj].0@ == k;
                    assert(jj == j);
                } else {
                    assert(j == pos);
                }
            }
            assert(after =~= before.insert(n, value));
        }
    }

    /// Removes `name` and gives back its value, if it had one.
    pub fn remove(&mut self, name: &str) -> (r: Option<V>)
        ensures
            final(self).map() == old(self).map().remove(name@),
            match r {
                Some(v) => old(self).map().dom().contains(name@) && old(self).map()[name@] == v,
                None => !old(self).map().dom().contains(name@),
            },
    {
        proof {
            use_type_invariant(&*self);
        }
        let ghost n = name@;
        let ghost before = self.map();
        match self.index_of(name) {
            None => {
                assert(before.remove(n) =~= before);
                None
            },
            Some(i) => {
                proof {
                    self.lemma_lookup(i as int);
                }
                let mut entries = Vec::new();
                std::mem::swap(&mut entries, &mut self.entries);
                let ghost old_entries = entries@;
                let (_, v) = entries.remove(i);
                proof {
                    assert forall|a: int, b: int|
                        0 <= a < b < entries@.len() implies #[trigger] entries@[a].0@ != #[trigger] entries@[b].0@ by {
                        let oa = if a < i { a } else { a + 1 };
                        let ob = if b < i { b } else { b + 1 };
                        assert(entries@[a] == old_entries[oa]);
                        assert(entries@[b] == old_entries[ob]);
                    }
                }
                self.entries = entries;
                proof {
                    use_type_invariant(&*self);
                    let after = self.map();
                    assert forall|k: Seq<char>| #[trigger] after.dom().contains(k) <==> before.remove(n).dom().contains(k) by {
                        if after.dom().contains(k) {
                            let j = choose|j: int| 0 <= j < self.entries@.len() && self.entries@[j].0@ == k;
                            let oj = if j < i { j } else { j + 1 };
                            assert(old_entries[oj] == self.entries@[j]);
                            assert(oj != i);
                        }
                        if before.dom().contains(k) && k != n {
                            let j = choose|j: int| 0 <= j < old_entries.len() && old_entries[j].0@ == k;
                            assert(j != i);
                            let nj = if j < i { j } else { j - 1 };
                            assert(self.entries@[nj] == old_entries[j]);
                        }
                    }
                    assert forall|k: Seq<char>| #[trigger] after.dom().contains(k) implies after[k] == before.remove(n)[k] by {
                        let j = choose|j: int| 0 <= j < self.entries@.len() && self.entries@[j].0@ == k;
                        self.lemma_lookup(j);
                        let oj = if j < i { j } else { j + 1 };
                        assert(old_entries[oj] == self.entries@[j]);
                        let jj = choose|jj: int| 0 <= jj < old_entries.len() && old_entries[jj].0@ == k;
                        assert(jj == oj);
                    }
                    assert(after =~= before.remove(n));
                }
                Some(v)
            },
        }
    }
}

/// Whether two strings hold the same characters.
pub fn str_eq(a: &str, b: &str) -> (r: bool)
    ensures
        r == (a@ == b@),
{
    let va = crate::text::chars_of(a);
    let vb = crate::text::chars_of(b);
    if va.len() != vb.len() {
        return false;
    }
    let mut i: usize = 0;
    while i < va.len()
        invariant
            i <= va@.len() == vb@.len(),
            va@ == a@,
            vb@ == b@,
            forall|k: int| 0 <= k < i ==> va@[k] == vb@[k],
        decreases va@.len() - i,
    {
        if va[i] != vb[i] {
            return false;
        }
        i = i + 1;
    }
    assert(va@ =~= vb@);
    true
}

} // verus!
