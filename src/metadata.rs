//! A flat string-to-string mapping attached to each stored vector.

use vstd::prelude::*;

verus! {

/// Text keys mapped to text values, each key at most once.
pub struct Metadata {
    entries: Vec<(String, String)>,
}

impl Metadata {
    /// Keys are pairwise distinct.
    #[verifier::type_invariant]
    spec fn wf(&self) -> bool {
        forall|i: int, j: int|
            0 <= i < j < self.entries@.len() ==> (#[trigger] self.entries@[i]).0@
                != (#[trigger] self.entries@[j]).0@
    }

    /// The position of the entry for `key`, if any.
    closed spec fn has_key_at(&self, key: Seq<char>, i: int) -> bool {
        0 <= i < self.entries@.len() && self.entries@[i].0@ == key
    }

    proof fn lemma_entry_in_view(&self, i: int)
        requires
            self.wf(),
            0 <= i < self.entries@.len(),
        ensures
            self@.contains_key(self.entries@[i].0@),
            self@[self.entries@[i].0@] == self.entries@[i].1@,
    {
        let key = self.entries@[i].0@;
        assert(self.has_key_at(key, i));
        let j = choose|j: int| self.has_key_at(key, j);
        assert(self.has_key_at(key, j));
        if i != j {
            if i < j {
                assert(self.entries@[i].0@ != self.entries@[j].0@);
            } else {
                assert(self.entries@[j].0@ != self.entries@[i].0@);
            }
        }
    }

    /// An empty mapping.
    pub fn new() -> (r: Metadata)
        ensures
            r@ == Map::<Seq<char>, Seq<char>>::empty(),
    {
        let r = Metadata { entries: Vec::new() };
        assert(r@ =~= Map::<Seq<char>, Seq<char>>::empty());
        r
    }

    /// The number of keys.
    pub fn len(&self) -> (r: usize)
        ensures
            r == self@.dom().len(),
    {
        proof {
            use_type_invariant(self);
            self.lemma_len();
        }
        self.entries.len()
    }

    proof fn lemma_len(&self)
        requires
            self.wf(),
        ensures
            self@.dom().len() == self.entries@.len(),
            self@.dom().finite(),
        decreases self.entries@.len(),
    {
        let keys = self.entries@.map_values(|e: (String, String)| e.0@);
        assert forall|i: int, j: int| 0 <= i < j < keys.len() implies keys[i] != keys[j] by {
            assert(self.entries@[i].0@ != self.entries@[j].0@);
        }
        assert(keys.no_duplicates());
        assert forall|k: Seq<char>| #[trigger] self@.dom().contains(k) <==> keys.to_set().contains(k) by {
            if self@.dom().contains(k) {
                let j = choose|j: int| self.has_key_at(k, j);
                assert(keys[j] == k);
            }
            if keys.to_set().contains(k) {
                let j = choose|j: int| 0 <= j < keys.len() && keys[j] == k;
                assert(self.has_key_at(k, j));
            }
        }
        assert(self@.dom() =~= keys.to_set());
        keys.unique_seq_to_set();
    }

    /// The value stored under `key`.
    pub fn get(&self, key: &String) -> (r: Option<&String>)
        ensures
            match r {
                Some(v) => self@.contains_key(key@) && self@[key@] == v@,
                None => !self@.contains_key(key@),
            },
    {
        proof {
            use_type_invariant(self);
        }
        let mut i: usize = 0;
        while i < self.entries.len()
            invariant
                self.wf(),
                0 <= i <= self.entries@.len(),
                forall|j: int| 0 <= j < i ==> (#[trigger] self.entries@[j]).0@ != key@,
            decreases self.entries@.len() - i,
        {
            if self.entries[i].0 == *key {
                proof {
                    self.lemma_entry_in_view(i as int);
                }
                return Some(&self.entries[i].1);
            }
            i = i + 1;
        }
        proof {
            if self@.contains_key(key@) {
                let j = choose|j: int| self.has_key_at(key@, j);
                assert(self.entries@[j].0@ != key@);
            }
        }
        None
    }

    /// Whether `key` is present with exactly `value`.
    pub fn matches(&self, key: &String, value: &String) -> (r: bool)
        ensures
            r == (self@.contains_key(key@) && self@[key@] == value@),
    {
        match self.get(key) {
            Some(v) => *v == *value,
            None => false,
        }
    }

    /// Sets `key` to `value`, replacing any earlier value.
    pub fn insert(&mut self, key: String, value: String)
        ensures
            final(self)@ == old(self)@.insert(key@, value@),
    {
        proof {
            use_type_invariant(&*self);
        }
        let ghost before = *self;
        let ghost k = key@;
        let ghost v = value@;
        let mut entries: Vec<(String, String)> = Vec::new();
        std::mem::swap(&mut entries, &mut self.entries);
        let mut i: usize = 0;
        while i < entries.len()
            invariant
                entries@ == before.entries@,
                before == *old(self),
                before.wf(),
                k == key@,
                v == value@,
                0 <= i <= entries@.len(),
                forall|j: int| 0 <= j < i ==> (#[trigger] entries@[j]).0@ != key@,
            decreases entries@.len() - i,
        {
            if entries[i].0 == key {
                entries.set(i, (key, value));
                proof {
                    assert forall|a: int, b: int|
                        0 <= a < b < entries@.len() implies (#[trigger] entries@[a]).0@
                        != (#[trigger] entries@[b]).0@ by {
                        assert(before.entries@[a].0@ != before.entries@[b].0@);
                    }
                }
                let r = Metadata { entries };
                proof {
                    use_type_invariant(&r);
                    r.lemma_replaced(before, i as int, k, v);
                }
                *self = r;
                return;
            }
            i = i + 1;
        }
        entries.push((key, value));
        proof {
            let n = before.entries@.len() as int;
            assert forall|a: int, b: int|
                0 <= a < b < entries@.len() implies (#[trigger] entries@[a]).0@
                != (#[trigger] entries@[b]).0@ by {
                if b < n {
                    assert(before.entries@[a].0@ != before.entries@[b].0@);
                }
            }
        }
        let r = Metadata { entries };
        proof {
            use_type_invariant(&r);
            r.lemma_appended(before, k, v);
        }
        *self = r;
    }

    /// `self` is `before` with the entry at `i`, whose key is `k`, set to `v`.
    proof fn lemma_replaced(&self, before: Metadata, i: int, k: Seq<char>, v: Seq<char>)
        requires
            self.wf(),
            before.wf(),
            0 <= i < before.entries@.len(),
            self.entries@.len() == before.entries@.len(),
            before.entries@[i].0@ == k,
            self.entries@[i].0@ == k,
            self.entries@[i].1@ == v,
            forall|j: int| 0 <= j < self.entries@.len() && j != i ==> #[trigger] self.entries@[j] == before.entries@[j],
        ensures
            self@ == before@.insert(k, v),
    {
        assert forall|q: Seq<char>| #[trigger] self@.contains_key(q) <==> before@.insert(k, v).contains_key(q) by {
            if q == k {
                assert(self.has_key_at(q, i));
            }
            if self@.contains_key(q) {
                let j = choose|j: int| self.has_key_at(q, j);
                if j != i {
                    assert(before.has_key_at(q, j));
                }
            }
            if before@.contains_key(q) {
                let j = choose|j: int| before.has_key_at(q, j);
                assert(self.has_key_at(q, j));
            }
        }
        assert forall|q: Seq<char>| #[trigger] self@.contains_key(q) implies self@[q] == before@.insert(k, v)[q] by {
            let j = choose|j: int| self.has_key_at(q, j);
            self.lemma_entry_in_view(j);
            if j != i {
                before.lemma_entry_in_view(j);
            }
        }
        assert(self@ =~= before@.insert(k, v));
    }

    /// `self` is `before` with a new last entry from `k` to `v`.
    proof fn lemma_appended(&self, before: Metadata, k: Seq<char>, v: Seq<char>)
        requires
            self.wf(),
            before.wf(),
            self.entries@.len() == before.entries@.len() + 1,
            forall|j: int| 0 <= j < before.entries@.len() ==> #[trigger] self.entries@[j] == before.entries@[j],
            self.entries@.last().0@ == k,
            self.entries@.last().1@ == v,
    ensures
            self@ == before@.insert(k, v),
    {
        let n = before.entries@.len() as int;
        assert forall|q: Seq<char>| #[trigger] self@.contains_key(q) <==> before@.insert(k, v).contains_key(q) by {
            if self@.contains_key(q) {
                let j = choose|j: int| self.has_key_at(q, j);
                if j != n {
                    assert(before.has_key_at(q, j));
                }
            }
            if before@.contains_key(q) {
                let j = choose|j: int| before.has_key_at(q, j);
                assert(self.has_key_at(q, j));
            }
            if q == k {
                assert(self.has_key_at(q, n));
            }
        }
        assert forall|q: Seq<char>| #[trigger] self@.contains_key(q) implies self@[q] == before@.insert(k, v)[q] by {
            let j = choose|j: int| self.has_key_at(q, j);
            self.lemma_entry_in_view(j);
            if j != n {
                before.lemma_entry_in_view(j);
            }
        }
        assert(self@ =~= before@.insert(k, v));
    }

    /// The key and value at `i` in insertion order.
    pub fn entry(&self, i: usize) -> (r: (&String, &String))
        requires
            i < self@.dom().len(),
        ensures
            self@.contains_key(r.0@),
            self@[r.0@] == r.1@,
    {
        proof {
            use_type_invariant(self);
            self.lemma_len();
            self.lemma_entry_in_view(i as int);
        }
        (&self.entries[i].0, &self.entries[i].1)
    }
}

impl View for Metadata {
    type V = Map<Seq<char>, Seq<char>>;

    closed spec fn view(&self) -> Map<Seq<char>, Seq<char>> {
        Map::new(
            |k: Seq<char>| exists|i: int| self.has_key_at(k, i),
            |k: Seq<char>| self.entries@[choose|i: int| self.has_key_at(k, i)].1@,
        )
    }
}

impl Clone for Metadata {
    /// A copy with the same keys and values.
    fn clone(&self) -> (r: Self)
        ensures
            r@ == self@,
    {
        proof {
            use_type_invariant(self);
        }
        let mut entries: Vec<(String, String)> = Vec::new();
        let mut i: usize = 0;
        while i < self.entries.len()
            invariant
                0 <= i <= self.entries@.len(),
                entries@.len() == i,
                forall|j: int| 0 <= j < i ==> (#[trigger] entries@[j]).0@ == self.entries@[j].0@
                    && entries@[j].1@ == self.entries@[j].1@,
            decreases self.entries@.len() - i,
        {
            entries.push((self.entries[i].0.clone(), self.entries[i].1.clone()));
            i = i + 1;
        }
        proof {
            assert forall|a: int, b: int|
                0 <= a < b < entries@.len() implies (#[trigger] entries@[a]).0@
                != (#[trigger] entries@[b]).0@ by {
                assert(self.entries@[a].0@ != self.entries@[b].0@);
            }
        }
        let r = Metadata { entries };
        proof {
            use_type_invariant(&r);
            assert forall|k: Seq<char>| #[trigger] r@.contains_key(k) <==> self@.contains_key(k) by {
                if r@.contains_key(k) {
                    let a = choose|j: int| r.has_key_at(k, j);
                    assert(self.has_key_at(k, a));
                }
                if self@.contains_key(k) {
                    let a = choose|j: int| self.has_key_at(k, j);
                    assert(r.has_key_at(k, a));
                }
            }
            assert forall|k: Seq<char>| #[trigger] r@.contains_key(k) implies r@[k] == self@[k] by {
                let a = choose|j: int| r.has_key_at(k, j);
                r.lemma_entry_in_view(a);
                self.lemma_entry_in_view(a);
            }
            assert(r@ =~= self@);
        }
        r
    }
}

} // verus!
