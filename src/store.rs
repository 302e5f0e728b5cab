//! A keyed store held as a vector of entries with unique keys, seen as a `Map`.
use vstd::prelude::*;

verus! {

/// A fixed-size key whose equality can be decided at run time.
pub trait Key: Sized {
    fn same(&self, other: &Self) -> (r: bool)
        ensures
            r == (*self == *other),
    ;
}

impl Key for [u8; 32] {
    fn same(&self, other: &Self) -> (r: bool) {
        let mut i: usize = 0;
        while i < 32
            invariant
                0 <= i <= 32,
                forall|j: int| 0 <= j < i ==> self@[j] == other@[j],
            decreases 32 - i,
        {
            if self[i] != other[i] {
                return false;
            }
            i = i + 1;
        }
        proof {
            broadcast use vstd::array::group_array_axioms, vstd::array::lemma_array_index;
            assert(*self =~= *other);
        }
        true
    }
}

impl Key for ([u8; 32], [u8; 32]) {
    fn same(&self, other: &Self) -> (r: bool) {
        self.0.same(&other.0) && self.1.same(&other.1)
    }
}

/// Entries with pairwise distinct keys; `view` is the map they spell.
#[verifier::reject_recursive_types(K)]
pub struct Store<K, V> {
    entries: Vec<(K, V)>,
    map: Ghost<Map<K, V>>,
}

impl<K, V> View for Store<K, V> {
    type V = Map<K, V>;

    closed spec fn view(&self) -> Map<K, V> {
        self.map@
    }
}

impl<K: Key, V> Store<K, V> {
    pub closed spec fn wf(&self) -> bool {
        &&& forall|i: int|
            0 <= i < self.entries@.len() ==> {
                &&& #[trigger] self.map@.contains_key(self.entries@[i].0)
                &&& self.map@[self.entries@[i].0] == self.entries@[i].1
            }
        &&& forall|k: K|
            #[trigger] self.map@.contains_key(k) ==> exists|i: int|
                0 <= i < self.entries@.len() && #[trigger] self.entries@[i].0 == k
        &&& forall|i: int, j: int|
            0 <= i < self.entries@.len() && 0 <= j < self.entries@.len() && i != j
                ==> self.entries@[i].0 != self.entries@[j].0
    }

    pub fn new() -> (s: Self)
        ensures
            s.wf(),
            s@ == Map::<K, V>::empty(),
    {
        Store { entries: Vec::new(), map: Ghost(Map::empty()) }
    }

    fn index_of(&self, k: &K) -> (r: Option<usize>)
        requires
            self.wf(),
        ensures
            match r {
                Some(i) => i < self.entries@.len() && self.entries@[i as int].0 == *k
                    && self@.contains_key(*k) && self@[*k] == self.entries@[i as int].1,
                None => !self@.contains_key(*k),
            },
    {
        let mut i: usize = 0;
        while i < self.entries.len()
            invariant
                self.wf(),
                0 <= i <= self.entries@.len(),
                forall|j: int| 0 <= j < i ==> self.entries@[j].0 != *k,
            decreases self.entries@.len() - i,
        {
            if self.entries[i].0.same(k) {
                proof {
                    assert(self.map@.contains_key(self.entries@[i as int].0));
                }
                return Some(i);
            }
            i = i + 1;
        }
        proof {
            if self.map@.contains_key(*k) {
                let j = choose|j: int| 0 <= j < self.entries@.len() && #[trigger] self.entries@[j].0 == *k;
                assert(self.entries@[j].0 == *k);
            }
        }
        None
    }

    /// Whether a value is stored under `k`.
    pub fn contains(&self, k: &K) -> (r: bool)
        requires
            self.wf(),
        ensures
            r == self@.contains_key(*k),
    {
        self.index_of(k).is_some()
    }

    /// The value stored under `k`, if any.
    pub fn get(&self, k: &K) -> (r: Option<&V>)
        requires
            self.wf(),
        ensures
            match r {
                Some(v) => self@.contains_key(*k) && *v == self@[*k],
                None => !self@.contains_key(*k),
            },
    {
        match self.index_of(k) {
            Some(i) => Some(&self.entries[i].1),
            None => None,
        }
    }

    /// Stores `v` under `k`, replacing what was there.
    pub fn insert(&mut self, k: K, v: V)
        requires
            old(self).wf(),
        ensures
            final(self).wf(),
            final(self)@ == old(self)@.insert(k, v),
    {
        match self.index_of(&k) {
            Some(i) => {
                self.entries.set(i, (k, v));
                self.map = Ghost(self.map@.insert(k, v));
                proof {
                    assert forall|j: int| 0 <= j < self.entries@.len() && j != i implies
                        self.entries@[j].0 != k by {
                        assert(old(self).entries@[j].0 != old(self).entries@[i as int].0);
                    }
                    assert forall|k2: K| #[trigger] self.map@.contains_key(k2) implies exists|j: int|
                        0 <= j < self.entries@.len() && #[trigger] self.entries@[j].0 == k2 by {
                        if k2 == k {
                            assert(self.entries@[i as int].0 == k2);
                        } else {
                            assert(old(self).map@.contains_key(k2));
                            let j = choose|j: int|
                                0 <= j < old(self).entries@.len() && #[trigger] old(self).entries@[j].0 == k2;
                            assert(self.entries@[j].0 == k2);
                        }
                    }
                }
            },
            None => {
                self.entries.push((k, v));
                self.map = Ghost(self.map@.insert(k, v));
                proof {
                    let n = self.entries@.len() - 1;
                    assert forall|k2: K| #[trigger] self.map@.contains_key(k2) implies exists|j: int|
                        0 <= j < self.entries@.len() && #[trigger] self.entries@[j].0 == k2 by {
                        if k2 == k {
                            assert(self.entries@[n].0 == k2);
                        } else {
                            assert(old(self).map@.contains_key(k2));
                            let j = choose|j: int|
                                0 <= j < old(self).entries@.len() && #[trigger] old(self).entries@[j].0 == k2;
                            assert(self.entries@[j].0 == k2);
                        }
                    }
                    assert forall|i: int| 0 <= i < n implies old(self).entries@[i].0 != k by {
                        assert(old(self).map@.contains_key(old(self).entries@[i].0));
                    }
                }
            },
        }
    }

    /// Takes out the value stored under `k`, if any.
    pub fn remove(&mut self, k: &K) -> (r: Option<V>)
        requires
            old(self).wf(),
        ensures
            final(self).wf(),
            final(self)@ == old(self)@.remove(*k),
            match r {
                Some(v) => old(self)@.contains_key(*k) && v == old(self)@[*k],
                None => !old(self)@.contains_key(*k),
            },
    {
        match self.index_of(k) {
            Some(i) => {
                let ghost old_entries = self.entries@;
                let (_, v) = self.entries.remove(i);
                self.map = Ghost(self.map@.remove(*k));
                proof {
                    let e = self.entries@;
                    assert forall|j: int| 0 <= j < e.len() implies
                        e[j] == (if j < i { old_entries[j] } else { old_entries[j + 1] }) by {}
                    assert forall|j: int| 0 <= j < e.len() implies e[j].0 != *k by {
                        if j < i {
                            assert(old_entries[j].0 != old_entries[i as int].0);
                        } else {
                            assert(old_entries[j + 1].0 != old_entries[i as int].0);
                        }
                    }
                    assert forall|k2: K| #[trigger] self.map@.contains_key(k2) implies exists|j: int|
                        0 <= j < self.entries@.len() && #[trigger] self.entries@[j].0 == k2 by {
                        let j = choose|j: int|
                            0 <= j < old_entries.len() && #[trigger] old_entries[j].0 == k2;
                        assert(j != i);
                        if j < i {
                            assert(self.entries@[j].0 == k2);
                        } else {
                            assert(self.entries@[j - 1].0 == k2);
                        }
                    }
                    assert forall|a: int, b: int|
                        0 <= a < e.len() && 0 <= b < e.len() && a != b implies e[a].0 != e[b].0 by {
                        let oa = if a < i { a } else { a + 1 };
                        let ob = if b < i { b } else { b + 1 };
                        assert(old_entries[oa].0 != old_entries[ob].0);
                    }
                }
                Some(v)
            },
            None => {
                proof {
                    assert(self.map@.remove(*k) =~= self.map@);
                }
                None
            },
        }
    }
}

impl<V: Copy> Store<[u8; 32], V> {
    /// A second store with the same entries.
    pub fn copy(&self) -> (r: Self)
        requires
            self.wf(),
        ensures
            r.wf(),
            r@ == self@,
    {
        let mut entries: Vec<([u8; 32], V)> = Vec::new();
        let mut i: usize = 0;
        while i < self.entries.len()
            invariant
                0 <= i <= self.entries@.len(),
                entries@ == self.entries@.subrange(0, i as int),
            decreases self.entries@.len() - i,
        {
            let k: [u8; 32] = self.entries[i].0;
            let v: V = self.entries[i].1;
            entries.push((k, v));
            proof {
                assert(entries@ =~= self.entries@.subrange(0, i as int + 1));
            }
            i = i + 1;
        }
        proof {
            assert(entries@ =~= self.entries@);
        }
        let r = Store { entries, map: Ghost(self.map@) };
        proof {
            assert(r.entries@ == self.entries@);
            assert forall|k: [u8; 32]| #[trigger] r.map@.contains_key(k) implies exists|j: int|
                0 <= j < r.entries@.len() && #[trigger] r.entries@[j].0 == k by {
                let j = choose|j: int| 0 <= j < self.entries@.len() && #[trigger] self.entries@[j].0 == k;
                assert(r.entries@[j].0 == k);
            }
        }
        r
    }
}

impl<V> Store<([u8; 32], [u8; 32]), V> {
    /// Whether some key of the store has `a` as its first half.
    pub fn has_first(&self, a: &[u8; 32]) -> (r: bool)
        requires
            self.wf(),
        ensures
            r == exists|b: [u8; 32]| self@.contains_key((*a, b)),
    {
        let mut i: usize = 0;
        while i < self.entries.len()
            invariant
                self.wf(),
                0 <= i <= self.entries@.len(),
                forall|j: int| 0 <= j < i ==> self.entries@[j].0.0 != *a,
            decreases self.entries@.len() - i,
        {
            if self.entries[i].0.0.same(a) {
                proof {
                    let key = self.entries@[i as int].0;
                    assert(self.map@.contains_key(key));
                    assert(self@.contains_key((*a, key.1)));
                }
                return true;
            }
            i = i + 1;
        }
        proof {
            assert forall|b: [u8; 32]| !self@.contains_key((*a, b)) by {
                if self.map@.contains_key((*a, b)) {
                    let j = choose|j: int|
                        0 <= j < self.entries@.len() && #[trigger] self.entries@[j].0 == (*a, b);
                    assert(self.entries@[j].0.0 == *a);
                }
            }
        }
        false
    }
}

} // verus!
