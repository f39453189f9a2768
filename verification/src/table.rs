//! A small keyed table: at most one value per key, held in insertion order.
//! The ledger keeps every one of its maps in such a table.
use vstd::prelude::*;

verus! {

/// A key of a [`Table`]: two keys are the same key when their views are equal.
pub trait Key: View + Sized {
    /// Tests whether two keys are the same key.
    fn same(&self, other: &Self) -> (b: bool)
        ensures
            b == (self@ == other@),
    ;
}

impl Key for u64 {
    fn same(&self, other: &Self) -> (b: bool) {
        *self == *other
    }
}

impl Key for String {
    fn same(&self, other: &Self) -> (b: bool) {
        *self == *other
    }
}

/// A finite map from keys to values. Its view is the map from the keys' views
/// to the values' views.
#[derive(Debug, PartialEq, Eq)]
pub struct Table<K, V> {
    keys: Vec<K>,
    values: Vec<V>,
}

impl<K: Key, V: View> View for Table<K, V> {
    type V = Map<K::V, V::V>;

    closed spec fn view(&self) -> Map<K::V, V::V> {
        Map::new(
            |k: K::V| exists|i: int| self.holds(i, k),
            |k: K::V| self.values[choose|i: int| self.holds(i, k)]@,
        )
    }
}

impl<K: Key, V: View> Table<K, V> {
    /// Slot `i` is in use and holds key `k`.
    pub closed spec fn holds(&self, i: int, k: K::V) -> bool {
        0 <= i < self.keys.len() && self.keys[i]@ == k
    }

    /// No key occupies two slots.
    pub closed spec fn wf(&self) -> bool {
        &&& self.keys.len() == self.values.len()
        &&& forall|i: int, j: int|
            0 <= i < j < self.keys.len() ==> self.keys[i]@ != self.keys[j]@
    }

    /// The number of slots in use.
    pub closed spec fn slots(&self) -> nat {
        self.keys.len() as nat
    }

    /// The key in slot `i`.
    pub closed spec fn slot_key(&self, i: int) -> K::V {
        self.keys[i]@
    }

    /// In a well-formed table every slot's key is in the map, and a key that
    /// is in the map sits in some slot.
    pub proof fn lemma_slots(&self)
        requires
            self.wf(),
        ensures
            forall|i: int| 0 <= i < self.slots() ==> self@.contains_key(#[trigger] self.slot_key(i)),
            forall|i: int, j: int|
                0 <= i < j < self.slots() ==> self.slot_key(i) != self.slot_key(j),
            forall|k: K::V|
                self@.contains_key(k) ==> exists|i: int|
                    0 <= i < self.slots() && #[trigger] self.slot_key(i) == k,
    {
        assert forall|i: int| 0 <= i < self.slots() implies self@.contains_key(
            #[trigger] self.slot_key(i),
        ) by {
            assert(self.holds(i, self.slot_key(i)));
        }
        assert forall|k: K::V| self@.contains_key(k) implies exists|i: int|
            0 <= i < self.slots() && #[trigger] self.slot_key(i) == k by {
            let i = choose|i: int| self.holds(i, k);
            assert(self.slot_key(i) == k);
        }
    }

    proof fn lemma_value(&self, i: int)
        requires
            self.wf(),
            0 <= i < self.keys.len(),
        ensures
            self@.contains_key(self.keys[i]@),
            self@[self.keys[i]@] == self.values[i]@,
    {
        let k = self.keys[i]@;
        assert(self.holds(i, k));
        let j = choose|j: int| self.holds(j, k);
        assert(j == i);
    }

    /// An empty table.
    pub fn new() -> (t: Self)
        ensures
            t.wf(),
            t@ == Map::<K::V, V::V>::empty(),
    {
        let t = Table { keys: Vec::new(), values: Vec::new() };
        assert(t@ =~= Map::<K::V, V::V>::empty());
        t
    }

    fn find(&self, k: &K) -> (r: Option<usize>)
        requires
            self.wf(),
        ensures
            match r {
                Some(i) => self.holds(i as int, k@),
                None => forall|i: int| !self.holds(i, k@),
            },
    {
        let mut i: usize = 0;
        while i < self.keys.len()
            invariant
                i <= self.keys.len(),
                forall|j: int| 0 <= j < i ==> self.keys[j]@ != k@,
            decreases self.keys.len() - i,
        {
            if self.keys[i].same(k) {
                return Some(i);
            }
            i += 1;
        }
        None
    }

    /// Whether `k` has a value.
    pub fn contains_key(&self, k: &K) -> (b: bool)
        requires
            self.wf(),
        ensures
            b == self@.contains_key(k@),
    {
        match self.find(k) {
            Some(_) => true,
            None => false,
        }
    }

    /// The value of `k`, if it has one.
    pub fn get(&self, k: &K) -> (r: Option<&V>)
        requires
            self.wf(),
        ensures
            match r {
                Some(v) => self@.contains_key(k@) && self@[k@] == v@,
                None => !self@.contains_key(k@),
            },
    {
        match self.find(k) {
            Some(i) => {
                proof {
                    self.lemma_value(i as int);
                }
                Some(&self.values[i])
            },
            None => None,
        }
    }

    /// Gives `k` the value `v`, in place of the one it had, if any.
    pub fn insert(&mut self, k: K, v: V)
        requires
            old(self).wf(),
        ensures
            final(self).wf(),
            final(self)@ == old(self)@.insert(k@, v@),
    {
        let ghost pre = *self;
        match self.find(&k) {
            Some(i) => {
                self.values.set(i, v);
                proof {
                    let post = *self;
                    assert forall|q: K::V, j: int| post.holds(j, q) == pre.holds(j, q) by {}
                    assert forall|q: K::V| post@.contains_key(q) implies #[trigger] post@[q]
                        == pre@.insert(k@, v@)[q] by {
                        let j = choose|j: int| post.holds(j, q);
                        post.lemma_value(j);
                        pre.lemma_value(j);
                    }
                    assert(pre.holds(i as int, k@));
                    assert(post@ =~= pre@.insert(k@, v@));
                }
            },
            None => {
                self.keys.push(k);
                self.values.push(v);
                proof {
                    let post = *self;
                    let n = pre.keys.len() as int;
                    assert forall|i: int, j: int| 0 <= i < j < post.keys.len() implies post.keys[i]@
                        != post.keys[j]@ by {
                        if j == n {
                            assert(!pre.holds(i, k@));
                        }
                    }
                    assert(post.wf());
                    assert(post.holds(n, k@));
                    assert forall|q: K::V, j: int| pre.holds(j, q) implies post.holds(j, q) by {}
                    assert forall|q: K::V, j: int| post.holds(j, q) && j != n implies pre.holds(
                        j,
                        q,
                    ) by {}
                    assert forall|q: K::V| post@.contains_key(q) implies #[trigger] post@[q]
                        == pre@.insert(k@, v@)[q] by {
                        let j = choose|j: int| post.holds(j, q);
                        post.lemma_value(j);
                        if j != n {
                            pre.lemma_value(j);
                        }
                    }
                    assert forall|q: K::V| post@.contains_key(q) <==> pre@.insert(
                        k@,
                        v@,
                    ).contains_key(q) by {
                        if post@.contains_key(q) {
                            let j = choose|j: int| post.holds(j, q);
                            if j != n {
                                assert(pre.holds(j, q));
                            }
                        }
                        if pre@.contains_key(q) {
                            let j = choose|j: int| pre.holds(j, q);
                            assert(post.holds(j, q));
                        }
                    }
                    assert(post@ =~= pre@.insert(k@, v@));
                }
            },
        }
    }

    /// Takes away `k` and its value, if it has one.
    pub fn remove(&mut self, k: &K)
        requires
            old(self).wf(),
        ensures
            final(self).wf(),
            final(self)@ == old(self)@.remove(k@),
    {
        let ghost pre = *self;
        match self.find(k) {
            Some(i) => {
                self.keys.remove(i);
                self.values.remove(i);
                proof {
                    let post = *self;
                    let n = i as int;
                    assert forall|q: K::V, j: int| post.holds(j, q) implies pre.holds(
                        if j < n {
                            j
                        } else {
                            j + 1
                        },
                        q,
                    ) by {}
                    assert forall|q: K::V, j: int| pre.holds(j, q) && j != n implies post.holds(
                        if j < n {
                            j
                        } else {
                            j - 1
                        },
                        q,
                    ) by {}
                    assert forall|q: K::V| post@.contains_key(q) <==> pre@.remove(k@).contains_key(
                        q,
                    ) by {
                        if post@.contains_key(q) {
                            let j = choose|j: int| post.holds(j, q);
                            let j0 = if j < n {
                                j
                            } else {
                                j + 1
                            };
                            assert(pre.holds(j0, q));
                        }
                        if pre@.contains_key(q) && q != k@ {
                            let j = choose|j: int| pre.holds(j, q);
                            let j1 = if j < n {
                                j
                            } else {
                                j - 1
                            };
                            assert(post.holds(j1, q));
                        }
                    }
                    assert forall|q: K::V| post@.contains_key(q) implies #[trigger] post@[q]
                        == pre@.remove(k@)[q] by {
                        let j = choose|j: int| post.holds(j, q);
                        let j0 = if j < n {
                            j
                        } else {
                            j + 1
                        };
                        post.lemma_value(j);
                        pre.lemma_value(j0);
                    }
                    assert(post@ =~= pre@.remove(k@));
                }
            },
            None => {
                assert(pre@ =~= pre@.remove(k@));
            },
        }
    }

    /// The number of keys.
    pub fn len(&self) -> (n: usize)
        requires
            self.wf(),
        ensures
            n == self.slots(),
    {
        self.keys.len()
    }

    /// The key in slot `i`.
    pub fn key_at(&self, i: usize) -> (k: &K)
        requires
            self.wf(),
            i < self.slots(),
        ensures
            k@ == self.slot_key(i as int),
            self@.contains_key(k@),
    {
        proof {
            self.lemma_value(i as int);
        }
        &self.keys[i]
    }

    /// The value in slot `i`.
    pub fn value_at(&self, i: usize) -> (v: &V)
        requires
            self.wf(),
            i < self.slots(),
        ensures
            self@.contains_key(self.slot_key(i as int)),
            v@ == self@[self.slot_key(i as int)],
    {
        proof {
            self.lemma_value(i as int);
        }
        &self.values[i]
    }
}

} // verus!
