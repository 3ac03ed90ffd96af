//! A small map kept as a vector of key/value pairs.
//!
//! Keys are compared with an equality that Verus can see through, so every
//! operation here has a contract over the map's mathematical view.  The pairs
//! keep the order in which their keys were first inserted, which is the order
//! in which the scheduler walks them.
use vstd::prelude::*;

verus! {

broadcast use vstd::seq_lib::group_seq_properties;

/// A key whose executable equality is exactly mathematical equality.
pub trait MapKey: Copy + Sized {
    fn key_eq(&self, other: &Self) -> (same: bool)
        ensures
            same == (*self == *other),
    ;
}

impl MapKey for u64 {
    fn key_eq(&self, other: &Self) -> (same: bool) {
        *self == *other
    }
}

/// A finite map from `K` to `V`, stored as pairs with pairwise distinct keys.
pub struct VecMap<K, V> {
    entries: Vec<(K, V)>,
}

impl<K, V> VecMap<K, V> {
    /// The stored pairs, in order.
    pub closed spec fn pairs(self) -> Seq<(K, V)> {
        self.entries@
    }

    /// Number of stored pairs (the number of keys, when `wf` holds).
    pub open spec fn len_spec(self) -> nat {
        self.pairs().len()
    }

    /// The keys, in the order of the pairs.
    pub open spec fn keys(self) -> Seq<K> {
        self.pairs().map_values(|e: (K, V)| e.0)
    }

    /// No key occurs twice.
    pub open spec fn wf(self) -> bool {
        forall|i: int, j: int|
            0 <= i < self.pairs().len() && 0 <= j < self.pairs().len() && i != j
                ==> #[trigger] self.pairs()[i].0 != #[trigger] self.pairs()[j].0
    }

    pub open spec fn has(self, k: K) -> bool {
        exists|i: int| 0 <= i < self.pairs().len() && #[trigger] self.pairs()[i].0 == k
    }

    pub open spec fn index_of(self, k: K) -> int {
        choose|i: int| 0 <= i < self.pairs().len() && #[trigger] self.pairs()[i].0 == k
    }

    /// The pair at index `i` is what the map gives for its key.
    pub proof fn lemma_at(self, i: int)
        requires
            self.wf(),
            0 <= i < self.pairs().len(),
        ensures
            self@.contains_key(self.pairs()[i].0),
            self@[self.pairs()[i].0] == self.pairs()[i].1,
            self.index_of(self.pairs()[i].0) == i,
    {
        let k = self.pairs()[i].0;
        assert(self.has(k));
        let j = self.index_of(k);
        assert(self.pairs()[j].0 == k);
    }

    /// A key of the map sits at `index_of`.
    pub proof fn lemma_index(self, k: K)
        requires
            self.wf(),
            self@.contains_key(k),
        ensures
            0 <= self.index_of(k) < self.pairs().len(),
            self.pairs()[self.index_of(k)].0 == k,
            self.pairs()[self.index_of(k)].1 == self@[k],
    {
    }

    /// A map whose pairs are a prefix of another's holds a part of it.
    pub proof fn lemma_prefix_submap(self, other: Self, n: int)
        requires
            other.wf(),
            0 <= n <= other.pairs().len(),
            self.pairs() == other.pairs().take(n),
        ensures
            self.wf(),
            forall|k: K| #[trigger] self@.contains_key(k) ==> other@.contains_key(k) && self@[k] == other@[k],
    {
        assert forall|k: K| #[trigger] self@.contains_key(k) implies other@.contains_key(k) && self@[k]
            == other@[k] by {
            let i = self.index_of(k);
            assert(self.pairs()[i] == other.pairs()[i]);
            assert(self.wf());
            self.lemma_at(i);
            other.lemma_at(i);
        }
    }

    pub fn new() -> (m: Self)
        ensures
            m.wf(),
            m.pairs() == Seq::<(K, V)>::empty(),
            m@ == Map::<K, V>::empty(),
    {
        let m = VecMap { entries: Vec::new() };
        assert(m@ =~= Map::<K, V>::empty());
        m
    }

    pub fn len(&self) -> (n: usize)
        ensures
            n == self.len_spec(),
    {
        self.entries.len()
    }

    pub fn is_empty(&self) -> (b: bool)
        requires
            self.wf(),
        ensures
            b == (self.len_spec() == 0),
            b == (self@ == Map::<K, V>::empty()),
    {
        if self.entries.len() == 0 {
            assert(self@ =~= Map::<K, V>::empty());
            true
        } else {
            proof {
                self.lemma_at(0);
            }
            assert(self@.contains_key(self.pairs()[0].0));
            false
        }
    }

    pub fn key_at(&self, i: usize) -> (k: K)
        where K: Copy
        requires
            i < self.len_spec(),
        ensures
            k == self.pairs()[i as int].0,
    {
        self.entries[i].0
    }

    pub fn value_at(&self, i: usize) -> (v: &V)
        requires
            i < self.len_spec(),
        ensures
            *v == self.pairs()[i as int].1,
    {
        &self.entries[i].1
    }

    /// Mutable access to the value at index `i`; the key stays.
    pub fn value_at_mut(&mut self, i: usize) -> (v: &mut V)
        requires
            i < old(self).len_spec(),
        ensures
            *v == old(self).pairs()[i as int].1,
            final(self).pairs() == old(self).pairs().update(
                i as int,
                (old(self).pairs()[i as int].0, *final(v)),
            ),
            old(self).wf() ==> final(self).wf() && final(self)@ == old(self)@.insert(
                old(self).pairs()[i as int].0,
                *final(v),
            ) && final(self).keys() == old(self).keys(),
    {
        proof {
            if self.wf() {
                lemma_update_value(*self, i as int);
            }
        }
        &mut self.entries[i].1
    }

    /// Removes the pair at index `i`, keeping the order of the others.
    pub fn remove_at(&mut self, i: usize) -> (e: (K, V))
        requires
            old(self).wf(),
            i < old(self).len_spec(),
        ensures
            e == old(self).pairs()[i as int],
            final(self).pairs() == old(self).pairs().remove(i as int),
            final(self).wf(),
            final(self)@ == old(self)@.remove(e.0),
    {
        let ghost old_m = *self;
        let e = self.entries.remove(i);
        proof {
            old_m.lemma_at(i as int);
            assert forall|k: K| #[trigger] self@.contains_key(k) == old_m@.remove(e.0).contains_key(k) by {
                if self.has(k) {
                    let j = choose|j: int| 0 <= j < self.pairs().len() && #[trigger] self.pairs()[j].0 == k;
                    if j < i {
                        assert(old_m.pairs()[j].0 == k);
                    } else {
                        assert(old_m.pairs()[j + 1].0 == k);
                    }
                }
                if old_m.has(k) && k != e.0 {
                    let j = choose|j: int| 0 <= j < old_m.pairs().len() && #[trigger] old_m.pairs()[j].0 == k;
                    if j < i {
                        assert(self.pairs()[j].0 == k);
                    } else {
                        assert(self.pairs()[j - 1].0 == k);
                    }
                }
            }
            assert forall|k: K| #[trigger] self@.contains_key(k) implies self@[k] == old_m@[k] by {
                let j = self.index_of(k);
                self.lemma_at(j);
                if j < i {
                    old_m.lemma_at(j);
                } else {
                    old_m.lemma_at(j + 1);
                }
            }
            assert(self@ =~= old_m@.remove(e.0));
        }
        e
    }

    /// Removes the last pair, if any.
    pub fn pop(&mut self) -> (e: Option<(K, V)>)
        requires
            old(self).wf(),
        ensures
            final(self).wf(),
            old(self).len_spec() == 0 ==> e is None && *final(self) == *old(self),
            old(self).len_spec() > 0 ==> e == Some(old(self).pairs().last()) && final(self).pairs()
                == old(self).pairs().drop_last() && final(self)@ == old(self)@.remove(old(self).pairs().last().0),
    {
        if self.entries.len() == 0 {
            None
        } else {
            let n = self.entries.len() - 1;
            let e = self.remove_at(n);
            assert(old(self).pairs().remove(n as int) =~= old(self).pairs().drop_last());
            Some(e)
        }
    }
}

impl<K: MapKey, V> VecMap<K, V> {
    /// The index of `k`, if it is a key.
    pub fn find(&self, k: &K) -> (r: Option<usize>)
        requires
            self.wf(),
        ensures
            r is None ==> !self@.contains_key(*k),
            r matches Some(i) ==> i < self.len_spec() && self.pairs()[i as int].0 == *k && i
                == self.index_of(*k) && self@.contains_key(*k),
    {
        let n = self.entries.len();
        let mut i: usize = 0;
        while i < n
            invariant
                n == self.len_spec(),
                self.wf(),
                i <= n,
                forall|j: int| 0 <= j < i ==> #[trigger] self.pairs()[j].0 != *k,
            decreases n - i,
        {
            if self.entries[i].0.key_eq(k) {
                proof {
                    self.lemma_at(i as int);
                }
                return Some(i);
            }
            i = i + 1;
        }
        None
    }

    pub fn contains_key(&self, k: &K) -> (b: bool)
        requires
            self.wf(),
        ensures
            b == self@.contains_key(*k),
    {
        self.find(k).is_some()
    }

    pub fn get(&self, k: &K) -> (r: Option<&V>)
        requires
            self.wf(),
        ensures
            r is None ==> !self@.contains_key(*k),
            r matches Some(v) ==> self@.contains_key(*k) && *v == self@[*k],
    {
        match self.find(k) {
            Some(i) => {
                proof {
                    self.lemma_at(i as int);
                }
                Some(&self.entries[i].1)
            },
            None => None,
        }
    }

    /// Mutable access to the value of a key that is present.
    pub fn get_mut(&mut self, k: &K) -> (v: &mut V)
        requires
            old(self).wf(),
            old(self)@.contains_key(*k),
        ensures
            *v == old(self)@[*k],
            final(self).wf(),
            final(self)@ == old(self)@.insert(*k, *final(v)),
            final(self).keys() == old(self).keys(),
            final(self).pairs() == old(self).pairs().update(old(self).index_of(*k), (*k, *final(v))),
    {
        let ghost old_m = *self;
        let i = match self.find(k) {
            Some(i) => i,
            None => vstd::pervasive::unreached(),
        };
        proof {
            old_m.lemma_at(i as int);
        }
        proof {
            lemma_update_value(old_m, i as int);
        }
        self.value_at_mut(i)
    }

    /// Inserts or replaces the value of `k`; a new key goes to the end.
    pub fn insert(&mut self, k: K, v: V) -> (r: Option<V>)
        requires
            old(self).wf(),
        ensures
            final(self).wf(),
            final(self)@ == old(self)@.insert(k, v),
            r is None ==> !old(self)@.contains_key(k) && final(self).pairs() == old(self).pairs().push(
                (k, v),
            ),
            r matches Some(o) ==> old(self)@.contains_key(k) && o == old(self)@[k]
                && final(self).keys() == old(self).keys(),
    {
        let ghost old_m = *self;
        match self.find(&k) {
            Some(i) => {
                proof {
                    old_m.lemma_at(i as int);
                }
                let slot = self.value_at_mut(i);
                let mut o = v;
                std::mem::swap(slot, &mut o);
                proof {
                    lemma_update_value(old_m, i as int);
                    assert(self.pairs() == old_m.pairs().update(i as int, (k, self.pairs()[i as int].1)));
                }
                Some(o)
            },
            None => {
                self.entries.push((k, v));
                proof {
                    let n = old_m.pairs().len() as int;
                    assert forall|i: int, j: int|
                        0 <= i < self.pairs().len() && 0 <= j < self.pairs().len() && i != j
                            implies #[trigger] self.pairs()[i].0 != #[trigger] self.pairs()[j].0 by {
                        if i < n && j < n {
                            assert(old_m.pairs()[i].0 != old_m.pairs()[j].0);
                        } else if i == n {
                            assert(old_m.pairs()[j].0 != k);
                        } else {
                            assert(old_m.pairs()[i].0 != k);
                        }
                    }
                    assert forall|key: K| #[trigger] self@.contains_key(key) == old_m@.insert(k, v).contains_key(key) by {
                        if self.has(key) && key != k {
                            let j = choose|j: int| 0 <= j < self.pairs().len() && #[trigger] self.pairs()[j].0 == key;
                            assert(old_m.pairs()[j].0 == key);
                        }
                        if old_m.has(key) {
                            let j = choose|j: int| 0 <= j < old_m.pairs().len() && #[trigger] old_m.pairs()[j].0 == key;
                            assert(self.pairs()[j].0 == key);
                        }
                        if key == k {
                            assert(self.pairs()[n].0 == k);
                        }
                    }
                    assert forall|key: K| #[trigger] self@.contains_key(key) implies self@[key] == old_m@.insert(k, v)[key] by {
                        let j = self.index_of(key);
                        self.lemma_at(j);
                        if j < n {
                            old_m.lemma_at(j);
                        }
                    }
                    assert(self@ =~= old_m@.insert(k, v));
                }
                None
            },
        }
    }

    /// Removes `k`, keeping the order of the other pairs.
    pub fn remove(&mut self, k: &K) -> (r: Option<V>)
        requires
            old(self).wf(),
        ensures
            final(self).wf(),
            final(self)@ == old(self)@.remove(*k),
            r is None ==> !old(self)@.contains_key(*k) && *final(self) == *old(self),
            r matches Some(v) ==> old(self)@.contains_key(*k) && v == old(self)@[*k],
    {
        match self.find(k) {
            Some(i) => {
                proof {
                    self.lemma_at(i as int);
                }
                let e = self.remove_at(i);
                Some(e.1)
            },
            None => {
                assert(self@ =~= self@.remove(*k));
                None
            },
        }
    }
}

/// Replacing the value at index `i` replaces the value of that key, and nothing else.
proof fn lemma_update_value<K, V>(m: VecMap<K, V>, i: int)
    requires
        m.wf(),
        0 <= i < m.pairs().len(),
    ensures
        forall|m2: VecMap<K, V>|
            #[trigger] m2.pairs() == m.pairs().update(i, (m.pairs()[i].0, m2.pairs()[i].1)) ==> {
                &&& m2.wf()
                &&& m2@ == m@.insert(m.pairs()[i].0, m2.pairs()[i].1)
                &&& m2.keys() == m.keys()
            },
{
    let k = m.pairs()[i].0;
    assert forall|m2: VecMap<K, V>|
        #[trigger] m2.pairs() == m.pairs().update(i, (k, m2.pairs()[i].1)) implies {
            &&& m2.wf()
            &&& m2@ == m@.insert(k, m2.pairs()[i].1)
            &&& m2.keys() == m.keys()
        } by {
        let v = m2.pairs()[i].1;
        let p = m2.pairs();
        assert forall|a: int, b: int| 0 <= a < p.len() && 0 <= b < p.len() && a != b implies #[trigger] p[a].0
            != #[trigger] p[b].0 by {
            assert(m.pairs()[a].0 != m.pairs()[b].0);
        }
        assert forall|key: K| #[trigger] m2@.contains_key(key) == m@.insert(k, v).contains_key(key) by {
            if m.has(key) {
                let j = choose|j: int| 0 <= j < m.pairs().len() && #[trigger] m.pairs()[j].0 == key;
                assert(p[j].0 == key);
            }
            if m2.has(key) {
                let j = choose|j: int| 0 <= j < p.len() && #[trigger] p[j].0 == key;
                assert(m.pairs()[j].0 == key);
            }
            if key == k {
                assert(p[i].0 == k);
            }
        }
        assert forall|key: K| #[trigger] m2@.contains_key(key) implies m2@[key] == m@.insert(k, v)[key] by {
            let j = m2.index_of(key);
            m2.lemma_at(j);
            assert(m.pairs()[j].0 == key);
            m.lemma_at(j);
        }
        assert(m2@ =~= m@.insert(k, v));
        assert(m2.keys() =~= m.keys());
    }
}

impl<K, V> View for VecMap<K, V> {
    type V = Map<K, V>;

    open spec fn view(&self) -> Map<K, V> {
        Map::new(|k: K| self.has(k), |k: K| self.pairs()[self.index_of(k)].1)
    }
}

} // verus!
