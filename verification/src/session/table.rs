//! Small maps whose keys are compound, or that are walked in the order in which keys came.
use crate::net::PeerAddr;
use vstd::prelude::*;

verus! {

/// A key that can be told from others.
pub trait Key: Copy {
    /// Whether two keys are the same.
    fn same(&self, other: &Self) -> (r: bool)
        ensures
            r == (*self == *other),
    ;
}

impl Key for u64 {
    fn same(&self, other: &Self) -> (r: bool) {
        *self == *other
    }
}

/// A torrent and an address.
#[derive(Debug, Clone, Copy, PartialEq, Eq, Structural)]
pub struct PeerKey {
    pub torrent_id: i64,
    pub addr: PeerAddr,
}

impl Key for PeerKey {
    fn same(&self, other: &Self) -> (r: bool) {
        *self == *other
    }
}

/// A map with few entries, which are walked in the order in which their keys came.
#[derive(Debug)]
pub struct Table<K, V> {
    keys: Vec<K>,
    vals: Vec<V>,
}

impl<K, V> View for Table<K, V> {
    type V = Map<K, V>;

    closed spec fn view(&self) -> Map<K, V> {
        Map::new(
            |k: K| self.keys@.contains(k),
            |k: K| self.vals@[self.keys@.index_of(k)],
        )
    }
}

impl<K, V> Table<K, V> {
    /// The keys in the order in which they came.
    pub closed spec fn order(&self) -> Seq<K> {
        self.keys@
    }

    /// One value for each key, and no key twice.
    pub closed spec fn wf(&self) -> bool {
        &&& self.keys@.len() == self.vals@.len()
        &&& self.keys@.no_duplicates()
    }

    /// The keys are those of the map.
    pub proof fn order_is_domain(&self)
        requires
            self.wf(),
        ensures
            self.order().no_duplicates(),
            forall|k: K| #[trigger] self.order().contains(k) == self@.dom().contains(k),
    {
    }

    proof fn value_at(&self, i: int)
        requires
            self.wf(),
            0 <= i < self.keys@.len(),
        ensures
            self@.dom().contains(self.keys@[i]),
            self@[self.keys@[i]] == self.vals@[i],
    {
        assert(self.keys@.contains(self.keys@[i]));
        let j = self.keys@.index_of(self.keys@[i]);
        assert(self.keys@[j] == self.keys@[i]);
    }
}

impl<K: Key, V> Table<K, V> {
    /// No entries.
    pub fn new() -> (t: Table<K, V>)
        ensures
            t.wf(),
            t@ == Map::<K, V>::empty(),
            t.order() == Seq::<K>::empty(),
    {
        let t = Table { keys: Vec::new(), vals: Vec::new() };
        assert(t@ =~= Map::<K, V>::empty());
        t
    }

    /// Number of entries.
    pub fn len(&self) -> (n: usize)
        requires
            self.wf(),
        ensures
            n == self.order().len(),
    {
        self.keys.len()
    }

    fn place(&self, k: K) -> (r: Option<usize>)
        ensures
            match r {
                Some(i) => i < self.keys@.len() && self.keys@[i as int] == k,
                None => !self.keys@.contains(k),
            },
    {
        let mut i: usize = 0;
        while i < self.keys.len()
            invariant
                i <= self.keys@.len(),
                forall|j: int| 0 <= j < i ==> self.keys@[j] != k,
            decreases self.keys@.len() - i,
        {
            if self.keys[i].same(&k) {
                return Some(i);
            }
            i += 1;
        }
        None
    }

    /// Whether there is an entry.
    pub fn contains_key(&self, k: K) -> (r: bool)
        requires
            self.wf(),
        ensures
            r == self@.dom().contains(k),
    {
        self.place(k).is_some()
    }

    /// The entry of a key.
    pub fn get(&self, k: K) -> (r: Option<&V>)
        requires
            self.wf(),
        ensures
            match r {
                Some(v) => self@.dom().contains(k) && *v == self@[k],
                None => !self@.dom().contains(k),
            },
    {
        match self.place(k) {
            Some(i) => {
                proof {
                    self.value_at(i as int);
                }
                Some(&self.vals[i])
            },
            None => None,
        }
    }

    /// The key at a place in the order.
    pub fn key_at(&self, i: usize) -> (k: K)
        requires
            self.wf(),
            i < self.order().len(),
        ensures
            k == self.order()[i as int],
    {
        self.keys[i]
    }

    /// The entry at a place in the order.
    pub fn value(&self, i: usize) -> (v: &V)
        requires
            self.wf(),
            i < self.order().len(),
        ensures
            self@.dom().contains(self.order()[i as int]),
            *v == self@[self.order()[i as int]],
    {
        proof {
            self.value_at(i as int);
        }
        &self.vals[i]
    }

    /// Set the entry of a key. A new key goes to the end.
    pub fn insert(&mut self, k: K, v: V)
        requires
            old(self).wf(),
        ensures
            final(self).wf(),
            final(self)@ == old(self)@.insert(k, v),
            final(self).order() == if old(self)@.dom().contains(k) {
                old(self).order()
            } else {
                old(self).order().push(k)
            },
    {
        let ghost before = *self;
        match self.place(k) {
            Some(i) => {
                self.vals.set(i, v);
                proof {
                    assert forall|q: K| self@.dom().contains(q) implies self@[q] == before@.insert(
                        k,
                        v,
                    )[q] by {
                        let j = self.keys@.index_of(q);
                        before.value_at(j);
                        self.value_at(j);
                        if q == k {
                            assert(j == i);
                        }
                    }
                    assert(self@ =~= before@.insert(k, v));
                }
            },
            None => {
                self.keys.push(k);
                self.vals.push(v);
                proof {
                    assert forall|q: K| #[trigger] self.keys@.contains(q) == (before.keys@.contains(
                        q,
                    ) || q == k) by {
                        if before.keys@.contains(q) {
                            let j = before.keys@.index_of(q);
                            assert(self.keys@[j] == q);
                        }
                        if q == k {
                            assert(self.keys@[before.keys@.len() as int] == q);
                        }
                        if self.keys@.contains(q) && q != k {
                            let j = self.keys@.index_of(q);
                            assert(before.keys@[j] == q);
                        }
                    }
                    assert forall|q: K| self@.dom().contains(q) implies self@[q] == before@.insert(
                        k,
                        v,
                    )[q] by {
                        let j = self.keys@.index_of(q);
                        self.value_at(j);
                        if q != k {
                            assert(before.keys@[j] == q);
                            before.value_at(j);
                        } else {
                            assert(self.keys@[before.keys@.len() as int] == k);
                            self.value_at(before.keys@.len() as int);
                        }
                    }
                    assert(self@ =~= before@.insert(k, v));
                }
            },
        }
    }

    /// Drop the entry of a key. False where there is none.
    pub fn remove(&mut self, k: K) -> (r: bool)
        requires
            old(self).wf(),
        ensures
            final(self).wf(),
            r == old(self)@.dom().contains(k),
            final(self)@ == old(self)@.remove(k),
    {
        self.take(k).is_some()
    }

    /// Take the entry of a key out.
    fn take(&mut self, k: K) -> (r: Option<V>)
        requires
            old(self).wf(),
        ensures
            final(self).wf(),
            match r {
                Some(v) => old(self)@.dom().contains(k) && v == old(self)@[k],
                None => !old(self)@.dom().contains(k),
            },
            final(self)@ == old(self)@.remove(k),
    {
        let ghost before = *self;
        match self.place(k) {
            Some(i) => {
                let key: K = self.keys.remove(i);
                let val: V = self.vals.remove(i);
                proof {
                    before.value_at(i as int);
                    let ks = before.keys@;
                    assert forall|q: K| #[trigger] self.keys@.contains(q) == (ks.contains(q) && q
                        != k) by {
                        if ks.contains(q) && q != k {
                            let j = ks.index_of(q);
                            if j < i {
                                assert(self.keys@[j] == q);
                            } else {
                                assert(self.keys@[j - 1] == q);
                            }
                        }
                        if self.keys@.contains(q) {
                            let j = self.keys@.index_of(q);
                            if j < i {
                                assert(ks[j] == q);
                            } else {
                                assert(ks[j + 1] == q);
                            }
                        }
                    }
                    assert forall|q: K| self@.dom().contains(q) implies self@[q] == before@.remove(
                        k,
                    )[q] by {
                        let j = self.keys@.index_of(q);
                        self.value_at(j);
                        if j < i {
                            before.value_at(j);
                        } else {
                            before.value_at(j + 1);
                        }
                    }
                    assert(self@ =~= before@.remove(k));
                }
                Some(val)
            },
            None => {
                assert(self@.remove(k) =~= self@);
                None
            },
        }
    }
}

} // verus!
