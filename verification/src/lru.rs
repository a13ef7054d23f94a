use vstd::prelude::*;

use vstd::std_specs::cmp::PartialEqSpec;

verus! {

/// A bounded key/value container. The capacity is recorded, but no recency
/// ordering is kept and no eviction is performed when it is exceeded: the
/// container simply keeps growing, which is an unmet requirement of a true
/// least-recently-used cache, not a model to copy.
///
/// Every contract below is conditioned on the key type's equality obeying
/// its specification.
#[derive(Debug)]
pub struct LruCache<K, V> {
    capacity: usize,
    entries: Vec<(K, V)>,
}

impl<K: Clone + core::hash::Hash + Eq + PartialEqSpec, V> LruCache<K, V> {
    /// The stored entries, in insertion order.
    pub closed spec fn entries_spec(self) -> Seq<(K, V)> {
        self.entries@
    }

    /// The recorded capacity.
    pub closed spec fn capacity_spec(self) -> usize {
        self.capacity
    }

    /// Whether some entry's key equals `k`.
    pub open spec fn has_key_spec(self, k: K) -> bool {
        exists|i: int|
            0 <= i < self.entries_spec().len() && (#[trigger] self.entries_spec()[i]).0.eq_spec(&k)
    }

    /// An empty container that records `capacity`.
    pub fn new(capacity: usize) -> (r: LruCache<K, V>)
        ensures
            r.capacity_spec() == capacity,
            r.entries_spec().len() == 0,
    {
        LruCache { capacity, entries: Vec::new() }
    }

    /// Borrow the value stored under `key`, if any.
    pub fn get(&mut self, key: &K) -> (r: Option<&V>)
        ensures
            *final(self) == *old(self),
            K::obeys_eq_spec() ==> match r {
                Some(v) => exists|i: int|
                    0 <= i < old(self).entries_spec().len() && (#[trigger] old(
                        self,
                    ).entries_spec()[i]).0.eq_spec(key) && *v == old(self).entries_spec()[i].1,
                None => !old(self).has_key_spec(*key),
            },
    {
        let mut i: usize = 0;
        while i < self.entries.len()
            invariant
                *self == *old(self),
                0 <= i <= self.entries@.len(),
                K::obeys_eq_spec() ==> forall|j: int|
                    0 <= j < i ==> !(#[trigger] self.entries@[j]).0.eq_spec(key),
            decreases self.entries@.len() - i,
        {
            if self.entries[i].0 == *key {
                proof {
                    if K::obeys_eq_spec() {
                        assert((old(self).entries_spec()[i as int]).0.eq_spec(key));
                    }
                }
                return Some(&self.entries[i].1);
            }
            i = i + 1;
        }
        None
    }

    /// Store `value` under `key`: an entry whose key equals it keeps its
    /// key and takes the new value, which returns the old one; otherwise
    /// the pair is appended, whatever the recorded capacity says.
    pub fn put(&mut self, key: K, value: V) -> (r: Option<V>)
        ensures
            final(self).capacity_spec() == old(self).capacity_spec(),
            K::obeys_eq_spec() ==> match r {
                Some(v) => exists|i: int|
                    {
                        &&& 0 <= i < old(self).entries_spec().len()
                        &&& (#[trigger] old(self).entries_spec()[i]).0.eq_spec(&key)
                        &&& v == old(self).entries_spec()[i].1
                        &&& final(self).entries_spec() == old(self).entries_spec().update(
                            i,
                            (old(self).entries_spec()[i].0, value),
                        )
                    },
                None => !old(self).has_key_spec(key) && final(self).entries_spec() == old(
                    self,
                ).entries_spec().push((key, value)),
            },
    {
        let mut i: usize = 0;
        while i < self.entries.len()
            invariant
                *self == *old(self),
                0 <= i <= self.entries@.len(),
                K::obeys_eq_spec() ==> forall|j: int|
                    0 <= j < i ==> !(#[trigger] self.entries@[j]).0.eq_spec(&key),
            decreases self.entries@.len() - i,
        {
            if self.entries[i].0 == key {
                let ghost pre = self.entries@;
                proof {
                    if K::obeys_eq_spec() {
                        assert((old(self).entries_spec()[i as int]).0.eq_spec(&key));
                    }
                }
                let pair = self.entries.remove(i);
                self.entries.insert(i, (pair.0, value));
                proof {
                    if K::obeys_eq_spec() {
                        assert(self.entries@ =~= pre.update(i as int, (pre[i as int].0, value)));
                    }
                }
                return Some(pair.1);
            }
            i = i + 1;
        }
        self.entries.push((key, value));
        None
    }

    /// Remove the entry stored under `key`, returning its value if present.
    pub fn remove(&mut self, key: &K) -> (r: Option<V>)
        ensures
            final(self).capacity_spec() == old(self).capacity_spec(),
            K::obeys_eq_spec() ==> match r {
                Some(v) => exists|i: int|
                    {
                        &&& 0 <= i < old(self).entries_spec().len()
                        &&& (#[trigger] old(self).entries_spec()[i]).0.eq_spec(key)
                        &&& v == old(self).entries_spec()[i].1
                        &&& final(self).entries_spec() == old(self).entries_spec().remove(i)
                    },
                None => !old(self).has_key_spec(*key) && *final(self) == *old(self),
            },
    {
        let mut i: usize = 0;
        while i < self.entries.len()
            invariant
                *self == *old(self),
                0 <= i <= self.entries@.len(),
                K::obeys_eq_spec() ==> forall|j: int|
                    0 <= j < i ==> !(#[trigger] self.entries@[j]).0.eq_spec(key),
            decreases self.entries@.len() - i,
        {
            if self.entries[i].0 == *key {
                proof {
                    if K::obeys_eq_spec() {
                        assert((old(self).entries_spec()[i as int]).0.eq_spec(key));
                    }
                }
                let pair = self.entries.remove(i);
                return Some(pair.1);
            }
            i = i + 1;
        }
        None
    }

    /// How many entries are stored.
    pub fn len(&self) -> (r: usize)
        ensures
            r == self.entries_spec().len(),
    {
        self.entries.len()
    }

    /// Whether nothing is stored.
    pub fn is_empty(&self) -> (r: bool)
        ensures
            r == (self.entries_spec().len() == 0),
    {
        self.entries.is_empty()
    }

    /// Drop every entry.
    pub fn clear(&mut self)
        ensures
            final(self).capacity_spec() == old(self).capacity_spec(),
            final(self).entries_spec().len() == 0,
    {
        self.entries.clear();
    }
}

} // verus!
