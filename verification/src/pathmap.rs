//! A map keyed by virtual paths, kept as two vectors in step: no path occurs
//! twice among the keys.

use crate::path::{PathView, VirtualPath};
use vstd::prelude::*;

verus! {

/// The paths that a vector of keys holds.
pub open spec fn key_views(keys: Seq<VirtualPath>) -> Seq<PathView> {
    Seq::new(keys.len(), |i: int| keys[i]@)
}

/// No key occurs twice.
pub open spec fn distinct(keys: Seq<PathView>) -> bool {
    forall|i: int, j: int| 0 <= i < j < keys.len() ==> keys[i] != keys[j]
}

/// A slot that holds `k`, where one does.
pub open spec fn slot(keys: Seq<PathView>, k: PathView) -> int {
    choose|i: int| 0 <= i < keys.len() && keys[i] == k
}

/// The map that sends each key to the value in its slot.
pub open spec fn assoc<V>(keys: Seq<PathView>, vals: Seq<V>) -> Map<PathView, V> {
    Map::new(|k: PathView| keys.contains(k), |k: PathView| vals[slot(keys, k)])
}

proof fn lemma_slot(keys: Seq<PathView>, i: int)
    requires
        distinct(keys),
        0 <= i < keys.len(),
    ensures
        keys.contains(keys[i]),
        slot(keys, keys[i]) == i,
{
    let k = keys[i];
    let c = slot(keys, k);
    assert(0 <= c < keys.len() && keys[c] == k);
    if c < i {
        assert(keys[c] != keys[i]);
    } else if i < c {
        assert(keys[i] != keys[c]);
    }
}

proof fn lemma_assoc_push<V>(keys: Seq<PathView>, vals: Seq<V>, k: PathView, v: V)
    requires
        distinct(keys),
        keys.len() == vals.len(),
        !keys.contains(k),
    ensures
        distinct(keys.push(k)),
        assoc(keys.push(k), vals.push(v)) == assoc(keys, vals).insert(k, v),
{
    let keys2 = keys.push(k);
    let vals2 = vals.push(v);
    assert forall|i: int, j: int| 0 <= i < j < keys2.len() implies keys2[i] != keys2[j] by {
        if j == keys.len() {
            assert(keys[i] == keys2[i]);
            assert(keys.contains(keys[i]));
        }
    }
    assert forall|x: PathView| #[trigger]
        assoc(keys2, vals2).dom().contains(x) == assoc(keys, vals).insert(k, v).dom().contains(
            x,
        ) && (assoc(keys2, vals2).dom().contains(x) ==> assoc(keys2, vals2)[x] == assoc(
            keys,
            vals,
        ).insert(k, v)[x]) by {
        if x == k {
            assert(keys2[keys.len() as int] == k);
            lemma_slot(keys2, keys.len() as int);
        } else if keys.contains(x) {
            let i = slot(keys, x);
            lemma_slot(keys, i);
            assert(keys2[i] == x);
            lemma_slot(keys2, i);
        } else {
            if keys2.contains(x) {
                let i = slot(keys2, x);
                assert(keys[i] == x);
            }
        }
    }
    assert(assoc(keys2, vals2) =~= assoc(keys, vals).insert(k, v));
}

proof fn lemma_assoc_update<V>(keys: Seq<PathView>, vals: Seq<V>, i: int, v: V)
    requires
        distinct(keys),
        keys.len() == vals.len(),
        0 <= i < keys.len(),
    ensures
        assoc(keys, vals.update(i, v)) == assoc(keys, vals).insert(keys[i], v),
{
    let vals2 = vals.update(i, v);
    lemma_slot(keys, i);
    assert forall|x: PathView| #[trigger]
        assoc(keys, vals2).dom().contains(x) == assoc(keys, vals).insert(keys[i], v).dom().contains(
            x,
        ) && (assoc(keys, vals2).dom().contains(x) ==> assoc(keys, vals2)[x] == assoc(
            keys,
            vals,
        ).insert(keys[i], v)[x]) by {
        if keys.contains(x) && x != keys[i] {
            let j = slot(keys, x);
            lemma_slot(keys, j);
        }
    }
    assert(assoc(keys, vals2) =~= assoc(keys, vals).insert(keys[i], v));
}

proof fn lemma_assoc_remove<V>(keys: Seq<PathView>, vals: Seq<V>, i: int)
    requires
        distinct(keys),
        keys.len() == vals.len(),
        0 <= i < keys.len(),
    ensures
        distinct(keys.remove(i)),
        assoc(keys.remove(i), vals.remove(i)) == assoc(keys, vals).remove(keys[i]),
{
    let keys2 = keys.remove(i);
    let vals2 = vals.remove(i);
    assert forall|a: int, b: int| 0 <= a < b < keys2.len() implies keys2[a] != keys2[b] by {
        let a0 = if a < i { a } else { a + 1 };
        let b0 = if b < i { b } else { b + 1 };
        assert(keys[a0] != keys[b0]);
    }
    assert forall|x: PathView| #[trigger]
        assoc(keys2, vals2).dom().contains(x) == assoc(keys, vals).remove(keys[i]).dom().contains(
            x,
        ) && (assoc(keys2, vals2).dom().contains(x) ==> assoc(keys2, vals2)[x] == assoc(
            keys,
            vals,
        ).remove(keys[i])[x]) by {
        if keys2.contains(x) {
            let j = slot(keys2, x);
            let j0 = if j < i { j } else { j + 1 };
            assert(keys[j0] == x);
            lemma_slot(keys, j0);
            lemma_slot(keys2, j);
            if j0 < i {
                assert(keys[j0] != keys[i]);
            } else {
                assert(keys[i] != keys[j0]);
            }
        } else if keys.contains(x) && x != keys[i] {
            let j0 = slot(keys, x);
            let j = if j0 < i { j0 } else { j0 - 1 };
            assert(keys2[j] == x);
        }
    }
    assert(assoc(keys2, vals2) =~= assoc(keys, vals).remove(keys[i]));
}

/// A finite map from virtual paths to values.
pub struct PathMap<V> {
    keys: Vec<VirtualPath>,
    vals: Vec<V>,
}

impl<V> View for PathMap<V> {
    type V = Map<PathView, V>;

    closed spec fn view(&self) -> Map<PathView, V> {
        assoc(key_views(self.keys@), self.vals@)
    }
}

impl<V> PathMap<V> {
    /// The two vectors are in step and no key occurs twice.
    pub closed spec fn wf(&self) -> bool {
        &&& self.keys.len() == self.vals.len()
        &&& distinct(key_views(self.keys@))
    }

    /// The values in the order in which the map stores them.
    pub closed spec fn values(&self) -> Seq<V> {
        self.vals@
    }

    /// The map holds no more values than a machine can count.
    pub proof fn lemma_count_fits(&self)
        ensures
            self.values().len() <= usize::MAX,
    {
        assert(self.vals@.len() == self.vals.len());
    }

    /// The empty map.
    pub fn new() -> (m: PathMap<V>)
        ensures
            m.wf(),
            m@ == Map::<PathView, V>::empty(),
            m.values() == Seq::<V>::empty(),
    {
        let m = PathMap { keys: Vec::new(), vals: Vec::new() };
        proof {
            assert(m@ =~= Map::<PathView, V>::empty());
            assert(m.values() =~= Seq::<V>::empty());
        }
        m
    }

    fn position(&self, key: &VirtualPath) -> (found: Option<usize>)
        requires
            self.wf(),
        ensures
            match found {
                Some(i) => i < self.keys.len() && key_views(self.keys@)[i as int] == key@,
                None => !key_views(self.keys@).contains(key@),
            },
    {
        let mut i: usize = 0;
        while i < self.keys.len()
            invariant
                i <= self.keys.len(),
                forall|k: int| 0 <= k < i ==> key_views(self.keys@)[k] != key@,
            decreases self.keys.len() - i,
        {
            if self.keys[i].same_as(key) {
                return Some(i);
            }
            i += 1;
        }
        None
    }

    /// Whether the map has a value for `key`.
    pub fn contains_key(&self, key: &VirtualPath) -> (found: bool)
        requires
            self.wf(),
        ensures
            found == self@.dom().contains(key@),
    {
        match self.position(key) {
            Some(i) => {
                proof {
                    lemma_slot(key_views(self.keys@), i as int);
                }
                true
            },
            None => false,
        }
    }

    /// The value of `key`, if the map has one.
    pub fn get(&self, key: &VirtualPath) -> (value: Option<&V>)
        requires
            self.wf(),
        ensures
            match value {
                Some(v) => self@.dom().contains(key@) && *v == self@[key@],
                None => !self@.dom().contains(key@),
            },
    {
        match self.position(key) {
            Some(i) => {
                proof {
                    lemma_slot(key_views(self.keys@), i as int);
                }
                Some(&self.vals[i])
            },
            None => None,
        }
    }

    /// Gives `key` the value `value`, and returns the value it had.
    pub fn insert(&mut self, key: VirtualPath, value: V) -> (previous: Option<V>)
        requires
            old(self).wf(),
        ensures
            final(self).wf(),
            final(self)@ == old(self)@.insert(key@, value),
            match previous {
                Some(p) => {
                    &&& old(self)@.dom().contains(key@)
                    &&& p == old(self)@[key@]
                    &&& exists|i: int|
                        0 <= i < old(self).values().len() && old(self).values()[i] == p
                            && final(self).values() == old(self).values().update(i, value)
                },
                None => {
                    &&& !old(self)@.dom().contains(key@)
                    &&& final(self).values() == old(self).values().push(value)
                },
            },
    {
        let ghost keys = key_views(self.keys@);
        match self.position(&key) {
            Some(i) => {
                proof {
                    lemma_slot(keys, i as int);
                    lemma_assoc_update(keys, self.vals@, i as int, value);
                }
                self.vals.push(value);
                let p = self.vals.swap_remove(i);
                proof {
                    assert(self.vals@ =~= old(self).vals@.update(i as int, value));
                    assert(old(self).values()[i as int] == p && self.values() == old(self).values().update(i as int, value));
                }
                Some(p)
            },
            None => {
                proof {
                    lemma_assoc_push(keys, self.vals@, key@, value);
                }
                self.keys.push(key);
                self.vals.push(value);
                proof {
                    assert(key_views(self.keys@) =~= keys.push(key@));
                }
                None
            },
        }
    }

    /// Takes `key` and its value out of the map, and returns the value.
    pub fn remove(&mut self, key: &VirtualPath) -> (taken: Option<V>)
        requires
            old(self).wf(),
        ensures
            final(self).wf(),
            final(self)@ == old(self)@.remove(key@),
            match taken {
                Some(t) => {
                    &&& old(self)@.dom().contains(key@)
                    &&& t == old(self)@[key@]
                    &&& exists|i: int|
                        0 <= i < old(self).values().len() && old(self).values()[i] == t
                            && final(self).values() == old(self).values().remove(i)
                },
                None => {
                    &&& !old(self)@.dom().contains(key@)
                    &&& final(self).values() == old(self).values()
                },
            },
    {
        let ghost keys = key_views(self.keys@);
        match self.position(key) {
            Some(i) => {
                proof {
                    lemma_slot(keys, i as int);
                    lemma_assoc_remove(keys, self.vals@, i as int);
                }
                let _ = self.keys.remove(i);
                let t = self.vals.remove(i);
                proof {
                    assert(key_views(self.keys@) =~= keys.remove(i as int));
                    assert(old(self).values()[i as int] == t && self.values() == old(self).values().remove(i as int));
                }
                Some(t)
            },
            None => {
                proof {
                    assert(self@ =~= old(self)@.remove(key@));
                }
                None
            },
        }
    }
}

} // verus!
