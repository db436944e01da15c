//! A map from handle ids to values.
//!
//! Every manager of the plugin hands out `i32` handles. This map keeps them
//! in a `HashMap` and gives each operation (including handing out a mutable
//! reference and filtering by value) an exact contract over a `Map` view.
use std::collections::hash_map::Entry;
use std::collections::HashMap;

use vstd::prelude::*;
use vstd::std_specs::hash::spec_keys_iter;
use vstd::std_specs::iter::IteratorSpec;

verus! {

broadcast use vstd::std_specs::hash::group_hash_axioms;

/// The handle after `id`: counting up, wrapping past `i32::MAX` to 1 so
/// that 0 (the failure value Pawn sees) and negatives are never handed out.
pub open spec fn next_handle(id: i32) -> i32 {
    if id == i32::MAX || id + 1 < 1 {
        1
    } else {
        (id + 1) as i32
    }
}

/// `id.wrapping_add(1).max(1)`.
pub fn advance_handle(id: i32) -> (n: i32)
    ensures
        n == next_handle(id),
        n >= 1,
{
    let n = id.wrapping_add(1);
    if n < 1 {
        1
    } else {
        n
    }
}

pub struct IdMap<V> {
    map: HashMap<i32, V>,
}

impl<V> View for IdMap<V> {
    type V = Map<i32, V>;

    closed spec fn view(&self) -> Map<i32, V> {
        self.map@
    }
}

impl<V> IdMap<V> {
    /// Finitely many handles are held.
    pub closed spec fn wf(&self) -> bool {
        self.map@.dom().finite()
    }

    pub fn new() -> (m: Self)
        ensures
            m.wf(),
            m@ == Map::<i32, V>::empty(),
    {
        IdMap { map: HashMap::new() }
    }

    pub fn len(&self) -> (n: usize)
        requires
            self.wf(),
        ensures
            n == self@.len(),
    {
        self.map.len()
    }

    pub fn contains_key(&self, k: i32) -> (b: bool)
        requires
            self.wf(),
        ensures
            b == self@.contains_key(k),
    {
        self.map.contains_key(&k)
    }

    pub fn get(&self, k: i32) -> (r: Option<&V>)
        requires
            self.wf(),
        ensures
            match r {
                Some(v) => self@.contains_key(k) && *v == self@[k],
                None => !self@.contains_key(k),
            },
    {
        self.map.get(&k)
    }

    pub fn get_mut(&mut self, k: i32) -> (r: Option<&mut V>)
        requires
            old(self).wf(),
        ensures
            match r {
                Some(v) => {
                    &&& old(self)@.contains_key(k)
                    &&& *v == old(self)@[k]
                    &&& final(self).wf()
                    &&& final(self)@ == old(self)@.insert(k, *final(v))
                },
                None => !old(self)@.contains_key(k) && *final(self) == *old(self),
            },
    {
        if !self.map.contains_key(&k) {
            return None;
        }
        match self.map.entry(k) {
            Entry::Occupied(o) => Some(o.into_mut()),
            Entry::Vacant(_) => None,
        }
    }

    pub fn insert(&mut self, k: i32, v: V) -> (r: Option<V>)
        requires
            old(self).wf(),
        ensures
            final(self).wf(),
            final(self)@ == old(self)@.insert(k, v),
            match r {
                Some(prev) => old(self)@.contains_key(k) && prev == old(self)@[k],
                None => !old(self)@.contains_key(k),
            },
    {
        self.map.insert(k, v)
    }

    pub fn remove(&mut self, k: i32) -> (r: Option<V>)
        requires
            old(self).wf(),
        ensures
            final(self).wf(),
            final(self)@ == old(self)@.remove(k),
            match r {
                Some(prev) => old(self)@.contains_key(k) && prev == old(self)@[k],
                None => !old(self)@.contains_key(k),
            },
    {
        self.map.remove(&k)
    }

    /// Every handle held, once each, in no particular order.
    pub fn keys(&self) -> (r: Vec<i32>)
        requires
            self.wf(),
        ensures
            r@.no_duplicates(),
            forall|k: i32| r@.contains(k) <==> self@.contains_key(k),
    {
        let mut out: Vec<i32> = Vec::new();
        let iter = self.map.keys();
        let ghost ks = IteratorSpec::remaining(&spec_keys_iter(&self.map)).unref();
        proof {
            assert(ks.to_set() == self.map@.dom());
            assert(ks.no_duplicates());
        }
        for k in it: iter
            invariant
                ks == it.seq().unref(),
                it.index() == out@.len(),
                out@ == ks.take(out@.len() as int),
        {
            out.push(*k);
        }
        proof {
            assert(out@ == ks);
            assert forall|k: i32| out@.contains(k) <==> self@.contains_key(k) by {
                if out@.contains(k) {
                    assert(ks.to_set().contains(k));
                }
                if self@.contains_key(k) {
                    assert(ks.to_set().contains(k));
                }
            }
        }
        out
    }
}

#[derive(Clone, Copy, Debug, PartialEq, Eq, Structural)]
pub enum Owner {
    Conn(i32),
    Amx(usize),
}

/// A value that knows its owners, so a map of them can drop everything an
/// unloaded script or a closed connection leaves behind.
pub trait Owned {
    spec fn owned_by(&self, o: Owner) -> bool;

    fn is_owned_by(&self, o: Owner) -> (b: bool)
        ensures
            b == self.owned_by(o),
    ;
}

/// `m` without the entries that `o` owns.
pub open spec fn without_owner<V: Owned>(m: Map<i32, V>, o: Owner) -> Map<i32, V> {
    Map::new(|k: i32| m.contains_key(k) && !m[k].owned_by(o), |k: i32| m[k])
}

impl<V: Owned> IdMap<V> {
    /// Removes every entry that `o` owns; the others stay as they are.
    pub fn remove_owned(&mut self, o: Owner)
        requires
            old(self).wf(),
        ensures
            final(self).wf(),
            final(self)@ == without_owner(old(self)@, o),
    {
        let ghost pre = self@;
        let keys = self.keys();
        let mut i: usize = 0;
        while i < keys.len()
            invariant
                self.wf(),
                i <= keys@.len(),
                keys@.no_duplicates(),
                forall|k: i32| keys@.contains(k) <==> pre.contains_key(k),
                self@ == Map::new(
                    |k: i32| pre.contains_key(k) && (keys@.take(i as int).contains(k) ==> !pre[k].owned_by(o)),
                    |k: i32| pre[k],
                ),
            decreases keys@.len() - i,
        {
            let k = keys[i];
            let ghost before = self@;
            proof {
                assert(keys@.contains(k));
                assert(!keys@.take(i as int).contains(k)) by {
                    if keys@.take(i as int).contains(k) {
                        let j = choose|j: int| 0 <= j < i && keys@.take(i as int)[j] == k;
                        assert(keys@[j] == keys@[i as int]);
                    }
                }
            }
            let drop = match self.get(k) {
                Some(v) => v.is_owned_by(o),
                None => false,
            };
            if drop {
                self.remove(k);
            }
            proof {
                let t0 = keys@.take(i as int);
                let t1 = keys@.take(i + 1);
                assert(t1 =~= t0.push(k));
                assert forall|q: i32| t1.contains(q) <==> (t0.contains(q) || q == k) by {
                    if t1.contains(q) {
                        let j = choose|j: int| 0 <= j < t1.len() && t1[j] == q;
                        if j < i {
                            assert(t0[j] == q);
                        }
                    }
                    if t0.contains(q) {
                        let j = choose|j: int| 0 <= j < t0.len() && t0[j] == q;
                        assert(t1[j] == q);
                    }
                    if q == k {
                        assert(t1[i as int] == q);
                    }
                }
                assert(self@ =~= Map::new(
                    |q: i32| pre.contains_key(q) && (keys@.take(i + 1).contains(q) ==> !pre[q].owned_by(o)),
                    |q: i32| pre[q],
                ));
            }
            i = i + 1;
        }
        proof {
            assert(keys@.take(i as int) =~= keys@);
            assert(self@ =~= without_owner(pre, o));
        }
    }
}

} // verus!
