//! A map of fixed capacity whose entries keep their place: a hash table
//! from key to slot beside a slab of slots, so that an index handed out
//! stays good while other entries come and go.

use vstd::prelude::*;

verus! {

/// The hash table from key to slot: a `hashbrown::HashMap` that hashes
/// with `ahash::AHasher`.
#[verifier::external_body]
pub struct Dict {
    inner: hashbrown::HashMap<u16, usize, core::hash::BuildHasherDefault<ahash::AHasher>>,
}

/// The entries that a table holds.
pub uninterp spec fn dict_entries(d: Dict) -> Map<u16, usize>;

/// The table that holds no entry.
pub open spec fn no_entries() -> Map<u16, usize> {
    Map::empty()
}

/// `hashbrown::HashMap::with_capacity_and_hasher`: a table that holds no
/// entry. The crate panics on a capacity that overflows; one key for each
/// 16-bit number is far below that.
#[verifier::external_body]
fn dict_new(capacity: usize) -> (r: Dict)
    requires
        capacity <= 0x1_0000,
    ensures
        dict_entries(r) == no_entries(),
{
    Dict { inner: hashbrown::HashMap::with_capacity_and_hasher(capacity, Default::default()) }
}

/// `hashbrown::HashMap::get`: the value held under the key, if any.
#[verifier::external_body]
fn dict_get(d: &Dict, k: u16) -> (r: Option<usize>)
    ensures
        r == (if dict_entries(*d).contains_key(k) {
            Some(dict_entries(*d)[k])
        } else {
            None::<usize>
        }),
{
    d.inner.get(&k).copied()
}

/// `hashbrown::HashMap::insert`: the value is held under the key from now
/// on, and the value held under it before is handed back.
#[verifier::external_body]
fn dict_insert(d: &mut Dict, k: u16, v: usize) -> (r: Option<usize>)
    ensures
        dict_entries(*final(d)) == dict_entries(*old(d)).insert(k, v),
        r == (if dict_entries(*old(d)).contains_key(k) {
            Some(dict_entries(*old(d))[k])
        } else {
            None::<usize>
        }),
{
    d.inner.insert(k, v)
}

/// `hashbrown::HashMap::remove`: nothing is held under the key from now
/// on, and the value held under it before is handed back.
#[verifier::external_body]
fn dict_remove(d: &mut Dict, k: u16) -> (r: Option<usize>)
    ensures
        dict_entries(*final(d)) == dict_entries(*old(d)).remove(k),
        r == (if dict_entries(*old(d)).contains_key(k) {
            Some(dict_entries(*old(d))[k])
        } else {
            None::<usize>
        }),
{
    d.inner.remove(&k)
}

/// A type that can say which slot it names.
pub trait ValidIndex {
    /// The slot named.
    spec fn slot(self) -> usize;

    /// The slot named.
    fn get(self) -> (i: usize)
        ensures
            i == self.slot(),
    ;
}

/// The place of an entry within a map.
#[derive(Clone, Copy, Debug, PartialEq, Eq, Structural)]
pub struct Index(pub usize);

impl Index {
    pub fn new(idx: usize) -> (i: Index)
        ensures
            i.0 == idx,
    {
        Index(idx)
    }
}

impl ValidIndex for Index {
    open spec fn slot(self) -> usize {
        self.0
    }

    fn get(self) -> (i: usize) {
        self.0
    }
}

/// A map from 16-bit keys to entries, of a capacity fixed when it is made.
pub struct SlotMap<T> {
    /// How many entries the map can hold.
    cap: usize,
    /// The slab: each slot is vacant or holds a key and its entry.
    slots: Vec<Option<(u16, T)>>,
    /// Vacant slots of the slab, to be used again.
    free: Vec<usize>,
    /// The slot of each key.
    dict: Dict,
}

impl<T> View for SlotMap<T> {
    type V = Map<u16, T>;

    /// The entry held under each key.
    closed spec fn view(&self) -> Map<u16, T> {
        Map::new(
            |k: u16| dict_entries(self.dict).contains_key(k),
            |k: u16| self.slots@[dict_entries(self.dict)[k] as int]->Some_0.1,
        )
    }
}

impl<T> SlotMap<T> {
    /// How many entries the map can hold.
    pub closed spec fn capacity(&self) -> usize {
        self.cap
    }

    /// The slot in which the entry of key `k` is held.
    pub closed spec fn index_of(&self, k: u16) -> usize {
        dict_entries(self.dict)[k]
    }

    /// What is held in slot `i`: a key, or nothing.
    pub closed spec fn key_at(&self, i: usize) -> Option<u16> {
        if i < self.slots@.len() {
            match self.slots@[i as int] {
                Some(p) => Some(p.0),
                None => None,
            }
        } else {
            None
        }
    }

    /// Table and slab agree, and the count of entries is kept.
    pub closed spec fn wf(&self) -> bool {
        let d = dict_entries(self.dict);
        &&& self.slots@.len() <= self.cap
        &&& d.dom().finite()
        &&& d.dom().len() + self.free@.len() == self.slots@.len()
        &&& forall|k: u16| #[trigger]
            d.contains_key(k) ==> d[k] < self.slots@.len() && self.slots@[d[k] as int] is Some
                && self.slots@[d[k] as int]->Some_0.0 == k
        &&& forall|i: int|
            0 <= i < self.slots@.len() && (#[trigger] self.slots@[i]) is Some ==> d.contains_key(
                self.slots@[i]->Some_0.0,
            ) && d[self.slots@[i]->Some_0.0] == i
        &&& forall|j: int|
            0 <= j < self.free@.len() ==> (#[trigger] self.free@[j]) < self.slots@.len()
                && self.slots@[self.free@[j] as int] is None
        &&& forall|a: int, b: int|
            0 <= a < b < self.free@.len() ==> (#[trigger] self.free@[a]) != (
            #[trigger] self.free@[b])
    }

    /// What a well-formed map offers: its keys are finitely many, no more
    /// than its capacity, and each key is held in the slot that is held
    /// under its name.
    pub proof fn lemma_wf(&self)
        requires
            self.wf(),
        ensures
            self@.dom().finite(),
            self@.dom().len() <= self.capacity(),
            forall|k: u16| #[trigger]
                self@.contains_key(k) ==> self.index_of(k) < self.capacity() && self.key_at(self.index_of(k))
                    == Some(k),
            forall|i: usize|
                (#[trigger] self.key_at(i)) matches Some(k) ==> self@.contains_key(k)
                    && self.index_of(k) == i,
    {
        assert(self@.dom() =~= dict_entries(self.dict).dom());
    }

    /// A map that holds nothing and can hold `cap` entries; there are no
    /// more keys than 65536.
    pub fn new(cap: usize) -> (m: SlotMap<T>)
        requires
            cap <= 0x1_0000,
        ensures
            m.wf(),
            m.capacity() == cap,
            m@ == Map::<u16, T>::empty(),
    {
        let m = SlotMap { cap, slots: Vec::new(), free: Vec::new(), dict: dict_new(cap) };
        proof {
            assert(m@ =~= Map::<u16, T>::empty());
        }
        m
    }

    /// The number of entries held.
    pub fn len(&self) -> (n: usize)
        requires
            self.wf(),
        ensures
            n == self@.dom().len(),
            n <= self.capacity(),
    {
        proof {
            assert(self@.dom() =~= dict_entries(self.dict).dom());
        }
        self.slots.len() - self.free.len()
    }

    /// The place of the entry held under `k`, if any.
    pub fn find_index(&self, k: u16) -> (r: Option<Index>)
        requires
            self.wf(),
        ensures
            r == (if self@.contains_key(k) {
                Some(Index(self.index_of(k)))
            } else {
                None::<Index>
            }),
    {
        match dict_get(&self.dict, k) {
            Some(i) => Some(Index(i)),
            None => None,
        }
    }

    /// The entry held under `k`, if any.
    pub fn find(&self, k: u16) -> (r: Option<&T>)
        requires
            self.wf(),
        ensures
            r == (if self@.contains_key(k) {
                Some(&self@[k])
            } else {
                None::<&T>
            }),
    {
        match dict_get(&self.dict, k) {
            Some(i) => {
                match &self.slots[i] {
                    Some(p) => Some(&p.1),
                    None => None,
                }
            },
            None => None,
        }
    }

    /// Whether an entry is held under `k`.
    pub fn contains(&self, k: u16) -> (b: bool)
        requires
            self.wf(),
        ensures
            b == self@.contains_key(k),
    {
        dict_get(&self.dict, k).is_some()
    }

    /// The entry held in the slot that `idx` names, with its key, if any.
    pub fn get(&self, idx: Index) -> (r: Option<(u16, &T)>)
        requires
            self.wf(),
        ensures
            match r {
                Some((k, t)) => self.key_at(idx.0) == Some(k) && self@.contains_key(k)
                    && self.index_of(k) == idx.0 && *t == self@[k],
                None => self.key_at(idx.0) is None,
            },
    {
        let i: usize = idx.0;
        if i < self.slots.len() {
            match &self.slots[i] {
                Some(p) => Some((p.0, &p.1)),
                None => None,
            }
        } else {
            None
        }
    }

    /// Hold `t` under `k`, in a slot that stays its own until it is
    /// removed. The entry comes back where `k` is taken or the map is full.
    pub fn insert(&mut self, k: u16, t: T) -> (r: Result<Index, T>)
        requires
            old(self).wf(),
        ensures
            final(self).wf(),
            final(self).capacity() == old(self).capacity(),
            match r {
                Ok(i) => {
                    &&& !old(self)@.contains_key(k)
                    &&& old(self)@.dom().len() < old(self).capacity()
                    &&& final(self)@ == old(self)@.insert(k, t)
                    &&& final(self).index_of(k) == i.0
                    &&& i.0 < old(self).capacity()
                    &&& old(self).key_at(i.0) is None
                },
                Err(back) => {
                    &&& old(self)@.contains_key(k) || old(self)@.dom().len() == old(self).capacity()
                    &&& back == t
                    &&& final(self)@ == old(self)@
                },
            },
            forall|q: u16|
                old(self)@.contains_key(q) ==> final(self).index_of(q) == old(self).index_of(q),
    {
        proof {
            assert(self@.dom() =~= dict_entries(self.dict).dom());
        }
        if dict_get(&self.dict, k).is_some() {
            return Err(t);
        }
        let ghost d0 = dict_entries(self.dict);
        let i: usize = if self.free.len() > 0 {
            let i: usize = self.free.pop().unwrap();
            self.slots[i] = Some((k, t));
            i
        } else if self.slots.len() < self.cap {
            self.slots.push(Some((k, t)));
            self.slots.len() - 1
        } else {
            return Err(t);
        };
        let _ = dict_insert(&mut self.dict, k, i);
        proof {
            let d1 = dict_entries(self.dict);
            assert(d1.dom() =~= d0.dom().insert(k));
            assert(self@ =~= old(self)@.insert(k, t));
            assert forall|q: u16| #[trigger] d1.contains_key(q) implies d1[q] < self.slots@.len()
                && self.slots@[d1[q] as int] is Some && self.slots@[d1[q] as int]->Some_0.0 == q by {
                if q != k {
                    assert(d0.contains_key(q));
                }
            }
        }
        Ok(Index(i))
    }

    /// Take out the entry held under `k`, if any. Its slot becomes vacant.
    pub fn remove(&mut self, k: u16) -> (r: Option<T>)
        requires
            old(self).wf(),
        ensures
            final(self).wf(),
            final(self).capacity() == old(self).capacity(),
            r == (if old(self)@.contains_key(k) {
                Some(old(self)@[k])
            } else {
                None::<T>
            }),
            final(self)@ == old(self)@.remove(k),
            forall|q: u16|
                q != k && old(self)@.contains_key(q) ==> final(self).index_of(q) == old(
                    self,
                ).index_of(q),
    {
        let ghost d0 = dict_entries(self.dict);
        match dict_remove(&mut self.dict, k) {
            None => {
                proof {
                    assert(dict_entries(self.dict) =~= d0);
                    assert(self@ =~= old(self)@.remove(k));
                }
                None
            },
            Some(i) => {
                let taken: Option<(u16, T)> = self.slots[i].take();
                self.free.push(i);
                proof {
                    let d1 = dict_entries(self.dict);
                    assert(d1.dom() =~= d0.dom().remove(k));
                    assert(self@ =~= old(self)@.remove(k));
                    assert forall|q: u16| #[trigger] d1.contains_key(q) implies d1[q]
                        < self.slots@.len() && self.slots@[d1[q] as int] is Some
                        && self.slots@[d1[q] as int]->Some_0.0 == q by {
                        assert(d0.contains_key(q));
                        assert(d0[q] != i);
                    }
                    assert forall|a: int, b: int| 0 <= a < b < self.free@.len() implies (
                    #[trigger] self.free@[a]) != (#[trigger] self.free@[b]) by {
                        if b == self.free@.len() - 1 {
                            assert(old(self).free@[a] == self.free@[a]);
                        }
                    }
                }
                match taken {
                    Some(p) => Some(p.1),
                    None => None,
                }
            },
        }
    }
}

} // verus!
