//! A ring of slots, each of which holds an item or nothing. An index names
//! the slot that it falls on when it is counted around the ring.

use vstd::prelude::*;

verus! {

pub struct Ring<T> {
    slots: Vec<Option<T>>,
}

impl<T> View for Ring<T> {
    type V = Seq<Option<T>>;

    /// What each slot holds.
    closed spec fn view(&self) -> Seq<Option<T>> {
        self.slots@
    }
}

impl<T> Ring<T> {
    /// A ring has a slot at least.
    pub open spec fn wf(&self) -> bool {
        self@.len() > 0
    }

    /// The slot that the index `idx` falls on.
    pub open spec fn slot(&self, idx: usize) -> int {
        idx as int % self@.len() as int
    }

    /// A ring of `n` slots that hold nothing.
    pub fn new(n: usize) -> (r: Ring<T>)
        requires
            n > 0,
        ensures
            r.wf(),
            r@ == Seq::new(n as nat, |i: int| None::<T>),
    {
        let mut slots: Vec<Option<T>> = Vec::new();
        let mut i: usize = 0;
        while i < n
            invariant
                0 <= i <= n,
                slots@ == Seq::new(i as nat, |k: int| None::<T>),
            decreases n - i,
        {
            slots.push(None);
            proof {
                assert(slots@ =~= Seq::new((i + 1) as nat, |k: int| None::<T>));
            }
            i = i + 1;
        }
        Ring { slots }
    }

    /// The item in the slot that `idx` falls on, if it holds one.
    pub fn get(&self, idx: usize) -> (r: Option<&T>)
        requires
            self.wf(),
        ensures
            r == (match self@[self.slot(idx)] {
                Some(t) => Some(&t),
                None => None::<&T>,
            }),
    {
        let i: usize = idx % self.slots.len();
        self.slots[i].as_ref()
    }

    /// Take the item out of the slot that `idx` falls on, if it holds one.
    pub fn remove(&mut self, idx: usize) -> (r: Option<T>)
        requires
            old(self).wf(),
        ensures
            r == old(self)@[old(self).slot(idx)],
            final(self)@ == old(self)@.update(old(self).slot(idx), None),
    {
        let i: usize = idx % self.slots.len();
        self.slots[i].take()
    }

    /// Put `t` into the slot that `idx` falls on. Hands back what the slot
    /// held before.
    pub fn insert(&mut self, idx: usize, t: T) -> (r: Option<T>)
        requires
            old(self).wf(),
        ensures
            r == old(self)@[old(self).slot(idx)],
            final(self)@ == old(self)@.update(old(self).slot(idx), Some(t)),
    {
        let i: usize = idx % self.slots.len();
        let mut held: Option<T> = Some(t);
        core::mem::swap(&mut self.slots[i], &mut held);
        held
    }
}

} // verus!
