//! A byte string that is held in place where it is short, and on the heap
//! where it is not.

use vstd::prelude::*;
use vstd::slice::slice_to_vec;

use super::inline::{Inline, CAPACITY};

verus! {

pub enum Store {
    /// A string of up to 23 bytes.
    Stack(Inline),
    /// A longer string.
    Boxed(Vec<u8>),
}

impl View for Store {
    type V = Seq<u8>;

    /// The bytes held.
    open spec fn view(&self) -> Seq<u8> {
        match self {
            Store::Stack(s) => s@,
            Store::Boxed(v) => v@,
        }
    }
}

impl Store {
    /// A string is held in place exactly where it fits.
    pub open spec fn wf(&self) -> bool {
        match self {
            Store::Stack(_) => true,
            Store::Boxed(v) => v@.len() > CAPACITY,
        }
    }

    /// Hold the bytes of `value`.
    pub fn from(value: &[u8]) -> (s: Store)
        ensures
            s@ == value@,
            s.wf(),
            s is Stack <==> value@.len() <= CAPACITY,
    {
        match Inline::new(value) {
            Some(s) => Store::Stack(s),
            None => Store::Boxed(slice_to_vec(value)),
        }
    }

    /// The length of the string where it is held in place; `None` where
    /// it lives on the heap.
    pub fn stack_len(&self) -> (r: Option<usize>)
        ensures
            r == (match self {
                Store::Stack(s) => Some(s@.len() as usize),
                Store::Boxed(_) => None::<usize>,
            }),
    {
        match self {
            Store::Stack(s) => Some(s.len()),
            Store::Boxed(_) => None,
        }
    }

    /// The number of bytes held.
    pub fn len(&self) -> (n: usize)
        ensures
            n == self@.len(),
    {
        match self {
            Store::Stack(s) => s.len(),
            Store::Boxed(v) => v.len(),
        }
    }

    /// The bytes held.
    pub fn to_vec(&self) -> (r: Vec<u8>)
        ensures
            r@ == self@,
    {
        match self {
            Store::Stack(s) => s.to_vec(),
            Store::Boxed(v) => slice_to_vec(v.as_slice()),
        }
    }

    /// Whether two stores hold the same bytes.
    pub fn same(&self, other: &Store) -> (b: bool)
        ensures
            b == (self@ == other@),
    {
        let a: Vec<u8> = self.to_vec();
        let b: Vec<u8> = other.to_vec();
        crate::utils::bytes::same(a.as_slice(), b.as_slice())
    }
}

} // verus!
