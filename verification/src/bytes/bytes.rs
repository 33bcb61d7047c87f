//! A heap allocation of bytes from which windows are cut.

use vstd::prelude::*;
use vstd::slice::{slice_subrange, slice_to_vec};

use super::Slice;

verus! {

pub struct Bytes {
    /// The allocation.
    buf: Vec<u8>,
}

impl View for Bytes {
    type V = Seq<u8>;

    closed spec fn view(&self) -> Seq<u8> {
        self.buf@
    }
}

impl Bytes {
    /// Construct a new `Bytes` of `len` zero bytes.
    pub fn new(len: usize) -> (b: Bytes)
        ensures
            b@ == Seq::new(len as nat, |i: int| 0u8),
    {
        let buf: Vec<u8> = vec![0u8; len];
        let b = Bytes { buf };
        assert(b@ =~= Seq::new(len as nat, |i: int| 0u8));
        b
    }

    /// The length of the allocation.
    pub fn len(&self) -> (n: usize)
        ensures
            n == self@.len(),
    {
        self.buf.len()
    }

    /// The bytes of the allocation.
    pub fn as_slice(&self) -> (r: &[u8])
        ensures
            r@ == self@,
    {
        self.buf.as_slice()
    }

    /// Overwrite the byte at `i`.
    pub fn set(&mut self, i: usize, v: u8)
        requires
            i < old(self)@.len(),
        ensures
            final(self)@ == old(self)@.update(i as int, v),
    {
        self.buf[i] = v;
    }

    /// Cut the window `start..end` out of the allocation. The window holds
    /// its own copy of the bytes.
    pub fn slice(&self, start: usize, end: usize) -> (s: Slice)
        requires
            start <= end <= self@.len(),
        ensures
            s@ == self@.subrange(start as int, end as int),
    {
        Slice::from_vec(slice_to_vec(slice_subrange(self.buf.as_slice(), start, end)))
    }
}

} // verus!
