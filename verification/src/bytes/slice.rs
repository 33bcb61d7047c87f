//! An owning handle on a window of a byte buffer. Splitting bytes off either
//! end narrows the window and never copies the buffer.

use vstd::prelude::*;
use vstd::slice::slice_subrange;

verus! {

pub struct Slice {
    /// The whole allocation.
    buf: Vec<u8>,
    /// Where the window starts within the allocation.
    off: usize,
    /// The length of the window.
    len: usize,
}

impl View for Slice {
    type V = Seq<u8>;

    /// The bytes inside the window.
    closed spec fn view(&self) -> Seq<u8> {
        self.buf@.subrange(self.off as int, self.off + self.len)
    }
}

impl Slice {
    #[verifier::type_invariant]
    spec fn inv(self) -> bool {
        self.off + self.len <= self.buf@.len() <= usize::MAX
    }

    /// A window over a fresh allocation of `len` zero bytes.
    pub fn new(len: usize) -> (s: Slice)
        ensures
            s@ == Seq::new(len as nat, |i: int| 0u8),
    {
        let buf: Vec<u8> = vec![0u8; len];
        assert(buf.len() == len);
        let s = Slice { buf, off: 0, len };
        assert(s@ =~= Seq::new(len as nat, |i: int| 0u8));
        s
    }

    /// A window over all of `buf`.
    pub fn from_vec(buf: Vec<u8>) -> (s: Slice)
        ensures
            s@ == buf@,
    {
        let len: usize = buf.len();
        let s = Slice { buf, off: 0, len };
        assert(s@ =~= buf@);
        s
    }

    /// The number of bytes in the window.
    pub fn len(&self) -> (n: usize)
        ensures
            n == self@.len(),
    {
        proof {
            use_type_invariant(self);
        }
        self.len
    }

    /// Whether the window holds no byte.
    pub fn is_empty(&self) -> (b: bool)
        ensures
            b == (self@.len() == 0),
    {
        proof {
            use_type_invariant(self);
        }
        self.len == 0
    }

    /// The bytes inside the window.
    pub fn as_slice(&self) -> (r: &[u8])
        ensures
            r@ == self@,
    {
        proof {
            use_type_invariant(self);
        }
        slice_subrange(self.buf.as_slice(), self.off, self.off + self.len)
    }

    /// Split up to `n` bytes off the front of the window: fewer where the
    /// window is shorter.
    pub fn split_max(&mut self, n: usize) -> (r: &[u8])
        ensures
            r@ == old(self)@.take(if n <= old(self)@.len() { n as int } else { old(self)@.len() as int }),
            final(self)@ == old(self)@.skip(r@.len() as int),
    {
        let m: usize = if n > self.len() {
            self.len()
        } else {
            n
        };
        self.split_bytes(m)
    }

    /// Split `n` bytes off the front of the window.
    pub fn split_bytes(&mut self, n: usize) -> (r: &[u8])
        requires
            n <= old(self)@.len(),
        ensures
            r@ == old(self)@.take(n as int),
            final(self)@ == old(self)@.skip(n as int),
    {
        proof {
            use_type_invariant(&*self);
        }
        let start: usize = self.off;
        self.len = self.len - n;
        self.off = start + n;
        let r = slice_subrange(self.buf.as_slice(), start, start + n);
        proof {
            assert(r@ =~= old(self)@.take(n as int));
            assert(self@ =~= old(self)@.skip(n as int));
        }
        r
    }

    /// Split `n` bytes off the back of the window.
    pub fn rsplit_bytes(&mut self, n: usize) -> (r: &[u8])
        requires
            n <= old(self)@.len(),
        ensures
            r@ == old(self)@.skip(old(self)@.len() - n),
            final(self)@ == old(self)@.take(old(self)@.len() - n),
    {
        proof {
            use_type_invariant(&*self);
        }
        let keep: usize = self.len - n;
        self.len = keep;
        let r = slice_subrange(self.buf.as_slice(), self.off + keep, self.off + keep + n);
        proof {
            assert(r@ =~= old(self)@.skip(old(self)@.len() - n));
            assert(self@ =~= old(self)@.take(old(self)@.len() - n));
        }
        r
    }

    /// Split `n` records of `N` bytes each off the front of the window.
    pub fn split_n<const N: usize>(&mut self, n: usize) -> (r: &[u8])
        requires
            n * N <= old(self)@.len(),
        ensures
            r@ == old(self)@.take(n * N),
            final(self)@ == old(self)@.skip(n * N),
    {
        let total: usize = self.len();
        proof {
            assert(n * N <= total);
        }
        self.split_bytes(n * N)
    }

    /// Split a record of `N` bytes off the front of the window.
    pub fn split<const N: usize>(&mut self) -> (r: [u8; N])
        requires
            N <= old(self)@.len(),
        ensures
            r@ == old(self)@.take(N as int),
            final(self)@ == old(self)@.skip(N as int),
    {
        let head: &[u8] = self.split_bytes(N);
        copy_array::<N>(head)
    }

    /// Split a record of `N` bytes off the back of the window.
    pub fn rsplit<const N: usize>(&mut self) -> (r: [u8; N])
        requires
            N <= old(self)@.len(),
        ensures
            r@ == old(self)@.skip(old(self)@.len() - N),
            final(self)@ == old(self)@.take(old(self)@.len() - N),
    {
        let tail: &[u8] = self.rsplit_bytes(N);
        copy_array::<N>(tail)
    }

    /// Shorten the window to its first `len` bytes.
    pub fn truncate(&mut self, len: usize)
        requires
            len <= old(self)@.len(),
        ensures
            final(self)@ == old(self)@.take(len as int),
    {
        proof {
            use_type_invariant(&*self);
        }
        self.len = len;
        proof {
            assert(self@ =~= old(self)@.take(len as int));
        }
    }
}

/// The `N` bytes of `v` as an array.
pub fn copy_array<const N: usize>(v: &[u8]) -> (r: [u8; N])
    requires
        v@.len() == N,
    ensures
        r@ == v@,
{
    let mut a: [u8; N] = [0u8;N];
    let mut i: usize = 0;
    while i < N
        invariant
            0 <= i <= N,
            v@.len() == N,
            forall|j: int| 0 <= j < i ==> a@[j] == v@[j],
        decreases N - i,
    {
        a[i] = v[i];
        i = i + 1;
    }
    assert(a@ =~= v@);
    a
}

} // verus!
