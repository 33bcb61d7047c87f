//! Small operations on byte strings.

use vstd::prelude::*;
use vstd::slice::slice_subrange;

use crate::utils::endian::append;

verus! {

/// The bytes of `a` followed by those of `b`.
pub fn joined(a: &[u8], b: &[u8]) -> (r: Vec<u8>)
    ensures
        r@ == a@ + b@,
{
    let mut out: Vec<u8> = Vec::new();
    append(&mut out, a);
    append(&mut out, b);
    out
}

/// Whether `a` and `b` hold the same bytes.
pub fn same(a: &[u8], b: &[u8]) -> (r: bool)
    ensures
        r == (a@ == b@),
{
    let n: usize = a.len();
    if n != b.len() {
        return false;
    }
    let mut i: usize = 0;
    while i < n
        invariant
            0 <= i <= n,
            n == a@.len(),
            n == b@.len(),
            a@.take(i as int) == b@.take(i as int),
        decreases n - i,
    {
        if a[i] != b[i] {
            assert(a@[i as int] != b@[i as int]);
            return false;
        }
        proof {
            assert(a@.take(i + 1) =~= a@.take(i as int).push(a@[i as int]));
            assert(b@.take(i + 1) =~= b@.take(i as int).push(b@[i as int]));
        }
        i = i + 1;
    }
    proof {
        assert(a@.take(n as int) =~= a@);
        assert(b@.take(n as int) =~= b@);
    }
    true
}

/// Whether every byte of `a` is zero.
pub fn all_zero(a: &[u8]) -> (r: bool)
    ensures
        r == (a@ == Seq::new(a@.len(), |i: int| 0u8)),
{
    let n: usize = a.len();
    let mut i: usize = 0;
    while i < n
        invariant
            0 <= i <= n,
            n == a@.len(),
            forall|k: int| 0 <= k < i ==> a@[k] == 0,
        decreases n - i,
    {
        if a[i] != 0 {
            assert(Seq::new(a@.len(), |k: int| 0u8)[i as int] == 0);
            return false;
        }
        i = i + 1;
    }
    proof {
        assert(a@ =~= Seq::new(a@.len(), |k: int| 0u8));
    }
    true
}

/// The `N` bytes of `b` from `at` on, as an array.
pub fn array_at<const N: usize>(b: &[u8], at: usize) -> (r: [u8; N])
    requires
        at + N <= b@.len(),
    ensures
        r@ == b@.subrange(at as int, at + N),
{
    let total: usize = b.len();
    crate::bytes::slice::copy_array::<N>(slice_subrange(b, at, at + N))
}

/// The bytes of `b` from `from` up to `to`.
pub fn part(b: &[u8], from: usize, to: usize) -> (r: &[u8])
    requires
        from <= to <= b@.len(),
    ensures
        r@ == b@.subrange(from as int, to as int),
{
    slice_subrange(b, from, to)
}

/// The array of `N` bytes that holds the bytes `s`.
pub open spec fn arr<const N: usize>(s: Seq<u8>) -> [u8; N] {
    choose|a: [u8; N]| a@ == s
}

/// The array that holds the bytes of an array is that array.
pub proof fn lemma_arr<const N: usize>(x: [u8; N])
    ensures
        arr::<N>(x@) == x,
{
    let a = arr::<N>(x@);
    assert(a@ == x@);
    assert(a =~= x);
}

/// The view of a list of byte strings.
pub open spec fn deep(v: Seq<Vec<u8>>) -> Seq<Seq<u8>> {
    Seq::new(v.len(), |i: int| v[i]@)
}

} // verus!
