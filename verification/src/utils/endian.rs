//! Integers as bytes in a fixed byte order.

use vstd::prelude::*;

verus! {

/// The 16-bit value whose big-endian bytes are `hi`, `lo`.
pub open spec fn be16(hi: u8, lo: u8) -> u16 {
    (hi as u16 * 256 + lo as u16) as u16
}

/// The two big-endian bytes of `v`.
pub open spec fn be16_bytes(v: u16) -> Seq<u8> {
    seq![(v / 256) as u8, (v % 256) as u8]
}

/// The 32-bit value whose big-endian bytes are the first four of `b`.
pub open spec fn be32(b: Seq<u8>) -> u32 {
    (b[0] as u32 * 0x100_0000 + b[1] as u32 * 0x1_0000 + b[2] as u32 * 0x100 + b[3] as u32) as u32
}

/// The four big-endian bytes of `v`.
pub open spec fn be32_bytes(v: u32) -> Seq<u8> {
    seq![
        (v / 0x100_0000) as u8,
        ((v / 0x1_0000) % 256) as u8,
        ((v / 0x100) % 256) as u8,
        (v % 256) as u8,
    ]
}

/// The 64-bit value whose big-endian bytes are the first eight of `b`.
pub open spec fn be64(b: Seq<u8>) -> u64 {
    (be32(b) as u64 * 0x1_0000_0000 + be32(b.skip(4)) as u64) as u64
}

/// The eight big-endian bytes of `v`.
pub open spec fn be64_bytes(v: u64) -> Seq<u8> {
    be32_bytes((v / 0x1_0000_0000) as u32) + be32_bytes((v % 0x1_0000_0000) as u32)
}

/// The 128-bit value whose big-endian bytes are the first sixteen of `b`.
pub open spec fn be128(b: Seq<u8>) -> u128 {
    (be64(b) as u128 * 0x1_0000_0000_0000_0000 + be64(b.skip(8)) as u128) as u128
}

/// The sixteen big-endian bytes of `v`.
pub open spec fn be128_bytes(v: u128) -> Seq<u8> {
    be64_bytes((v / 0x1_0000_0000_0000_0000) as u64) + be64_bytes(
        (v % 0x1_0000_0000_0000_0000) as u64,
    )
}

/// The 32-bit value whose little-endian bytes are the first four of `b`.
pub open spec fn le32(b: Seq<u8>) -> u32 {
    (b[0] as u32 + b[1] as u32 * 0x100 + b[2] as u32 * 0x1_0000 + b[3] as u32 * 0x100_0000) as u32
}

/// The four little-endian bytes of `v`.
pub open spec fn le32_bytes(v: u32) -> Seq<u8> {
    seq![
        (v % 256) as u8,
        ((v / 0x100) % 256) as u8,
        ((v / 0x1_0000) % 256) as u8,
        (v / 0x100_0000) as u8,
    ]
}

/// The 64-bit value whose little-endian bytes are the first eight of `b`.
pub open spec fn le64(b: Seq<u8>) -> u64 {
    (le32(b) as u64 + le32(b.skip(4)) as u64 * 0x1_0000_0000) as u64
}

/// The eight little-endian bytes of `v`.
pub open spec fn le64_bytes(v: u64) -> Seq<u8> {
    le32_bytes((v % 0x1_0000_0000) as u32) + le32_bytes((v / 0x1_0000_0000) as u32)
}

/// A 32-bit value is the sum of its four bytes, each at its weight.
proof fn lemma_split32(v: u32)
    ensures
        v / 0x100_0000 < 256,
        (v / 0x100_0000) * 0x100_0000 + ((v / 0x1_0000) % 256) * 0x1_0000 + ((v / 0x100) % 256)
            * 0x100 + v % 256 == v,
{
    assert(v / 0x100_0000 < 256) by (bit_vector);
    assert((v / 0x100_0000) * 0x100_0000 + ((v / 0x1_0000) % 256) * 0x1_0000 + ((v / 0x100) % 256)
        * 0x100 + v % 256 == v) by (bit_vector);
}

/// Reading back the big-endian bytes of a value gives the value.
pub proof fn lemma_be16_round_trip(v: u16)
    ensures
        be16_bytes(v).len() == 2,
        be16(be16_bytes(v)[0], be16_bytes(v)[1]) == v,
{
}

/// Reading back the big-endian bytes of a value gives the value.
pub proof fn lemma_be32_round_trip(v: u32)
    ensures
        be32_bytes(v).len() == 4,
        be32(be32_bytes(v)) == v,
{
    lemma_split32(v);
}

/// Reading back the little-endian bytes of a value gives the value.
pub proof fn lemma_le32_round_trip(v: u32)
    ensures
        le32_bytes(v).len() == 4,
        le32(le32_bytes(v)) == v,
{
    lemma_split32(v);
}

/// Reading back the little-endian bytes of a value gives the value.
pub proof fn lemma_le64_round_trip(v: u64)
    ensures
        le64_bytes(v).len() == 8,
        le64(le64_bytes(v)) == v,
{
    let lo = (v % 0x1_0000_0000) as u32;
    let hi = (v / 0x1_0000_0000) as u32;
    lemma_le32_round_trip(lo);
    lemma_le32_round_trip(hi);
    let b = le64_bytes(v);
    assert(b.skip(4) =~= le32_bytes(hi));
    assert(le32(b) == le32(le32_bytes(lo)));
}

/// Reading back the big-endian bytes of a value gives the value.
pub proof fn lemma_be64_round_trip(v: u64)
    ensures
        be64_bytes(v).len() == 8,
        be64(be64_bytes(v)) == v,
{
    let hi = (v / 0x1_0000_0000) as u32;
    let lo = (v % 0x1_0000_0000) as u32;
    lemma_be32_round_trip(hi);
    lemma_be32_round_trip(lo);
    let b = be64_bytes(v);
    assert(b.skip(4) =~= be32_bytes(lo));
    assert(be32(b) == be32(be32_bytes(hi)));
}

/// Reading back the big-endian bytes of a value gives the value.
pub proof fn lemma_be128_round_trip(v: u128)
    ensures
        be128_bytes(v).len() == 16,
        be128(be128_bytes(v)) == v,
{
    let hi = (v / 0x1_0000_0000_0000_0000) as u64;
    let lo = (v % 0x1_0000_0000_0000_0000) as u64;
    lemma_be64_round_trip(hi);
    lemma_be64_round_trip(lo);
    let b = be128_bytes(v);
    assert(b.skip(8) =~= be64_bytes(lo));
    assert(b.skip(4) =~= be64_bytes(hi).skip(4) + be64_bytes(lo));
    assert(b.skip(4).take(4) =~= be64_bytes(hi).skip(4).take(4));
    assert(be32(b.skip(4)) == be32(be64_bytes(hi).skip(4)));
    assert(be32(b) == be32(be64_bytes(hi)));
    assert(be64(b) == be64(be64_bytes(hi)));
}

/// Read a big-endian 16-bit value at `at`.
pub fn get_be16(b: &[u8], at: usize) -> (v: u16)
    requires
        at + 2 <= b@.len(),
    ensures
        v == be16(b@[at as int], b@[at + 1]),
{
    (b[at] as u16) * 256 + (b[at + 1] as u16)
}

/// Read a big-endian 32-bit value at `at`.
pub fn get_be32(b: &[u8], at: usize) -> (v: u32)
    requires
        at + 4 <= b@.len(),
    ensures
        v == be32(b@.skip(at as int)),
{
    (b[at] as u32) * 0x100_0000 + (b[at + 1] as u32) * 0x1_0000 + (b[at + 2] as u32) * 0x100 + (b[at
        + 3] as u32)
}

/// Read a big-endian 64-bit value at `at`.
pub fn get_be64(b: &[u8], at: usize) -> (v: u64)
    requires
        at + 8 <= b@.len(),
    ensures
        v == be64(b@.skip(at as int)),
{
    let n: usize = b.len();
    let hi: u32 = get_be32(b, at);
    let lo: u32 = get_be32(b, at + 4);
    proof {
        assert(b@.skip(at as int).skip(4) =~= b@.skip(at + 4));
    }
    (hi as u64) * 0x1_0000_0000 + (lo as u64)
}

/// Read a big-endian 128-bit value at `at`.
pub fn get_be128(b: &[u8], at: usize) -> (v: u128)
    requires
        at + 16 <= b@.len(),
    ensures
        v == be128(b@.skip(at as int)),
{
    let n: usize = b.len();
    let hi: u64 = get_be64(b, at);
    let lo: u64 = get_be64(b, at + 8);
    proof {
        assert(b@.skip(at as int).skip(8) =~= b@.skip(at + 8));
    }
    (hi as u128) * 0x1_0000_0000_0000_0000 + (lo as u128)
}

/// Read a little-endian 32-bit value at `at`.
pub fn get_le32(b: &[u8], at: usize) -> (v: u32)
    requires
        at + 4 <= b@.len(),
    ensures
        v == le32(b@.skip(at as int)),
{
    (b[at] as u32) + (b[at + 1] as u32) * 0x100 + (b[at + 2] as u32) * 0x1_0000 + (b[at
        + 3] as u32) * 0x100_0000
}

/// Read a little-endian 64-bit value at `at`.
pub fn get_le64(b: &[u8], at: usize) -> (v: u64)
    requires
        at + 8 <= b@.len(),
    ensures
        v == le64(b@.skip(at as int)),
{
    let n: usize = b.len();
    let lo: u32 = get_le32(b, at);
    let hi: u32 = get_le32(b, at + 4);
    proof {
        assert(b@.skip(at as int).skip(4) =~= b@.skip(at + 4));
    }
    (lo as u64) + (hi as u64) * 0x1_0000_0000
}

/// The two big-endian bytes of `v`.
pub fn to_be16(v: u16) -> (r: [u8; 2])
    ensures
        r@ == be16_bytes(v),
{
    let r: [u8; 2] = [(v / 256) as u8, (v % 256) as u8];
    assert(r@ =~= be16_bytes(v));
    r
}

/// The four big-endian bytes of `v`.
pub fn to_be32(v: u32) -> (r: [u8; 4])
    ensures
        r@ == be32_bytes(v),
{
    let r: [u8; 4] = [
        (v / 0x100_0000) as u8,
        ((v / 0x1_0000) % 256) as u8,
        ((v / 0x100) % 256) as u8,
        (v % 256) as u8,
    ];
    assert(r@ =~= be32_bytes(v));
    r
}

/// The four little-endian bytes of `v`.
pub fn to_le32(v: u32) -> (r: [u8; 4])
    ensures
        r@ == le32_bytes(v),
{
    let r: [u8; 4] = [
        (v % 256) as u8,
        ((v / 0x100) % 256) as u8,
        ((v / 0x1_0000) % 256) as u8,
        (v / 0x100_0000) as u8,
    ];
    assert(r@ =~= le32_bytes(v));
    r
}

/// Append the bytes of `src` to `dst`.
pub fn append(dst: &mut Vec<u8>, src: &[u8])
    ensures
        final(dst)@ == old(dst)@ + src@,
{
    let n: usize = src.len();
    let mut i: usize = 0;
    while i < n
        invariant
            i <= n,
            n == src@.len(),
            dst@ == old(dst)@ + src@.take(i as int),
        decreases n - i,
    {
        dst.push(src[i]);
        proof {
            assert(src@.take(i + 1) =~= src@.take(i as int).push(src@[i as int]));
        }
        i = i + 1;
    }
    proof {
        assert(src@.take(n as int) =~= src@);
    }
}

/// Append the eight big-endian bytes of `v` to `dst`.
pub fn append_be64(dst: &mut Vec<u8>, v: u64)
    ensures
        final(dst)@ == old(dst)@ + be64_bytes(v),
{
    let hi: [u8; 4] = to_be32((v / 0x1_0000_0000) as u32);
    let lo: [u8; 4] = to_be32((v % 0x1_0000_0000) as u32);
    append(dst, hi.as_slice());
    append(dst, lo.as_slice());
    proof {
        assert(dst@ =~= old(dst)@ + be64_bytes(v));
    }
}

/// Append the sixteen big-endian bytes of `v` to `dst`.
pub fn append_be128(dst: &mut Vec<u8>, v: u128)
    ensures
        final(dst)@ == old(dst)@ + be128_bytes(v),
{
    append_be64(dst, (v / 0x1_0000_0000_0000_0000) as u64);
    append_be64(dst, (v % 0x1_0000_0000_0000_0000) as u64);
    proof {
        assert(dst@ =~= old(dst)@ + be128_bytes(v));
    }
}

/// Append the eight little-endian bytes of `v` to `dst`.
pub fn append_le64(dst: &mut Vec<u8>, v: u64)
    ensures
        final(dst)@ == old(dst)@ + le64_bytes(v),
{
    let lo: [u8; 4] = to_le32((v % 0x1_0000_0000) as u32);
    let hi: [u8; 4] = to_le32((v / 0x1_0000_0000) as u32);
    append(dst, lo.as_slice());
    append(dst, hi.as_slice());
    proof {
        assert(dst@ =~= old(dst)@ + le64_bytes(v));
    }
}

/// An integer whose bytes can be put in the opposite order.
pub trait SwapBytes: Sized {
    /// The integer with its bytes in the opposite order.
    spec fn swapped(self) -> Self;

    /// Swaps the bytes of the integer.
    fn swap(self) -> (r: Self)
        ensures
            r == self.swapped(),
    ;
}

impl SwapBytes for u8 {
    open spec fn swapped(self) -> u8 {
        self
    }

    fn swap(self) -> (r: u8) {
        self
    }
}

impl SwapBytes for u16 {
    open spec fn swapped(self) -> u16 {
        be16((self % 256) as u8, (self / 256) as u8)
    }

    fn swap(self) -> (r: u16) {
        (self % 256) * 256 + self / 256
    }
}

impl SwapBytes for u32 {
    open spec fn swapped(self) -> u32 {
        be32(le32_bytes(self))
    }

    fn swap(self) -> (r: u32) {
        let b: [u8; 4] = to_le32(self);
        get_be32(b.as_slice(), 0)
    }
}

impl SwapBytes for u64 {
    open spec fn swapped(self) -> u64 {
        be64(le64_bytes(self))
    }

    fn swap(self) -> (r: u64) {
        let mut b: Vec<u8> = Vec::new();
        append_le64(&mut b, self);
        get_be64(b.as_slice(), 0)
    }
}

/// Swapping the bytes of a 16-bit integer twice gives the integer.
pub proof fn law_swap16_twice(v: u16)
    ensures
        v.swapped().swapped() == v,
{
}

/// Swapping the bytes of a 32-bit integer gives the integer that its
/// big-endian bytes spell when they are read as little-endian.
pub proof fn law_swap32(v: u32)
    ensures
        le32(be32_bytes(v)) == v.swapped(),
        v.swapped().swapped() == v,
{
    lemma_split32(v);
    let w = v.swapped();
    lemma_split32(w);
    assert(le32_bytes(v).len() == 4);
}

} // verus!
