//! The internet checksum of RFC 1071, used by IP, UDP and TCP: the ones'
//! complement of the ones' complement sum of the 16-bit words of the data.

use vstd::prelude::*;

verus! {

/// The sum of the 16-bit big-endian words of `b`. Where the length is odd,
/// the last byte is the high half of a word whose low half is zero.
pub open spec fn word_sum(b: Seq<u8>) -> nat
    decreases b.len(),
{
    if b.len() == 0 {
        0
    } else if b.len() == 1 {
        (b[0] as nat) * 256
    } else {
        (b[0] as nat) * 256 + (b[1] as nat) + word_sum(b.skip(2))
    }
}

/// The ones' complement sum that stands for a plain sum `total`: zero for
/// zero, else the value in `1..=0xFFFF` that is congruent to `total`
/// modulo `0xFFFF`.
pub open spec fn fold(total: nat) -> nat {
    if total == 0 {
        0
    } else {
        (((total - 1) % 0xFFFF) + 1) as nat
    }
}

/// The two bytes of the checksum over data whose words sum to `total`.
pub open spec fn checksum_bytes(total: nat) -> Seq<u8> {
    let v = 0xFFFF - fold(total);
    seq![(v / 256) as u8, (v % 256) as u8]
}

/// Adding a multiple of `0xFFFF` to a sum that is not zero leaves its fold as it is.
pub proof fn lemma_fold_multiple(x: nat, k: nat)
    requires
        x > 0,
    ensures
        fold(x + 0xFFFF * k) == fold(x),
    decreases k,
{
    if k > 0 {
        lemma_fold_multiple(x, (k - 1) as nat);
        assert(x + 0xFFFF * k == (x + 0xFFFF * (k - 1)) + 0xFFFF) by (nonlinear_arith);
    }
}

/// A fold lies in `0..=0xFFFF`, is zero only for zero, and folds to itself.
pub proof fn lemma_fold_range(x: nat)
    ensures
        fold(x) <= 0xFFFF,
        fold(x) == 0 <==> x == 0,
        fold(fold(x)) == fold(x),
        x <= 0xFFFF ==> fold(x) == x,
{
}

/// Folding one summand first does not change the fold of a sum.
pub proof fn lemma_fold_add(a: nat, b: nat)
    ensures
        fold(fold(a) + b) == fold(a + b),
{
    if a > 0 {
        let k = ((a - 1) / 0xFFFF) as nat;
        assert(a == fold(a) + 0xFFFF * k);
        lemma_fold_multiple(fold(a) + b, k);
        assert(fold(a) + b + 0xFFFF * k == a + b);
    }
}

/// Carrying the part of a sum above `base - 1` back into the low part keeps
/// the fold, for a base that is one more than a multiple of `0xFFFF`.
proof fn lemma_fold_carry(x: nat, base: nat, m: nat)
    requires
        base == 0xFFFF * m + 1,
    ensures
        fold(x / base + x % base) == fold(x),
{
    let q = x / base;
    let r = x % base;
    assert(x == q * base + r) by (nonlinear_arith)
        requires
            q == x / base,
            r == x % base,
            base > 0,
    ;
    if q + r > 0 {
        assert(q * base + r == (q + r) + 0xFFFF * (q * m)) by (nonlinear_arith)
            requires
                base == 0xFFFF * m + 1,
        ;
        lemma_fold_multiple(q + r, q * m);
    } else {
        assert(q * base == 0) by (nonlinear_arith)
            requires
                q == 0,
        ;
    }
}

/// The word sum of two pieces of data laid end to end, the first of even length.
pub proof fn lemma_word_sum_concat(a: Seq<u8>, b: Seq<u8>)
    requires
        a.len() % 2 == 0,
    ensures
        word_sum(a + b) == word_sum(a) + word_sum(b),
    decreases a.len(),
{
    if a.len() == 0 {
        assert(a + b =~= b);
    } else {
        assert((a + b).skip(2) =~= a.skip(2) + b);
        lemma_word_sum_concat(a.skip(2), b);
    }
}

/// Zero bytes at the end of data add nothing to its word sum.
pub proof fn lemma_word_sum_zero_tail(a: Seq<u8>, n: nat)
    ensures
        word_sum(a + Seq::new(n, |i: int| 0u8)) == word_sum(a),
    decreases a.len() + n,
{
    let z = Seq::new(n, |i: int| 0u8);
    let az = a + z;
    if n == 0 {
        assert(az =~= a);
    } else if a.len() == 0 {
        if n == 1 {
        } else {
            assert(az.skip(2) =~= Seq::<u8>::empty() + Seq::new((n - 2) as nat, |i: int| 0u8));
            lemma_word_sum_zero_tail(Seq::<u8>::empty(), (n - 2) as nat);
        }
    } else if a.len() == 1 {
        assert(az.skip(2) =~= Seq::<u8>::empty() + Seq::new((n - 1) as nat, |i: int| 0u8));
        lemma_word_sum_zero_tail(Seq::<u8>::empty(), (n - 1) as nat);
    } else {
        assert(az.skip(2) =~= a.skip(2) + z);
        lemma_word_sum_zero_tail(a.skip(2), n);
    }
}

/// The word sum of four bytes.
pub proof fn lemma_word_sum_four(w: Seq<u8>)
    requires
        w.len() == 4,
    ensures
        word_sum(w) == (w[0] as nat) * 256 + (w[1] as nat) + (w[2] as nat) * 256 + (w[3] as nat),
{
    let t = w.skip(2);
    assert(t.len() == 2);
    assert(t[0] == w[2] && t[1] == w[3]);
    assert(t.skip(2).len() == 0);
    assert(word_sum(t) == (t[0] as nat) * 256 + (t[1] as nat) + word_sum(t.skip(2)));
}

/// The weight of the byte at place `i` within its word.
pub open spec fn weight(i: int) -> int {
    if i % 2 == 0 {
        256
    } else {
        1
    }
}

/// Changing one byte moves the word sum by the change of the byte times its weight.
pub proof fn lemma_word_sum_update(b: Seq<u8>, i: int, v: u8)
    requires
        0 <= i < b.len(),
    ensures
        word_sum(b.update(i, v)) == word_sum(b) + weight(i) * (v - b[i]),
    decreases b.len(),
{
    let c = b.update(i, v);
    if i >= 2 {
        assert(c.skip(2) =~= b.skip(2).update(i - 2, v));
        lemma_word_sum_update(b.skip(2), i - 2, v);
    } else if b.len() >= 2 {
        assert(c.skip(2) =~= b.skip(2));
    }
}

/// Writing the checksum of data into a zeroed field of the data, at an even
/// place, gives data whose ones' complement sum is `0xFFFF`: the receiver
/// computes a checksum of zero over it.
pub proof fn lemma_sealed_sum(b: Seq<u8>, i: int)
    requires
        0 <= i,
        i + 1 < b.len(),
        i % 2 == 0,
        b[i] == 0,
        b[i + 1] == 0,
    ensures
        ({
            let c = checksum_bytes(word_sum(b));
            fold(word_sum(b.update(i, c[0]).update(i + 1, c[1]))) == 0xFFFF
        }),
{
    let total = word_sum(b);
    let c = checksum_bytes(total);
    let v = (0xFFFF - fold(total)) as nat;
    lemma_fold_range(total);
    lemma_word_sum_update(b, i, c[0]);
    lemma_word_sum_update(b.update(i, c[0]), i + 1, c[1]);
    assert(word_sum(b.update(i, c[0]).update(i + 1, c[1])) == total + v);
    if total > 0 {
        let k = ((total - 1) / 0xFFFF) as nat;
        assert(total == fold(total) + 0xFFFF * k);
        lemma_fold_multiple(0xFFFF, k);
        assert(total + v == 0xFFFF + 0xFFFF * k);
    }
}

/// The same for data that are summed together with other words, which add
/// up to `extra`: a pseudo-header.
pub proof fn lemma_sealed_sum_with(b: Seq<u8>, i: int, extra: nat)
    requires
        0 <= i,
        i + 1 < b.len(),
        i % 2 == 0,
        b[i] == 0,
        b[i + 1] == 0,
    ensures
        ({
            let c = checksum_bytes(extra + word_sum(b));
            fold(extra + word_sum(b.update(i, c[0]).update(i + 1, c[1]))) == 0xFFFF
        }),
{
    let total = extra + word_sum(b);
    let c = checksum_bytes(total);
    let v = (0xFFFF - fold(total)) as nat;
    lemma_fold_range(total);
    lemma_word_sum_update(b, i, c[0]);
    lemma_word_sum_update(b.update(i, c[0]), i + 1, c[1]);
    assert(extra + word_sum(b.update(i, c[0]).update(i + 1, c[1])) == total + v);
    if total > 0 {
        let k = ((total - 1) / 0xFFFF) as nat;
        assert(total == fold(total) + 0xFFFF * k);
        lemma_fold_multiple(0xFFFF, k);
        assert(total + v == 0xFFFF + 0xFFFF * k);
    }
}

/// Moving a sum whose fold is `0xFFFF` up or down by a power of two below
/// `0x10000` gives a sum whose fold is not `0xFFFF`.
pub proof fn lemma_fold_off_by_power(total: nat, delta: int)
    requires
        fold(total) == 0xFFFF,
        delta == 1 || delta == 2 || delta == 4 || delta == 8 || delta == 16 || delta == 32 || delta
            == 64 || delta == 128 || delta == 256 || delta == 512 || delta == 1024 || delta == 2048
            || delta == 4096 || delta == 8192 || delta == 16384 || delta == 32768,
    ensures
        total - delta > 0,
        fold((total + delta) as nat) != 0xFFFF,
        fold((total - delta) as nat) != 0xFFFF,
{
}

/// The running state of a checksum calculation.
#[derive(Clone, Copy)]
pub struct Checksum {
    acc: u64,
}

impl View for Checksum {
    type V = nat;

    /// The ones' complement sum of all that was pushed so far.
    closed spec fn view(&self) -> nat {
        fold(self.acc as nat)
    }
}

impl Default for Checksum {
    /// A calculation over no data.
    fn default() -> (c: Checksum)
        ensures
            c@ == 0,
    {
        Checksum { acc: 0 }
    }
}

impl Checksum {
    /// A calculation holds a ones' complement sum: a value of 16 bits.
    pub proof fn lemma_view_range(&self)
        ensures
            self@ <= 0xFFFF,
    {
    }

    /// Create a calculation over `buffer`.
    pub fn of(buffer: &[u8]) -> (c: Checksum)
        ensures
            c@ == fold(word_sum(buffer@)),
    {
        let mut csum = Checksum { acc: 0 };
        csum.push(buffer);
        csum
    }

    /// Create a calculation initialised with a word of four bytes.
    pub fn with(word: &[u8; 4]) -> (c: Checksum)
        ensures
            c@ == fold(word_sum(word@)),
    {
        let mut csum = Checksum { acc: 0 };
        csum.push_chunk(word);
        csum
    }

    /// Add bytes to the calculation; a last odd byte is padded with zero.
    pub fn push(&mut self, buffer: &[u8])
        ensures
            final(self)@ == fold(old(self)@ + word_sum(buffer@)),
    {
        let n: usize = buffer.len();
        let mut i: usize = 0;
        proof {
            assert(buffer@.take(0) =~= Seq::<u8>::empty());
            lemma_fold_range(old(self).acc as nat);
        }
        while n - i >= 4
            invariant
                i <= n,
                n == buffer@.len(),
                i % 4 == 0,
                self@ == fold(old(self)@ + word_sum(buffer@.take(i as int))),
            decreases n - i,
        {
            let word: [u8; 4] = [buffer[i], buffer[i + 1], buffer[i + 2], buffer[i + 3]];
            let ghost before = self@;
            self.push_chunk(&word);
            proof {
                let head = buffer@.take(i as int);
                assert(buffer@.take(i + 4) =~= head + word@);
                lemma_word_sum_concat(head, word@);
                lemma_fold_add(old(self)@ + word_sum(head), word_sum(word@));
            }
            i = i + 4;
        }
        let rem: usize = n - i;
        if rem != 0 {
            let b0: u8 = buffer[i];
            let b1: u8 = if rem > 1 {
                buffer[i + 1]
            } else {
                0
            };
            let b2: u8 = if rem > 2 {
                buffer[i + 2]
            } else {
                0
            };
            let word: [u8; 4] = [b0, b1, b2, 0];
            self.push_chunk(&word);
            proof {
                let head = buffer@.take(i as int);
                let tail = buffer@.skip(i as int);
                let zeros = Seq::new((4 - rem) as nat, |k: int| 0u8);
                assert(word@ =~= tail + zeros);
                assert(buffer@ =~= head + tail);
                lemma_word_sum_zero_tail(tail, (4 - rem) as nat);
                lemma_word_sum_concat(head, tail);
                lemma_fold_add(old(self)@ + word_sum(head), word_sum(word@));
            }
        } else {
            assert(buffer@.take(i as int) =~= buffer@);
        }
    }

    /// Add a single word of four bytes to the calculation.
    pub fn push_chunk(&mut self, word: &[u8; 4])
        ensures
            final(self)@ == fold(old(self)@ + word_sum(word@)),
    {
        let hi: u64 = (word[0] as u64) * 256 + (word[1] as u64);
        let lo: u64 = (word[2] as u64) * 256 + (word[3] as u64);
        if self.acc >= 0x1_0000_0000_0000 {
            proof {
                lemma_fold_carry(self.acc as nat, 0x1_0000_0000, 0x1_0001);
            }
            self.acc = self.acc / 0x1_0000_0000 + self.acc % 0x1_0000_0000;
        }
        proof {
            lemma_word_sum_four(word@);
            lemma_fold_add(self.acc as nat, (hi + lo) as nat);
        }
        self.acc = self.acc + hi + lo;
    }

    /// Whether the data pushed so far carry their own checksum: whether
    /// their ones' complement sum is `0xFFFF`, so that the checksum a
    /// receiver computes over them is zero.
    pub fn verifies(self) -> (ok: bool)
        ensures
            ok == (self@ == 0xFFFF),
    {
        proof {
            lemma_fold_range(self.acc as nat);
        }
        let r: [u8; 2] = self.end();
        assert(r@[0] == checksum_bytes(self@)[0] && r@[1] == checksum_bytes(self@)[1]);
        r[0] == 0 && r[1] == 0
    }

    /// Finish the calculation and return the checksum in the order of its
    /// bytes on the wire.
    pub fn end(self) -> (r: [u8; 2])
        ensures
            r@ == checksum_bytes(self@),
    {
        proof {
            lemma_fold_range(self.acc as nat);
        }
        let a: u64 = self.acc / 0x1_0000_0000 + self.acc % 0x1_0000_0000;
        let b: u64 = a / 0x1_0000 + a % 0x1_0000;
        let c: u64 = b / 0x1_0000 + b % 0x1_0000;
        let d: u64 = c / 0x1_0000 + c % 0x1_0000;
        proof {
            lemma_fold_carry(self.acc as nat, 0x1_0000_0000, 0x1_0001);
            lemma_fold_carry(a as nat, 0x1_0000, 1);
            lemma_fold_carry(b as nat, 0x1_0000, 1);
            lemma_fold_carry(c as nat, 0x1_0000, 1);
            lemma_fold_range(d as nat);
        }
        let v: u64 = 0xFFFF - d;
        let r: [u8; 2] = [(v / 256) as u8, (v % 256) as u8];
        proof {
            assert(r@ =~= checksum_bytes(self@));
        }
        r
    }
}

} // verus!
