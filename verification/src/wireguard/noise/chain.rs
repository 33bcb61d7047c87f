//! The chaining key of the handshake and the keys derived from it.

use vstd::prelude::*;

use crate::crypto::{hmac_blake2s, hmac_spec};
use crate::utils::bytes::joined;

verus! {

/// The chaining key from which every handshake starts.
pub const CHAIN_INITIAL: [u8; 32] = [
    0x60, 0xe2, 0x6d, 0xae, 0xf3, 0x27, 0xef, 0xc0, 0x2e, 0xc3, 0x35, 0xe2, 0xa0, 0x25, 0xd2, 0xd0,
    0x16, 0xeb, 0x42, 0x06, 0xf8, 0x72, 0x77, 0xf5, 0x2d, 0x38, 0xd1, 0x98, 0x8b, 0x78, 0xcd, 0x36,
];

/// The `i`-th output of the key derivation from the chaining key `chain`
/// and `input`: each output is the HMAC, under the HMAC of `input` under
/// the chaining key, of the output before it followed by the byte `i`. The
/// first output is the next chaining key.
pub open spec fn derived(chain: Seq<u8>, input: Seq<u8>, i: nat) -> Seq<u8>
    decreases i,
{
    if i == 0 {
        Seq::empty()
    } else {
        hmac_spec(hmac_spec(chain, input), derived(chain, input, (i - 1) as nat) + seq![i as u8])
    }
}

/// The `n` keys that a derivation hands out beside the next chaining key.
pub open spec fn keys(chain: Seq<u8>, input: Seq<u8>, n: nat) -> Seq<Seq<u8>> {
    Seq::new(n, |k: int| derived(chain, input, (k + 2) as nat))
}

#[derive(Clone, Copy)]
pub struct Chain(pub [u8; 32]);

impl Default for Chain {
    fn default() -> (c: Chain)
        ensures
            c.0 == CHAIN_INITIAL,
    {
        Chain(CHAIN_INITIAL)
    }
}

impl Chain {
    /// Derive the next chaining key and `n` keys from the chaining key and `input`.
    pub fn kdf(&mut self, input: &[u8], n: usize) -> (r: Vec<[u8; 32]>)
        requires
            n <= 253,
        ensures
            final(self).0@ == derived(old(self).0@, input@, 1),
            r@.len() == n,
            forall|k: int| 0 <= k < n ==> (#[trigger] r@[k])@ == keys(old(self).0@, input@, n as nat)[k],
    {
        let t0: [u8; 32] = hmac_blake2s(self.0.as_slice(), input);
        let ghost chain = self.0@;
        let one: [u8; 1] = [1];
        assert(one@ =~= Seq::<u8>::empty() + seq![1u8]);
        assert(derived(chain, input@, 0) =~= Seq::<u8>::empty());
        let mut last: [u8; 32] = hmac_blake2s(t0.as_slice(), one.as_slice());
        self.0 = last;
        let mut out: Vec<[u8; 32]> = Vec::new();
        let mut i: usize = 0;
        while i < n
            invariant
                0 <= i <= n <= 253,
                t0@ == hmac_spec(chain, input@),
                last@ == derived(chain, input@, (i + 1) as nat),
                out@.len() == i,
                forall|k: int|
                    0 <= k < i ==> (#[trigger] out@[k])@ == derived(chain, input@, (k + 2) as nat),
            decreases n - i,
        {
            let index: [u8; 1] = [(i + 2) as u8];
            let data: Vec<u8> = joined(last.as_slice(), index.as_slice());
            proof {
                assert(index@ =~= seq![((i + 2) as nat) as u8]);
            }
            last = hmac_blake2s(t0.as_slice(), data.as_slice());
            out.push(last);
            i = i + 1;
        }
        out
    }

    /// Mix `input` into the chaining key.
    pub fn write(&mut self, input: &[u8])
        ensures
            final(self).0@ == derived(old(self).0@, input@, 1),
    {
        let _ = self.kdf(input, 0);
    }

    /// Mix `input` into the chaining key and derive one key.
    pub fn kdf1(&mut self, input: &[u8]) -> (k: [u8; 32])
        ensures
            final(self).0@ == derived(old(self).0@, input@, 1),
            k@ == derived(old(self).0@, input@, 2),
    {
        let keys = self.kdf(input, 1);
        keys[0]
    }

    /// Mix `input` into the chaining key and derive two keys.
    pub fn kdf2(&mut self, input: &[u8]) -> (k: ([u8; 32], [u8; 32]))
        ensures
            final(self).0@ == derived(old(self).0@, input@, 1),
            k.0@ == derived(old(self).0@, input@, 2),
            k.1@ == derived(old(self).0@, input@, 3),
    {
        let keys = self.kdf(input, 2);
        (keys[0], keys[1])
    }

    /// Split the chaining key into the two transport keys: the first and
    /// the second output of a derivation from no input. The initiator
    /// sends under the first; the responder sends under the second.
    pub fn consume(self) -> (k: ([u8; 32], [u8; 32]))
        ensures
            k.0@ == derived(self.0@, Seq::empty(), 1),
            k.1@ == derived(self.0@, Seq::empty(), 2),
    {
        let mut chain = self;
        let empty: [u8; 0] = [];
        assert(empty@ =~= Seq::<u8>::empty());
        let t1: [u8; 32] = chain.kdf1(empty.as_slice());
        (chain.0, t1)
    }
}

} // verus!
