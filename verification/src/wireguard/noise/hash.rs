//! The running hash of the handshake transcript.

use vstd::prelude::*;

use crate::crypto::{blake2s, blake2s_spec};
use crate::utils::bytes::joined;

verus! {

/// The hash of the name of the protocol and of its prologue, from which
/// every handshake starts.
pub const INITIAL: [u8; 32] = [
    0x22, 0x11, 0xb3, 0x61, 0x08, 0x1a, 0xc5, 0x66, 0x69, 0x12, 0x43, 0xdb, 0x45, 0x8a, 0xd5, 0x32,
    0x2d, 0x9c, 0x6c, 0x66, 0x22, 0x93, 0xe8, 0xb7, 0x0e, 0xe1, 0x9c, 0x65, 0xba, 0x07, 0x9e, 0xf3,
];

/// The hash after `data` was mixed into the hash `h`.
pub open spec fn mix(h: Seq<u8>, data: Seq<u8>) -> Seq<u8> {
    blake2s_spec(h + data)
}

#[derive(Clone, Copy)]
pub struct Hash(pub [u8; 32]);

impl Default for Hash {
    fn default() -> (h: Hash)
        ensures
            h.0 == INITIAL,
    {
        Hash(INITIAL)
    }
}

impl Hash {
    /// Mix `data` into the hash: the hash becomes the BLAKE2s digest of
    /// itself followed by `data`.
    pub fn update(&mut self, data: &[u8])
        ensures
            final(self).0@ == mix(old(self).0@, data@),
    {
        let input: Vec<u8> = joined(self.0.as_slice(), data);
        self.0 = blake2s(input.as_slice());
    }
}

} // verus!
