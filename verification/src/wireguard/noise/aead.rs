//! Sealing and opening the encrypted fields of the handshake messages:
//! ChaCha20-Poly1305 under a nonce of zero, bound to the transcript hash.

use vstd::prelude::*;

use super::hash::mix;
use crate::crypto::{chacha_open, chacha_open_spec, chacha_seal, chacha_seal_spec, TAG_LEN};
use crate::error::Error;
use crate::utils::bytes::{array_at, part};
use crate::utils::endian::append;

verus! {

/// The nonce of every handshake field: twelve zero bytes.
pub open spec fn zero_nonce() -> Seq<u8> {
    Seq::new(12, |i: int| 0u8)
}

/// The field that seals `plain` under `key` with the transcript hash `hash`
/// as associated data: the ciphertext and its tag.
pub open spec fn sealed(plain: Seq<u8>, key: Seq<u8>, hash: Seq<u8>) -> Seq<u8> {
    let pair = chacha_seal_spec(key, zero_nonce(), hash, plain);
    pair.0 + pair.1
}

/// What the field `field` opens to under `key` with the transcript hash
/// `hash` as associated data; `None` where it is shorter than a tag or its
/// tag does not verify.
pub open spec fn opened(field: Seq<u8>, key: Seq<u8>, hash: Seq<u8>) -> Option<Seq<u8>> {
    if field.len() < TAG_LEN {
        None
    } else {
        chacha_open_spec(
            key,
            zero_nonce(),
            hash,
            field.take(field.len() - TAG_LEN),
            field.skip(field.len() - TAG_LEN),
        )
    }
}

/// An encrypted field of a handshake message.
pub struct Sealed(pub Vec<u8>);

impl Sealed {
    /// Seal `plain` under `key`, and mix the field into the transcript hash.
    pub fn seal(plain: &[u8], key: &[u8; 32], hash: &mut crate::wireguard::noise::hash::Hash) -> (r: Sealed)
        requires
            plain@.len() <= 0xFFFF,
        ensures
            r.0@ == sealed(plain@, key@, old(hash).0@),
            r.0@.len() == plain@.len() + TAG_LEN,
            opened(r.0@, key@, old(hash).0@) == Some(plain@),
            final(hash).0@ == mix(old(hash).0@, r.0@),
    {
        let nonce: [u8; 12] = [0u8;12];
        assert(nonce@ =~= zero_nonce());
        let (cipher, tag) = chacha_seal(key, &nonce, hash.0.as_slice(), plain);
        let mut field: Vec<u8> = cipher;
        append(&mut field, tag.as_slice());
        proof {
            assert(field@.take(field@.len() - TAG_LEN) =~= cipher@);
            assert(field@.skip(field@.len() - TAG_LEN) =~= tag@);
        }
        hash.update(field.as_slice());
        Sealed(field)
    }

    /// Open the field under `key`, and mix the field into the transcript
    /// hash, whether it opens or not.
    pub fn open(&self, key: &[u8; 32], hash: &mut crate::wireguard::noise::hash::Hash) -> (r: Result<Vec<u8>, Error>)
        ensures
            final(hash).0@ == mix(old(hash).0@, self.0@),
            match r {
                Ok(p) => opened(self.0@, key@, old(hash).0@) == Some(p@) && p@.len() + TAG_LEN
                    == self.0@.len(),
                Err(e) => opened(self.0@, key@, old(hash).0@) is None && e == Error::DecryptErr,
            },
    {
        let aad: [u8; 32] = hash.0;
        hash.update(self.0.as_slice());
        let n: usize = self.0.len();
        if n < TAG_LEN {
            return Err(Error::DecryptErr);
        }
        let nonce: [u8; 12] = [0u8;12];
        assert(nonce@ =~= zero_nonce());
        let tag: [u8; 16] = array_at::<16>(self.0.as_slice(), n - TAG_LEN);
        let cipher: &[u8] = part(self.0.as_slice(), 0, n - TAG_LEN);
        proof {
            assert(cipher@ =~= self.0@.take(n - TAG_LEN));
            assert(tag@ =~= self.0@.skip(n - TAG_LEN));
        }
        match chacha_open(key, &nonce, aad.as_slice(), cipher, &tag) {
            Some(p) => Ok(p),
            None => Err(Error::DecryptErr),
        }
    }
}

} // verus!
