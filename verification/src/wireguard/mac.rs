//! The two MACs that close every handshake message, and the cookie that
//! the second of them is keyed with.

use vstd::prelude::*;

use super::packet::Cookie;
use crate::crypto::{
    blake2s, blake2s_mac, blake2s_mac_spec, blake2s_spec, xchacha_open, xchacha_open_spec,
};
use crate::error::Error;
use crate::utils::bytes::{all_zero, array_at, joined, part, same};

verus! {

/// The label that is hashed with a public key into the key of the first MAC.
pub const LABEL_MAC1: [u8; 8] = [0x6d, 0x61, 0x63, 0x31, 0x2d, 0x2d, 0x2d, 0x2d];

/// The label that is hashed with a public key into the key that opens cookies.
pub const LABEL_COOKIE: [u8; 8] = [0x63, 0x6f, 0x6f, 0x6b, 0x69, 0x65, 0x2d, 0x2d];

/// For how long a cookie is good, in nanoseconds: 120 seconds.
pub const COOKIE_LIFETIME: u64 = 120_000_000_000;

/// The first MAC of a handshake message that was sent.
#[derive(Clone, Copy)]
pub struct Mac1(pub [u8; 16]);

/// A cookie and the time at which it arrived.
#[derive(Clone, Copy)]
pub struct Tau {
    pub value: [u8; 16],
    pub time: u64,
}

/// The keys of the two MACs for the messages that one public key receives.
#[derive(Clone, Copy)]
pub struct CookieMac {
    /// The key of the first MAC.
    pub mac1: [u8; 32],
    /// The last cookie received, which keys the second MAC while it is good.
    pub mac2: Option<Tau>,
    /// The key that opens cookies.
    pub aead: [u8; 32],
}

/// Sixteen zero bytes: the second MAC where no good cookie is held.
pub open spec fn no_mac() -> Seq<u8> {
    Seq::new(16, |i: int| 0u8)
}

impl CookieMac {
    /// The cookie that is good at `now`, if any: one that arrived less
    /// than 120 seconds ago.
    pub open spec fn good(&self, now: u64) -> Option<Seq<u8>> {
        match self.mac2 {
            Some(t) => if now >= t.time && now - t.time >= COOKIE_LIFETIME {
                None
            } else {
                Some(t.value@)
            },
            None => None,
        }
    }

    /// The same keys after a cookie that is no longer good at `now` was forgotten.
    pub open spec fn swept(self, now: u64) -> CookieMac {
        if self.good(now) is None {
            CookieMac { mac2: None, ..self }
        } else {
            self
        }
    }

    /// The second MAC that belongs under `data` at `now`.
    pub open spec fn mac2_for(&self, now: u64, data: Seq<u8>) -> Seq<u8> {
        match self.good(now) {
            Some(v) => blake2s_mac_spec(v, data),
            None => no_mac(),
        }
    }

    /// Whether the MACs at the end of `bytes` are those that belong there at `now`.
    pub open spec fn verifies(&self, now: u64, bytes: Seq<u8>) -> bool {
        let m1 = bytes.len() - 32;
        let m2 = bytes.len() - 16;
        &&& bytes.len() >= 32
        &&& bytes.subrange(m1, m2) == blake2s_mac_spec(self.mac1@, bytes.take(m1))
        &&& bytes.skip(m2) == self.mac2_for(now, bytes.take(m2))
    }

    /// The keys for the messages that the holder of the public key `key` receives.
    pub fn new(key: &[u8; 32]) -> (m: CookieMac)
        ensures
            m.mac1@ == blake2s_spec(LABEL_MAC1@ + key@),
            m.aead@ == blake2s_spec(LABEL_COOKIE@ + key@),
            m.mac2 is None,
    {
        let a: Vec<u8> = joined(LABEL_MAC1.as_slice(), key.as_slice());
        let b: Vec<u8> = joined(LABEL_COOKIE.as_slice(), key.as_slice());
        CookieMac { mac1: blake2s(a.as_slice()), mac2: None, aead: blake2s(b.as_slice()) }
    }

    /// The cookie that is good at `now`, if any. A cookie that is no
    /// longer good is forgotten.
    pub fn tau(&mut self, now: u64) -> (r: Option<[u8; 16]>)
        ensures
            *final(self) == old(self).swept(now),
            match r {
                Some(v) => old(self).good(now) == Some(v@),
                None => old(self).good(now) is None,
            },
    {
        match self.mac2 {
            None => None,
            Some(t) => {
                if now >= t.time && now - t.time >= COOKIE_LIFETIME {
                    self.mac2 = None;
                    None
                } else {
                    Some(t.value)
                }
            },
        }
    }

    /// Check the two MACs at the end of a handshake message that arrived.
    pub fn check(&mut self, now: u64, bytes: &[u8]) -> (r: Result<(), Error>)
        ensures
            *final(self) == (if bytes@.len() < 32 {
                *old(self)
            } else {
                old(self).swept(now)
            }),
            r == (if bytes@.len() < 32 {
                Err::<(), Error>(Error::MalformedPacket)
            } else if old(self).verifies(now, bytes@) {
                Ok::<(), Error>(())
            } else {
                Err::<(), Error>(Error::MacErr)
            }),
    {
        let n: usize = bytes.len();
        if n < 32 {
            return Err(Error::MalformedPacket);
        }
        let m1: usize = n - 32;
        let m2: usize = n - 16;
        let mac1: [u8; 16] = blake2s_mac(self.mac1.as_slice(), part(bytes, 0, m1));
        assert(bytes@.subrange(0, m1 as int) =~= bytes@.take(m1 as int));
        assert(bytes@.subrange(0, m2 as int) =~= bytes@.take(m2 as int));
        assert(bytes@.subrange(m2 as int, n as int) =~= bytes@.skip(m2 as int));
        let ok1: bool = same(mac1.as_slice(), part(bytes, m1, m2));
        let ok2: bool = match self.tau(now) {
            Some(v) => {
                let mac2: [u8; 16] = blake2s_mac(v.as_slice(), part(bytes, 0, m2));
                same(mac2.as_slice(), part(bytes, m2, n))
            },
            None => all_zero(part(bytes, m2, n)),
        };
        if ok1 && ok2 {
            Ok(())
        } else {
            Err(Error::MacErr)
        }
    }

    /// Compute the two MACs that close the handshake message `data`.
    pub fn write(&mut self, now: u64, data: &[u8]) -> (r: (Mac1, [u8; 16]))
        ensures
            *final(self) == old(self).swept(now),
            r.0.0@ == blake2s_mac_spec(old(self).mac1@, data@),
            r.1@ == old(self).mac2_for(now, data@ + r.0.0@),
            final(self).verifies(now, data@ + r.0.0@ + r.1@),
    {
        let mac1: [u8; 16] = blake2s_mac(self.mac1.as_slice(), data);
        let covered: Vec<u8> = joined(data, mac1.as_slice());
        let mac2: [u8; 16] = match self.tau(now) {
            Some(v) => blake2s_mac(v.as_slice(), covered.as_slice()),
            None => {
                let z: [u8; 16] = [0u8;16];
                assert(z@ =~= no_mac());
                z
            },
        };
        proof {
            let all = data@ + mac1@ + mac2@;
            assert(all.take(all.len() - 32) =~= data@);
            assert(all.subrange(all.len() - 32, all.len() - 16) =~= mac1@);
            assert(all.take(all.len() - 16) =~= data@ + mac1@);
            assert(all.skip(all.len() - 16) =~= mac2@);
        }
        (Mac1(mac1), mac2)
    }

    /// What the cookie message `msg` opens to, as a reply to the message
    /// whose first MAC was `last_mac`.
    pub open spec fn cookie_of(&self, msg: Cookie, last_mac: Mac1) -> Option<Seq<u8>> {
        xchacha_open_spec(
            self.aead@,
            msg.nonce@,
            last_mac.0@,
            msg.cookie@.take(16),
            msg.cookie@.skip(16),
        )
    }

    /// Take the cookie out of a cookie message that replies to the message
    /// whose first MAC was `last_mac`, and hold it from `now` on.
    pub fn handle_cookie(&mut self, now: u64, msg: &Cookie, last_mac: &Mac1) -> (r: Result<
        (),
        Error,
    >)
        ensures
            final(self).mac1 == old(self).mac1,
            final(self).aead == old(self).aead,
            match r {
                Ok(()) => {
                    &&& final(self).mac2 matches Some(t)
                    &&& old(self).cookie_of(*msg, *last_mac) == Some(t.value@)
                    &&& t.time == now
                },
                Err(e) => {
                    &&& e == Error::DecryptErr
                    &&& old(self).cookie_of(*msg, *last_mac) is None
                    &&& final(self).mac2 == old(self).mac2
                },
            },
    {
        let tag: [u8; 16] = array_at::<16>(msg.cookie.as_slice(), 16);
        let cipher: &[u8] = part(msg.cookie.as_slice(), 0, 16);
        proof {
            assert(cipher@ =~= msg.cookie@.take(16));
            assert(tag@ =~= msg.cookie@.skip(16));
        }
        match xchacha_open(&self.aead, &msg.nonce, last_mac.0.as_slice(), cipher, &tag) {
            Some(v) => {
                let value: [u8; 16] = array_at::<16>(v.as_slice(), 0);
                assert(value@ =~= v@);
                self.mac2 = Some(Tau { value, time: now });
                Ok(())
            },
            None => Err(Error::DecryptErr),
        }
    }
}

} // verus!
