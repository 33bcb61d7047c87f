//! The two ends of a tunnel: the local interface with its static key, and
//! the peer with its sessions, its queue and its timers.

use vstd::prelude::*;

use super::mac::CookieMac;
use super::noise::hash::{mix, INITIAL};
use super::packet::Timestamp;
use crate::crypto::{
    blake2s_spec, tai64n_parse, tai64n_parse_spec, x25519, x25519_public, x25519_public_spec,
    x25519_spec,
};
use crate::error::Error;

verus! {

/// The local end: the static key pair and what is derived from it once.
#[derive(Clone, Copy)]
pub struct Interface {
    /// The keys of the MACs of the messages that arrive here.
    pub mac: CookieMac,
    /// The static private key.
    pub key: [u8; 32],
    /// The static public key.
    pub pubkey: [u8; 32],
    /// The transcript hash from which the handshakes start that others
    /// initiate to this interface.
    pub hash: crate::wireguard::noise::hash::Hash,
}

impl Interface {
    /// What is derived from the static key pair.
    pub open spec fn wf(&self) -> bool {
        &&& self.pubkey@ == x25519_public_spec(self.key@)
        &&& self.hash.0@ == mix(INITIAL@, self.pubkey@)
        &&& self.mac.mac1@ == blake2s_spec(super::mac::LABEL_MAC1@ + self.pubkey@)
        &&& self.mac.aead@ == blake2s_spec(super::mac::LABEL_COOKIE@ + self.pubkey@)
    }

    /// The local end with the static private key `s_key`.
    pub fn new(s_key: [u8; 32]) -> (i: Interface)
        ensures
            i.wf(),
            i.key == s_key,
            i.mac.mac2 is None,
    {
        let pubkey: [u8; 32] = x25519_public(&s_key);
        let mut hash = crate::wireguard::noise::hash::Hash::default();
        hash.update(pubkey.as_slice());
        let mac = CookieMac::new(&pubkey);
        Interface { key: s_key, pubkey, hash, mac }
    }
}

/// What is known of a peer for the handshake.
#[derive(Clone, Copy)]
pub struct Noise {
    /// The keys of the MACs of the messages that are sent to the peer.
    pub mac: CookieMac,
    /// The latest timestamp that an initiation of the peer carried.
    pub timestamp: Option<(u64, u32)>,
    /// The next local session index.
    pub idx_cur: u32,
    /// What the two static keys share.
    pub s_agree: [u8; 32],
    /// The transcript hash from which the handshakes start that are
    /// initiated to the peer.
    pub hash: crate::wireguard::noise::hash::Hash,
    /// The preshared key.
    pub preshared: [u8; 32],
    /// The static public key of the peer.
    pub key: [u8; 32],
}

/// Whether the label `a` is later than the label `b`: the seconds decide,
/// and the nanoseconds where the seconds are the same.
pub open spec fn later(a: (u64, u32), b: (u64, u32)) -> bool {
    a.0 > b.0 || (a.0 == b.0 && a.1 > b.1)
}

impl Noise {
    /// What is derived from the static keys.
    pub open spec fn wf(&self, i: &Interface) -> bool {
        &&& self.s_agree@ == x25519_spec(i.key@, self.key@)
        &&& self.hash.0@ == mix(INITIAL@, self.key@)
        &&& self.mac.mac1@ == blake2s_spec(super::mac::LABEL_MAC1@ + self.key@)
        &&& self.mac.aead@ == blake2s_spec(super::mac::LABEL_COOKIE@ + self.key@)
    }

    /// What is known of the peer with the static public key `key`, with
    /// whom `preshared` is shared. Local session indices count up from `idx`.
    pub fn new(i: &Interface, key: [u8; 32], preshared: [u8; 32], idx: u32) -> (n: Noise)
        ensures
            n.wf(i),
            n.key == key,
            n.preshared == preshared,
            n.idx_cur == idx,
            n.timestamp is None,
            n.mac.mac2 is None,
    {
        let mut hash = crate::wireguard::noise::hash::Hash::default();
        hash.update(key.as_slice());
        Noise {
            s_agree: x25519(&i.key, &key),
            key,
            idx_cur: idx,
            preshared,
            hash,
            timestamp: None,
            mac: CookieMac::new(&key),
        }
    }

    /// What becomes of the timestamp `ts` of an initiation: it is kept as
    /// the latest where it is a TAI64N label and later than the latest so
    /// far; a label that is none is malformed, and one that is not later
    /// is a replay.
    pub open spec fn stamp_verdict(&self, ts: Seq<u8>) -> Result<(u64, u32), Error> {
        match tai64n_parse_spec(ts) {
            None => Err(Error::MalformedPacket),
            Some(t) => match self.timestamp {
                Some(last) => if later(t, last) {
                    Ok(t)
                } else {
                    Err(Error::Replay)
                },
                None => Ok(t),
            },
        }
    }

    /// Take in the timestamp of an initiation. The timestamp kept never
    /// goes back.
    pub fn update_timestamp(&mut self, ts: Timestamp) -> (r: Result<(), Error>)
        ensures
            final(self).mac == old(self).mac,
            final(self).idx_cur == old(self).idx_cur,
            final(self).s_agree == old(self).s_agree,
            final(self).hash == old(self).hash,
            final(self).preshared == old(self).preshared,
            final(self).key == old(self).key,
            match r {
                Ok(()) => old(self).stamp_verdict(ts.bytes@) matches Ok(t) && final(self).timestamp
                    == Some(t),
                Err(e) => old(self).stamp_verdict(ts.bytes@) == Err::<(u64, u32), Error>(e)
                    && final(self).timestamp == old(self).timestamp,
            },
    {
        let t: (u64, u32) = match tai64n_parse(&ts.bytes) {
            Some(t) => t,
            None => {
                return Err(Error::MalformedPacket);
            },
        };
        match self.timestamp {
            Some(last) => {
                if !(t.0 > last.0 || (t.0 == last.0 && t.1 > last.1)) {
                    return Err(Error::Replay);
                }
            },
            None => {},
        }
        self.timestamp = Some(t);
        Ok(())
    }

    /// The timestamp kept never goes back: a timestamp that is taken in is
    /// later than the one kept before.
    pub proof fn law_timestamp_never_goes_back(&self, ts: Seq<u8>)
        ensures
            match self.stamp_verdict(ts) {
                Ok(t) => self.timestamp matches Some(last) ==> later(t, last),
                Err(_) => true,
            },
    {
    }

    /// Hand out the next local session index. The indices count up and
    /// wrap around.
    pub fn new_idx(&mut self) -> (idx: u32)
        ensures
            idx == old(self).idx_cur,
            final(self).idx_cur == (if old(self).idx_cur == u32::MAX {
                0u32
            } else {
                (old(self).idx_cur + 1) as u32
            }),
            final(self).mac == old(self).mac,
            final(self).timestamp == old(self).timestamp,
            final(self).s_agree == old(self).s_agree,
            final(self).hash == old(self).hash,
            final(self).preshared == old(self).preshared,
            final(self).key == old(self).key,
    {
        let idx: u32 = self.idx_cur;
        self.idx_cur = if idx == u32::MAX {
            0
        } else {
            idx + 1
        };
        idx
    }
}

} // verus!
