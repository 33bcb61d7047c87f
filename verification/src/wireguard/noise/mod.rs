//! The Noise IK handshake of WireGuard: Noise_IK_25519_ChaChaPoly_BLAKE2s
//! with a preshared key mixed in.

use vstd::prelude::*;

use crate::crypto::{x25519, x25519_public, x25519_public_spec, x25519_spec};
use crate::error::Error;
use crate::wireguard::packet::{Initiation, Response};
use crate::wireguard::tunnel::{Interface, Noise};
use aead::{opened, sealed, Sealed};
use chain::{derived, Chain, CHAIN_INITIAL};
use hash::mix;

pub mod aead;
pub mod chain;
pub mod hash;

verus! {

/// The state of a handshake between its messages: the transcript hash and
/// the chaining key.
pub ghost struct Transcript {
    pub hash: Seq<u8>,
    pub chain: Seq<u8>,
}

/// What an initiator makes of its keys: the fields of the initiation and
/// the state that it keeps.
pub ghost struct Started {
    pub ephemeral: Seq<u8>,
    pub pubkey: Seq<u8>,
    pub timestamp: Seq<u8>,
    pub state: Transcript,
}

/// The initiation of the holder of the static public key `local_pub` to
/// the peer with the static public key `peer_key`, with the ephemeral
/// secret `iek` and the timestamp `stamp`; `peer_hash` is the transcript
/// hash that handshakes to the peer start from, and `s_agree` what the two
/// static keys share.
pub open spec fn started(
    local_pub: Seq<u8>,
    peer_hash: Seq<u8>,
    peer_key: Seq<u8>,
    s_agree: Seq<u8>,
    iek: Seq<u8>,
    stamp: Seq<u8>,
) -> Started {
    let ephemeral = x25519_public_spec(iek);
    let h1 = mix(peer_hash, ephemeral);
    let c1 = derived(CHAIN_INITIAL@, ephemeral, 1);
    let dh = x25519_spec(iek, peer_key);
    let c2 = derived(c1, dh, 1);
    let k1 = derived(c1, dh, 2);
    let pubkey = sealed(local_pub, k1, h1);
    let h2 = mix(h1, pubkey);
    let c3 = derived(c2, s_agree, 1);
    let k2 = derived(c2, s_agree, 2);
    let timestamp = sealed(stamp, k2, h2);
    let h3 = mix(h2, timestamp);
    Started { ephemeral, pubkey, timestamp, state: Transcript { hash: h3, chain: c3 } }
}

/// What a responder learns from the first fields of an initiation: the
/// static public key that the initiator claims, and the state so far.
/// `None` where the sealed key does not open.
pub open spec fn claimed(
    local_key: Seq<u8>,
    local_hash: Seq<u8>,
    ephemeral: Seq<u8>,
    pubkey: Seq<u8>,
) -> Option<(Seq<u8>, Transcript)> {
    let h1 = mix(local_hash, ephemeral);
    let c1 = derived(CHAIN_INITIAL@, ephemeral, 1);
    let dh = x25519_spec(local_key, ephemeral);
    let c2 = derived(c1, dh, 1);
    let k1 = derived(c1, dh, 2);
    match opened(pubkey, k1, h1) {
        Some(s_pub) => Some((s_pub, Transcript { hash: mix(h1, pubkey), chain: c2 })),
        None => None,
    }
}

/// What a responder learns from the last field of an initiation: the
/// timestamp, and the state after the initiation. `None` where the sealed
/// timestamp does not open.
pub open spec fn stamped(t: Transcript, s_agree: Seq<u8>, timestamp: Seq<u8>) -> Option<
    (Seq<u8>, Transcript),
> {
    let c3 = derived(t.chain, s_agree, 1);
    let k2 = derived(t.chain, s_agree, 2);
    match opened(timestamp, k2, t.hash) {
        Some(stamp) => Some((stamp, Transcript { hash: mix(t.hash, timestamp), chain: c3 })),
        None => None,
    }
}

/// The state after the keys of a response were mixed in, and the key that
/// seals its last field: `ephemeral` is the ephemeral public key of the
/// responder, `dh_e` what the two ephemeral keys share, and `dh_s` what
/// the ephemeral key of the responder shares with the static key of the
/// initiator.
pub open spec fn answered(
    t: Transcript,
    ephemeral: Seq<u8>,
    dh_e: Seq<u8>,
    dh_s: Seq<u8>,
    preshared: Seq<u8>,
) -> (Transcript, Seq<u8>) {
    let h1 = mix(t.hash, ephemeral);
    let c1 = derived(t.chain, ephemeral, 1);
    let c2 = derived(c1, dh_e, 1);
    let c3 = derived(c2, dh_s, 1);
    let c4 = derived(c3, preshared, 1);
    let tau = derived(c3, preshared, 2);
    let k = derived(c3, preshared, 3);
    (Transcript { hash: mix(h1, tau), chain: c4 }, k)
}

/// The state of a handshake that an initiator has started.
#[derive(Clone, Copy)]
pub struct InitiatorHandshake {
    pub hash: crate::wireguard::noise::hash::Hash,
    pub chain: Chain,
    /// The ephemeral secret of the initiator.
    pub iek: [u8; 32],
}

/// The state of a handshake that a responder has taken in.
#[derive(Clone, Copy)]
pub struct ResponderHandshake {
    pub hash: crate::wireguard::noise::hash::Hash,
    pub chain: Chain,
    /// The ephemeral public key of the initiator.
    pub iek: [u8; 32],
}

impl InitiatorHandshake {
    /// Start a handshake with the peer `r`: make the initiation with the
    /// session index `idx`, the ephemeral secret `iek` and the timestamp `stamp`.
    pub fn create_initiation(i: &Interface, r: &Noise, idx: u32, iek: [u8; 32], stamp: [u8; 12]) -> (out:
        (InitiatorHandshake, Initiation))
        ensures
            ({
                let s = started(i.pubkey@, r.hash.0@, r.key@, r.s_agree@, iek@, stamp@);
                &&& out.1.idx == idx
                &&& out.1.ephemeral@ == s.ephemeral
                &&& out.1.pubkey@ == s.pubkey
                &&& out.1.timestamp@ == s.timestamp
                &&& out.0.hash.0@ == s.state.hash
                &&& out.0.chain.0@ == s.state.chain
                &&& out.0.iek == iek
            }),
    {
        let mut hash = r.hash;
        let mut chain = Chain::default();
        let ephemeral: [u8; 32] = x25519_public(&iek);
        hash.update(ephemeral.as_slice());
        chain.write(ephemeral.as_slice());
        let dh: [u8; 32] = x25519(&iek, &r.key);
        let k1: [u8; 32] = chain.kdf1(dh.as_slice());
        let f1: Sealed = Sealed::seal(i.pubkey.as_slice(), &k1, &mut hash);
        let k2: [u8; 32] = chain.kdf1(r.s_agree.as_slice());
        let f2: Sealed = Sealed::seal(stamp.as_slice(), &k2, &mut hash);
        let msg = Initiation {
            idx,
            ephemeral,
            pubkey: crate::utils::bytes::array_at::<48>(f1.0.as_slice(), 0),
            timestamp: crate::utils::bytes::array_at::<28>(f2.0.as_slice(), 0),
        };
        proof {
            assert(msg.pubkey@ =~= f1.0@);
            assert(msg.timestamp@ =~= f2.0@);
        }
        (InitiatorHandshake { hash, chain, iek }, msg)
    }

    /// What the response `msg` confirms: the chaining key at the end of
    /// the handshake, or `None` where its last field does not open.
    pub open spec fn confirmed(
        self,
        local_key: Seq<u8>,
        preshared: Seq<u8>,
        ephemeral: Seq<u8>,
        empty: Seq<u8>,
    ) -> Option<Seq<u8>> {
        let a = answered(
            Transcript { hash: self.hash.0@, chain: self.chain.0@ },
            ephemeral,
            x25519_spec(self.iek@, ephemeral),
            x25519_spec(local_key, ephemeral),
            preshared,
        );
        match opened(empty, a.1, a.0.hash) {
            Some(_) => Some(a.0.chain),
            None => None,
        }
    }

    /// Take in the response to the initiation. Hands back the chaining key
    /// at the end of the handshake.
    pub fn consume_response(self, i: &Interface, r: &Noise, msg: &Response) -> (out: Result<
        Chain,
        Error,
    >)
        ensures
            match out {
                Ok(c) => self.confirmed(i.key@, r.preshared@, msg.ephemeral@, msg.empty@) == Some(
                    c.0@,
                ),
                Err(e) => self.confirmed(i.key@, r.preshared@, msg.ephemeral@, msg.empty@) is None
                    && e == Error::DecryptErr,
            },
    {
        let mut hash = self.hash;
        let mut chain = self.chain;
        hash.update(msg.ephemeral.as_slice());
        chain.write(msg.ephemeral.as_slice());
        let dh_e: [u8; 32] = x25519(&self.iek, &msg.ephemeral);
        chain.write(dh_e.as_slice());
        let dh_s: [u8; 32] = x25519(&i.key, &msg.ephemeral);
        chain.write(dh_s.as_slice());
        let (t, k) = chain.kdf2(r.preshared.as_slice());
        hash.update(t.as_slice());
        let mut field: Vec<u8> = Vec::new();
        crate::utils::endian::append(&mut field, msg.empty.as_slice());
        match Sealed(field).open(&k, &mut hash) {
            Ok(_) => Ok(chain),
            Err(e) => Err(e),
        }
    }
}

impl ResponderHandshake {
    /// Take in the first fields of an initiation. Hands back the static
    /// public key that the initiator claims and the state so far.
    pub fn open_static(r: &Interface, msg: &Initiation) -> (out: Result<
        ([u8; 32], ResponderHandshake),
        Error,
    >)
        ensures
            match out {
                Ok(p) => {
                    &&& claimed(r.key@, r.hash.0@, msg.ephemeral@, msg.pubkey@) matches Some(c)
                    &&& p.0@ == c.0
                    &&& p.1.hash.0@ == c.1.hash
                    &&& p.1.chain.0@ == c.1.chain
                    &&& p.1.iek == msg.ephemeral
                },
                Err(e) => claimed(r.key@, r.hash.0@, msg.ephemeral@, msg.pubkey@) is None && e
                    == Error::DecryptErr,
            },
    {
        let mut hash = r.hash;
        let mut chain = Chain::default();
        hash.update(msg.ephemeral.as_slice());
        chain.write(msg.ephemeral.as_slice());
        let dh: [u8; 32] = x25519(&r.key, &msg.ephemeral);
        let k1: [u8; 32] = chain.kdf1(dh.as_slice());
        let mut field: Vec<u8> = Vec::new();
        crate::utils::endian::append(&mut field, msg.pubkey.as_slice());
        match Sealed(field).open(&k1, &mut hash) {
            Ok(s) => {
                let s_pub: [u8; 32] = crate::utils::bytes::array_at::<32>(s.as_slice(), 0);
                assert(s_pub@ =~= s@);
                Ok((s_pub, ResponderHandshake { hash, chain, iek: msg.ephemeral }))
            },
            Err(e) => Err(e),
        }
    }

    /// Take in the last field of an initiation. Hands back the timestamp
    /// and the state after the initiation.
    pub fn open_timestamp(self, s_agree: &[u8; 32], msg: &Initiation) -> (out: Result<
        ([u8; 12], ResponderHandshake),
        Error,
    >)
        ensures
            match out {
                Ok(p) => {
                    &&& stamped(
                        Transcript { hash: self.hash.0@, chain: self.chain.0@ },
                        s_agree@,
                        msg.timestamp@,
                    ) matches Some(c)
                    &&& p.0@ == c.0
                    &&& p.1.hash.0@ == c.1.hash
                    &&& p.1.chain.0@ == c.1.chain
                    &&& p.1.iek == self.iek
                },
                Err(e) => stamped(
                    Transcript { hash: self.hash.0@, chain: self.chain.0@ },
                    s_agree@,
                    msg.timestamp@,
                ) is None && e == Error::DecryptErr,
            },
    {
        let mut hash = self.hash;
        let mut chain = self.chain;
        let k2: [u8; 32] = chain.kdf1(s_agree.as_slice());
        let mut field: Vec<u8> = Vec::new();
        crate::utils::endian::append(&mut field, msg.timestamp.as_slice());
        match Sealed(field).open(&k2, &mut hash) {
            Ok(s) => {
                let stamp: [u8; 12] = crate::utils::bytes::array_at::<12>(s.as_slice(), 0);
                assert(stamp@ =~= s@);
                Ok((stamp, ResponderHandshake { hash, chain, iek: self.iek }))
            },
            Err(e) => Err(e),
        }
    }

    /// Answer the initiation of the peer `i`: make the response with the
    /// session index `idx` to the session index `rcv_idx`, with the
    /// ephemeral secret `rek`. Hands back the chaining key at the end of
    /// the handshake.
    pub fn create_response(self, i: &Noise, idx: u32, rcv_idx: u32, rek: [u8; 32]) -> (out: (
        Chain,
        Response,
    ))
        ensures
            ({
                let ephemeral = x25519_public_spec(rek@);
                let a = answered(
                    Transcript { hash: self.hash.0@, chain: self.chain.0@ },
                    ephemeral,
                    x25519_spec(rek@, self.iek@),
                    x25519_spec(rek@, i.key@),
                    i.preshared@,
                );
                &&& out.0.0@ == a.0.chain
                &&& out.1.idx == idx
                &&& out.1.rcv_idx == rcv_idx
                &&& out.1.ephemeral@ == ephemeral
                &&& out.1.empty@ == sealed(Seq::empty(), a.1, a.0.hash)
            }),
    {
        let mut hash = self.hash;
        let mut chain = self.chain;
        let ephemeral: [u8; 32] = x25519_public(&rek);
        hash.update(ephemeral.as_slice());
        chain.write(ephemeral.as_slice());
        let dh_e: [u8; 32] = x25519(&rek, &self.iek);
        chain.write(dh_e.as_slice());
        let dh_s: [u8; 32] = x25519(&rek, &i.key);
        chain.write(dh_s.as_slice());
        let (t, k) = chain.kdf2(i.preshared.as_slice());
        hash.update(t.as_slice());
        let none: [u8; 0] = [];
        assert(none@ =~= Seq::<u8>::empty());
        let f: Sealed = Sealed::seal(none.as_slice(), &k, &mut hash);
        let msg = Response {
            idx,
            rcv_idx,
            ephemeral,
            empty: crate::utils::bytes::array_at::<16>(f.0.as_slice(), 0),
        };
        proof {
            assert(msg.empty@ =~= f.0@);
        }
        (chain, msg)
    }
}

} // verus!
