//! The handshake messages, derived step by step from the primitives as the
//! WireGuard whitepaper lays them out, and held against what the library
//! writes.

use blake2::digest::consts::U16;
use blake2::{Blake2s256, Blake2sMac, Digest};
use chacha20poly1305::aead::AeadInPlace;
use chacha20poly1305::{ChaCha20Poly1305, KeyInit};
use hmac::{Mac, SimpleHmac};
use wgstack::wireguard::peer::Fresh;
use wgstack::wireguard::Wireguard;
use x25519_dalek::{PublicKey, StaticSecret};

const CONSTRUCTION: &[u8] = b"Noise_IKpsk2_25519_ChaChaPoly_BLAKE2s";
const IDENTIFIER: &[u8] = b"WireGuard v1 zx2c4 Jason@zx2c4.com";

fn hash(a: &[u8], b: &[u8]) -> [u8; 32] {
    let mut h = Blake2s256::new();
    Digest::update(&mut h, a);
    Digest::update(&mut h, b);
    h.finalize().into()
}

fn hmac(key: &[u8], data: &[u8]) -> [u8; 32] {
    let mut m = <SimpleHmac<Blake2s256> as Mac>::new_from_slice(key).unwrap();
    Mac::update(&mut m, data);
    m.finalize().into_bytes().into()
}

fn kdf(key: &[u8], input: &[u8]) -> ([u8; 32], [u8; 32], [u8; 32]) {
    let t0 = hmac(key, input);
    let t1 = hmac(&t0, &[1]);
    let mut next = t1.to_vec();
    next.push(2);
    let t2 = hmac(&t0, &next);
    let mut next = t2.to_vec();
    next.push(3);
    let t3 = hmac(&t0, &next);
    (t1, t2, t3)
}

fn aead(key: &[u8; 32], plain: &[u8], aad: &[u8]) -> Vec<u8> {
    let mut buf = plain.to_vec();
    let tag = ChaCha20Poly1305::new(key.into())
        .encrypt_in_place_detached(&[0u8; 12].into(), aad, &mut buf)
        .unwrap();
    buf.extend_from_slice(&tag);
    buf
}

fn mac(key: &[u8], data: &[u8]) -> [u8; 16] {
    let mut m = <Blake2sMac<U16> as Mac>::new_from_slice(key).unwrap();
    Mac::update(&mut m, data);
    m.finalize().into_bytes().into()
}

fn dh(secret: [u8; 32], public: [u8; 32]) -> [u8; 32] {
    StaticSecret::from(secret).diffie_hellman(&PublicKey::from(public)).to_bytes()
}

fn public(secret: [u8; 32]) -> [u8; 32] {
    PublicKey::from(&StaticSecret::from(secret)).to_bytes()
}

#[test]
fn noise_known_answer() {
    let s_i = [1u8; 32];
    let s_r = [2u8; 32];
    let psk = [0u8; 32];
    let e_i = [0x11u8; 32];
    let e_r = [0x22u8; 32];
    // TAI64N of 2024-01-01T00:00:00Z
    let mut stamp = [0u8; 12];
    stamp[..8].copy_from_slice(&((1u64 << 62) + 37 + 1_704_067_200).to_be_bytes());

    // the initiation
    let c = hash(CONSTRUCTION, &[]);
    let h = hash(&c, IDENTIFIER);
    let h = hash(&h, &public(s_r));
    let (c, _, _) = kdf(&c, &public(e_i));
    let h = hash(&h, &public(e_i));
    let (c, k, _) = kdf(&c, &dh(e_i, public(s_r)));
    let enc_static = aead(&k, &public(s_i), &h);
    let h = hash(&h, &enc_static);
    let (c, k, _) = kdf(&c, &dh(s_i, public(s_r)));
    let enc_stamp = aead(&k, &stamp, &h);
    let h = hash(&h, &enc_stamp);
    let mut init = vec![1u8, 0, 0, 0];
    init.extend_from_slice(&100u32.to_le_bytes());
    init.extend_from_slice(&public(e_i));
    init.extend_from_slice(&enc_static);
    init.extend_from_slice(&enc_stamp);
    let mac1 = mac(&hash(b"mac1----", &public(s_r)), &init);
    init.extend_from_slice(&mac1);
    init.extend_from_slice(&[0u8; 16]);

    let mut i = Wireguard::with_index(s_i, public(s_r), psk, 100);
    let mut r = Wireguard::with_index(s_r, public(s_i), psk, 200);
    let fresh_i = Fresh { ephemeral: e_i, stamp, jitter: 0 };
    assert_eq!(Fresh::draw(1_704_067_200, 0).unwrap().stamp, stamp);
    let out = i.write(0, vec![0x45; 32], &fresh_i).unwrap();
    assert_eq!(out, vec![init.clone()]);

    // the response
    let (c, _, _) = kdf(&c, &public(e_r));
    let h = hash(&h, &public(e_r));
    let (c, _, _) = kdf(&c, &dh(e_r, public(e_i)));
    let (c, _, _) = kdf(&c, &dh(e_r, public(s_i)));
    let (c, tau, k) = kdf(&c, &psk);
    let h = hash(&h, &tau);
    let enc_empty = aead(&k, &[], &h);
    let mut resp = vec![2u8, 0, 0, 0];
    resp.extend_from_slice(&200u32.to_le_bytes());
    resp.extend_from_slice(&100u32.to_le_bytes());
    resp.extend_from_slice(&public(e_r));
    resp.extend_from_slice(&enc_empty);
    let mac1 = mac(&hash(b"mac1----", &public(s_i)), &resp);
    resp.extend_from_slice(&mac1);
    resp.extend_from_slice(&[0u8; 16]);

    let fresh_r = Fresh { ephemeral: e_r, stamp, jitter: 0 };
    let answer = r.read(0, &init, &fresh_r).unwrap();
    assert_eq!(answer.send, vec![resp.clone()]);

    // the transport keys: the initiator sends under the first
    let (send, recv, _) = kdf(&c, &[]);
    let done = i.read(0, &resp, &fresh_i).unwrap();
    assert_eq!(done.send.len(), 1);
    let pair = &i.peers[0].wheel.pair.as_ref().unwrap().1;
    assert_eq!(pair.send, send);
    assert_eq!(pair.recv.key, recv);
    let next = &r.peers[0].wheel.next.as_ref().unwrap().1;
    assert_eq!(next.rkey, send);
    assert_eq!(next.skey, recv);

    // the first data message: the payload under the sending key, counter zero
    let mut body = vec![0x45u8; 32];
    let tag = ChaCha20Poly1305::new((&send).into())
        .encrypt_in_place_detached(&[0u8; 12].into(), &[], &mut body)
        .unwrap();
    let mut data = vec![4u8, 0, 0, 0];
    data.extend_from_slice(&200u32.to_le_bytes());
    data.extend_from_slice(&0u64.to_le_bytes());
    data.extend_from_slice(&body);
    data.extend_from_slice(&tag);
    assert_eq!(done.send[0], data);
}
