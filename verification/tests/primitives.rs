use chacha20poly1305::aead::AeadInPlace;
use chacha20poly1305::{KeyInit, XChaCha20Poly1305};
use wgstack::error::Error;
use wgstack::wireguard::mac::{CookieMac, Mac1, COOKIE_LIFETIME};
use wgstack::wireguard::noise::aead::Sealed;
use wgstack::wireguard::noise::chain::{Chain, CHAIN_INITIAL};
use wgstack::wireguard::noise::hash;
use wgstack::wireguard::noise::hash::INITIAL;
use wgstack::wireguard::packet::{Cookie, Data, Initiation, Response, Tag, Timestamp, COOKIE, DATA};
use wgstack::wireguard::peer::Fresh;
use wgstack::wireguard::state::{nonce, open, Next, Role, Simplex, Tunnel, REJECT_AFTER_MESSAGES};
use wgstack::wireguard::timers::{REJECT_AFTER_TIME, SECOND};
use wgstack::wireguard::tunnel::{Interface, Noise};
use wgstack::wireguard::Wireguard;

fn hex(s: &str) -> Vec<u8> {
    (0..s.len()).step_by(2).map(|i| u8::from_str_radix(&s[i..i + 2], 16).unwrap()).collect()
}

fn key(s: &str) -> [u8; 32] {
    hex(s).try_into().unwrap()
}

#[test]
fn x25519_known_answers() {
    // RFC 7748, section 6.1
    let alice = key("77076d0a7318a57d3c16c17251b26645df4c2f87ebc0992ab177fba51db92c2a");
    let alice_pub = key("8520f0098930a754748b7ddcb43ef75a0dbf3a0d26381af4eba4a98eaa9b4e6a");
    let bob = key("5dab087e624a8a4b79e17f8b83800ee66f3bb1292618b6fd1c2f8b27ff88e0eb");
    let bob_pub = key("de9edb7d7b7dc1b4d35b61c2ece435373f8343c85b78674dadfc7e146f882b4f");
    let shared = key("4a5d9d5ba4ce2de1728e3bf480350f25e07e21c947d19e3376f09b3c1e161742");
    let a = Interface::new(alice);
    let b = Interface::new(bob);
    assert_eq!(a.pubkey, alice_pub);
    assert_eq!(b.pubkey, bob_pub);
    assert_eq!(Noise::new(&a, bob_pub, [0; 32], 0).s_agree, shared);
    assert_eq!(Noise::new(&b, alice_pub, [0; 32], 0).s_agree, shared);
}

#[test]
fn hash_starts_from_the_protocol_constants() {
    // the initial hash is the chaining key mixed with the identifier of the protocol
    let mut h = hash::Hash(CHAIN_INITIAL);
    h.update(b"WireGuard v1 zx2c4 Jason@zx2c4.com");
    assert_eq!(h.0, INITIAL);
    assert_eq!(hash::Hash::default().0, INITIAL);
    assert_eq!(Chain::default().0, CHAIN_INITIAL);
    let mut g = hash::Hash::default();
    g.update(&[1, 2, 3]);
    assert_ne!(g.0, INITIAL);
    let mut g2 = hash::Hash::default();
    g2.update(&[1, 2]);
    g2.update(&[3]);
    assert_ne!(g.0, g2.0);
}

#[test]
fn chain_derives_keys() {
    let mut a = Chain::default();
    let keys = a.kdf(&[9; 32], 2);
    assert_eq!(keys.len(), 2);
    let mut b = Chain::default();
    let (k1, k2) = b.kdf2(&[9; 32]);
    assert_eq!(keys[0], k1);
    assert_eq!(keys[1], k2);
    assert_eq!(a.0, b.0);
    assert_ne!(a.0, CHAIN_INITIAL);
    assert_ne!(k1, k2);
    assert_ne!(k1, a.0);
    assert_ne!(k1, [9; 32]);
    let mut c = Chain::default();
    assert_eq!(c.kdf1(&[9; 32]), k1);
    let mut d = Chain::default();
    d.write(&[9; 32]);
    assert_eq!(d.0, a.0);
    let mut e = Chain::default();
    assert_ne!(e.kdf1(&[8; 32]), k1);
    // the two transport keys are the chaining key and the first key of an empty derivation
    let (s, r) = Chain::default().consume();
    let mut f = Chain::default();
    let r2 = f.kdf1(&[]);
    assert_eq!(s, f.0);
    assert_eq!(r, r2);
}

#[test]
fn sealed_fields_open_under_the_same_hash() {
    let mut h = hash::Hash::default();
    let field = Sealed::seal(&[1, 2, 3], &[7; 32], &mut h);
    assert_eq!(field.0.len(), 3 + 16);
    assert_ne!(&field.0[..3], &[1, 2, 3]);
    let after = h.0;
    let mut g = hash::Hash::default();
    assert_eq!(field.open(&[7; 32], &mut g), Ok(vec![1, 2, 3]));
    assert_eq!(g.0, after);
    let mut g = hash::Hash::default();
    assert_eq!(field.open(&[8; 32], &mut g), Err(Error::DecryptErr));
    assert_eq!(g.0, after);
    let mut other = hash::Hash(CHAIN_INITIAL);
    assert_eq!(field.open(&[7; 32], &mut other), Err(Error::DecryptErr));
    assert_eq!(Sealed(vec![0; 15]).open(&[7; 32], &mut hash::Hash::default()), Err(Error::DecryptErr));
    let empty = Sealed::seal(&[], &[7; 32], &mut hash::Hash::default());
    assert_eq!(empty.0.len(), 16);
    assert_eq!(empty.open(&[7; 32], &mut hash::Hash::default()), Ok(vec![]));
}

#[test]
fn macs_close_a_message() {
    let mut m = CookieMac::new(&[5; 32]);
    let data = vec![3u8; 116];
    let (mac1, mac2) = m.write(0, &data);
    assert_eq!(mac2, [0; 16]);
    assert_ne!(mac1.0, [0; 16]);
    assert_ne!(&mac1.0[..], &data[..16]);
    let mut all = data.clone();
    all.extend_from_slice(&mac1.0);
    all.extend_from_slice(&mac2);
    assert_eq!(m.check(0, &all), Ok(()));
    let mut other = CookieMac::new(&[6; 32]);
    assert_eq!(other.check(0, &all), Err(Error::MacErr));
    all[147] = 1;
    assert_eq!(m.check(0, &all), Err(Error::MacErr));
    all[147] = 0;
    all[0] ^= 1;
    assert_eq!(m.check(0, &all), Err(Error::MacErr));
    assert_eq!(m.check(0, &all[..31]), Err(Error::MalformedPacket));
}

fn cookie_message(receiver_pub: &[u8; 32], idx: u32, last: &Mac1, cookie: [u8; 16]) -> Vec<u8> {
    let keys = CookieMac::new(receiver_pub);
    let nonce = [4u8; 24];
    let mut sealed = cookie;
    let tag = XChaCha20Poly1305::new((&keys.aead).into())
        .encrypt_in_place_detached((&nonce).into(), &last.0, &mut sealed)
        .unwrap();
    let mut field = [0u8; 32];
    field[..16].copy_from_slice(&sealed);
    field[16..].copy_from_slice(&tag);
    Cookie { idx, nonce, cookie: field }.emit()
}

#[test]
fn cookie_keys_the_second_mac() {
    let mut i = Wireguard::with_index([1; 32], Interface::new([2; 32]).pubkey, [0; 32], 100);
    let f = Fresh { ephemeral: [0x11; 32], stamp: [0; 12], jitter: 0 };
    let init = i.write(0, vec![1; 16], &f).unwrap().remove(0);
    assert_eq!(&init[132..], &[0; 16]);
    let last = i.peers[0].wheel.sent.unwrap().mac;
    assert_eq!(&last.0[..], &init[116..132]);
    // the responder is under load and replies with a cookie
    let msg = cookie_message(&Interface::new([2; 32]).pubkey, 100, &last, [9; 16]);
    assert_eq!(msg.len(), 64);
    assert_eq!(Tag::of(&msg).0, COOKIE);
    assert!(i.read(SECOND, &msg, &f).is_ok());
    assert_eq!(i.peers[0].hs.mac.mac2.unwrap().value, [9; 16]);
    assert_eq!(i.peers[0].hs.mac.mac2.unwrap().time, SECOND);
    // the next initiation carries a second MAC
    let again = i.rekey(2 * SECOND, 0, &f).remove(0);
    assert_ne!(&again[132..], &[0; 16]);
    // a cookie is good for 120 seconds
    let iface = i.interface;
    let still = i.peers[0].create_initiation(SECOND + COOKIE_LIFETIME - 1, &iface, &f);
    assert_ne!(&still[132..], &[0; 16]);
    let late = i.peers[0].create_initiation(SECOND + COOKIE_LIFETIME, &iface, &f);
    assert_eq!(&late[132..], &[0; 16]);
    assert!(i.peers[0].hs.mac.mac2.is_none());
    // a cookie for another index, or one that does not open
    let stray = cookie_message(&Interface::new([2; 32]).pubkey, 7, &last, [9; 16]);
    assert!(matches!(i.read(SECOND, &stray, &f), Err(Error::SessionExpired)));
    let mut bent = cookie_message(&Interface::new([2; 32]).pubkey, i.peers[0].wheel.sent.unwrap().idx, &last, [9; 16]);
    bent[40] ^= 1;
    assert!(matches!(i.read(SECOND, &bent, &f), Err(Error::DecryptErr)));
    assert!(matches!(i.read(SECOND, &bent[..63], &f), Err(Error::MalformedPacket)));
}

#[test]
fn timestamps_must_be_labels_and_move_forward() {
    let iface = Interface::new([2; 32]);
    let mut n = Noise::new(&iface, [3; 32], [0; 32], 0);
    let mut bytes = [0u8; 12];
    bytes[7] = 5;
    bytes[8..].copy_from_slice(&999_999_999u32.to_be_bytes());
    assert_eq!(n.update_timestamp(Timestamp { bytes }), Ok(()));
    assert_eq!(n.timestamp, Some((5, 999_999_999)));
    assert_eq!(n.update_timestamp(Timestamp { bytes }), Err(Error::Replay));
    bytes[8..].copy_from_slice(&999_999_998u32.to_be_bytes());
    assert_eq!(n.update_timestamp(Timestamp { bytes }), Err(Error::Replay));
    bytes[8..].copy_from_slice(&1_000_000_000u32.to_be_bytes());
    assert_eq!(n.update_timestamp(Timestamp { bytes }), Err(Error::MalformedPacket));
    bytes[7] = 6;
    bytes[8..].copy_from_slice(&0u32.to_be_bytes());
    assert_eq!(n.update_timestamp(Timestamp { bytes }), Ok(()));
    assert_eq!(n.timestamp, Some((6, 0)));
    assert_eq!(n.new_idx(), 0);
    assert_eq!(n.new_idx(), 1);
    n.idx_cur = u32::MAX;
    assert_eq!(n.new_idx(), u32::MAX);
    assert_eq!(n.new_idx(), 0);
}

#[test]
fn data_messages_and_session_limits() {
    assert_eq!(nonce(0x0102030405060708), [0, 0, 0, 0, 8, 7, 6, 5, 4, 3, 2, 1]);
    let mut t = Tunnel::new(0, Chain::default(), 77);
    assert_eq!(t.role, Role::Initiator);
    assert!(!t.is_send_expired(REJECT_AFTER_TIME - 1));
    assert!(t.is_send_expired(REJECT_AFTER_TIME));
    let (packet, rekey) = t.send(SECOND, &[1, 2, 3]);
    assert!(!rekey);
    assert_eq!(t.sctr, 1);
    assert_eq!(Tag::of(&packet).0, DATA);
    assert_eq!(Data::parse(&packet), Data { idx: 77, ctr: 0 });
    assert_eq!(packet.len(), 16 + 16 + 16);
    assert_ne!(&packet[16..19], &[1, 2, 3]);
    // the other end receives under the key that this end sends under
    let (_, send_key) = (t.recv.key, t.send);
    let mut padded = vec![1u8, 2, 3];
    padded.resize(16, 0);
    assert_eq!(open(&send_key, 0, &packet[16..]), Ok(padded.clone()));
    assert_eq!(open(&send_key, 1, &packet[16..]), Err(Error::DecryptErr));
    assert_eq!(open(&send_key, 0, &packet[16..31]), Err(Error::DecryptErr));
    let mut peer = Simplex::initiator(0, send_key);
    assert_eq!(peer.open(REJECT_AFTER_TIME, 0, &packet[16..]), Err(Error::SessionExpired));
    assert_eq!(peer.open(SECOND, REJECT_AFTER_MESSAGES, &packet[16..]), Err(Error::SessionExpired));
    assert_eq!(peer.open(SECOND, 0, &packet[16..]), Ok(padded));
    assert_eq!(peer.open(SECOND, 0, &packet[16..]), Err(Error::Replay));
    t.sctr = REJECT_AFTER_MESSAGES - 1;
    assert!(!t.is_send_expired(0));
    t.sctr = REJECT_AFTER_MESSAGES;
    assert!(t.is_send_expired(0));
    t.sctr = 1 << 60;
    assert!(t.send(0, &[]).1);
    // the responder sends under the second key and receives under the first
    let n = Next::new(5, Chain::default(), 9, Mac1([0; 16]));
    assert_eq!(n.rkey, send_key);
    assert_eq!(n.skey, t.recv.key);
    let (made, payload) = n.recv(0, &packet[16..]).unwrap();
    assert_eq!(payload.len(), 16);
    assert_eq!(made.role, Role::Responder);
    assert_eq!(made.sidx, 9);
    assert_eq!(made.recv.time, 5);
    assert!(n.recv(1, &packet[16..]).is_err());
}

#[test]
fn handshake_messages_round_trip() {
    let m = Initiation { idx: 5, ephemeral: [1; 32], pubkey: [2; 48], timestamp: [3; 28] };
    let bytes = m.emit();
    assert_eq!(bytes.len(), 116);
    assert_eq!(&bytes[..8], &[1, 0, 0, 0, 5, 0, 0, 0]);
    let back = Initiation::parse(&bytes);
    assert_eq!((back.idx, back.ephemeral, back.pubkey, back.timestamp), (5, [1; 32], [2; 48], [3; 28]));
    let r = Response { idx: 0x01020304, rcv_idx: 6, ephemeral: [1; 32], empty: [2; 16] };
    let bytes = r.emit();
    assert_eq!(bytes.len(), 60);
    assert_eq!(&bytes[..12], &[2, 0, 0, 0, 4, 3, 2, 1, 6, 0, 0, 0]);
    let back = Response::parse(&bytes);
    assert_eq!((back.idx, back.rcv_idx, back.ephemeral, back.empty), (0x01020304, 6, [1; 32], [2; 16]));
    let c = Cookie { idx: 7, nonce: [1; 24], cookie: [2; 32] };
    let back = Cookie::parse(&c.emit());
    assert_eq!((back.idx, back.nonce, back.cookie), (7, [1; 24], [2; 32]));
    let d = Data { idx: 8, ctr: 0x0102030405060708 };
    assert_eq!(d.emit(), vec![4, 0, 0, 0, 8, 0, 0, 0, 8, 7, 6, 5, 4, 3, 2, 1]);
}

#[test]
fn initiation_with_a_bad_label_is_malformed() {
    let mut i = Wireguard::with_index([1; 32], Interface::new([2; 32]).pubkey, [0; 32], 100);
    let mut r = Wireguard::with_index([2; 32], Interface::new([1; 32]).pubkey, [0; 32], 200);
    let mut f = Fresh { ephemeral: [0x11; 32], stamp: [0; 12], jitter: 0 };
    f.stamp[8..].copy_from_slice(&1_000_000_000u32.to_be_bytes());
    let init = i.write(0, vec![1; 16], &f).unwrap().remove(0);
    assert!(matches!(r.read(0, &init, &f), Err(Error::MalformedPacket)));
}
