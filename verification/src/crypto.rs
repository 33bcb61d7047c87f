//! The primitives that the tunnel builds on: BLAKE2s, HMAC, the ChaCha20-
//! Poly1305 AEADs, X25519, TAI64N labels and random numbers. Each is
//! computed by the crate that is named with it; what is stated of it here
//! is believed of that crate, not proved.

use blake2::Digest;
use chacha20poly1305::aead::AeadInPlace;
use chacha20poly1305::KeyInit;
use hmac::Mac;
use rand::Rng;
use vstd::prelude::*;

use crate::utils::endian::{be32, be32_bytes, be64, be64_bytes};

verus! {

/// The length of a key, a hash and a public key.
pub const KEY_LEN: usize = 32;

/// The length of the tag that seals an authenticated ciphertext.
pub const TAG_LEN: usize = 16;

/// The BLAKE2s-256 digest of `data`.
pub uninterp spec fn blake2s_spec(data: Seq<u8>) -> Seq<u8>;

/// The BLAKE2s MAC of 16 bytes of `data` under `key`.
pub uninterp spec fn blake2s_mac_spec(key: Seq<u8>, data: Seq<u8>) -> Seq<u8>;

/// The HMAC-BLAKE2s of `data` under `key`.
pub uninterp spec fn hmac_spec(key: Seq<u8>, data: Seq<u8>) -> Seq<u8>;

/// The ChaCha20-Poly1305 ciphertext and tag of `plain`.
pub uninterp spec fn chacha_seal_spec(key: Seq<u8>, nonce: Seq<u8>, aad: Seq<u8>, plain: Seq<u8>) -> (
    Seq<u8>,
    Seq<u8>,
);

/// What ChaCha20-Poly1305 opens `cipher` with `tag` to: the plaintext, or
/// `None` where the tag does not verify.
pub uninterp spec fn chacha_open_spec(
    key: Seq<u8>,
    nonce: Seq<u8>,
    aad: Seq<u8>,
    cipher: Seq<u8>,
    tag: Seq<u8>,
) -> Option<Seq<u8>>;

/// What XChaCha20-Poly1305 opens `cipher` with `tag` to.
pub uninterp spec fn xchacha_open_spec(
    key: Seq<u8>,
    nonce: Seq<u8>,
    aad: Seq<u8>,
    cipher: Seq<u8>,
    tag: Seq<u8>,
) -> Option<Seq<u8>>;

/// The X25519 public key of `secret`.
pub uninterp spec fn x25519_public_spec(secret: Seq<u8>) -> Seq<u8>;

/// The X25519 secret that `secret` shares with the holder of `public`.
pub uninterp spec fn x25519_spec(secret: Seq<u8>, public: Seq<u8>) -> Seq<u8>;

/// The view of a result that may hold bytes.
pub open spec fn bytes_of(r: Option<Vec<u8>>) -> Option<Seq<u8>> {
    match r {
        Some(v) => Some(v@),
        None => None,
    }
}

/// `blake2::Blake2s256::digest`.
#[verifier::external_body]
pub(crate) fn blake2s(data: &[u8]) -> (r: [u8; 32])
    ensures
        r@ == blake2s_spec(data@),
{
    blake2::Blake2s256::digest(data).into()
}

/// `blake2::Blake2sMac` with an output of 16 bytes: the MAC of `data` under
/// `key`. The crate refuses a key of more than 32 bytes.
#[verifier::external_body]
pub(crate) fn blake2s_mac(key: &[u8], data: &[u8]) -> (r: [u8; 16])
    requires
        key@.len() <= 32,
    ensures
        r@ == blake2s_mac_spec(key@, data@),
{
    let mut mac = <blake2::Blake2sMac<blake2::digest::consts::U16> as Mac>::new_from_slice(key).unwrap();
    mac.update(data);
    mac.finalize().into_bytes().into()
}

/// `hmac::SimpleHmac` over BLAKE2s-256: the HMAC of `data` under `key`. The
/// crate takes a key of any length.
#[verifier::external_body]
pub(crate) fn hmac_blake2s(key: &[u8], data: &[u8]) -> (r: [u8; 32])
    ensures
        r@ == hmac_spec(key@, data@),
{
    let mut mac = <hmac::SimpleHmac<blake2::Blake2s256> as Mac>::new_from_slice(key).unwrap();
    mac.update(data);
    mac.finalize().into_bytes().into()
}

/// `chacha20poly1305::ChaCha20Poly1305::encrypt_in_place_detached`: the
/// ciphertext, as long as the plaintext, and its tag. The crate refuses a
/// plaintext of `u32::MAX` blocks of 64 bytes or more. What is sealed
/// opens to the plaintext again under the same key, nonce and associated
/// data.
#[verifier::external_body]
pub(crate) fn chacha_seal(key: &[u8; 32], nonce: &[u8; 12], aad: &[u8], plain: &[u8]) -> (r: (
    Vec<u8>,
    [u8; 16],
))
    requires
        plain@.len() / 64 < 0xFFFF_FFFF,
    ensures
        (r.0@, r.1@) == chacha_seal_spec(key@, nonce@, aad@, plain@),
        r.0@.len() == plain@.len(),
        chacha_open_spec(key@, nonce@, aad@, r.0@, r.1@) == Some(plain@),
{
    let mut buf = plain.to_vec();
    let cipher = chacha20poly1305::ChaCha20Poly1305::new(key.into());
    let tag = cipher.encrypt_in_place_detached(nonce.into(), aad, &mut buf).unwrap();
    (buf, tag.into())
}

/// `chacha20poly1305::ChaCha20Poly1305::decrypt_in_place_detached`: the
/// plaintext, as long as the ciphertext, where the tag verifies.
#[verifier::external_body]
pub(crate) fn chacha_open(
    key: &[u8; 32],
    nonce: &[u8; 12],
    aad: &[u8],
    cipher: &[u8],
    tag: &[u8; 16],
) -> (r: Option<Vec<u8>>)
    ensures
        bytes_of(r) == chacha_open_spec(key@, nonce@, aad@, cipher@, tag@),
        r matches Some(p) ==> p@.len() == cipher@.len(),
{
    let mut buf = cipher.to_vec();
    let aead = chacha20poly1305::ChaCha20Poly1305::new(key.into());
    match aead.decrypt_in_place_detached(nonce.into(), aad, &mut buf, tag.into()) {
        Ok(()) => Some(buf),
        Err(_) => None,
    }
}

/// `chacha20poly1305::XChaCha20Poly1305::decrypt_in_place_detached`: the
/// plaintext, as long as the ciphertext, where the tag verifies.
#[verifier::external_body]
pub(crate) fn xchacha_open(
    key: &[u8; 32],
    nonce: &[u8; 24],
    aad: &[u8],
    cipher: &[u8],
    tag: &[u8; 16],
) -> (r: Option<Vec<u8>>)
    ensures
        bytes_of(r) == xchacha_open_spec(key@, nonce@, aad@, cipher@, tag@),
        r matches Some(p) ==> p@.len() == cipher@.len(),
{
    let mut buf = cipher.to_vec();
    let aead = chacha20poly1305::XChaCha20Poly1305::new(key.into());
    match aead.decrypt_in_place_detached(nonce.into(), aad, &mut buf, tag.into()) {
        Ok(()) => Some(buf),
        Err(_) => None,
    }
}

/// `x25519_dalek::PublicKey::from(&StaticSecret)`: the public key of a secret.
#[verifier::external_body]
pub(crate) fn x25519_public(secret: &[u8; 32]) -> (r: [u8; 32])
    ensures
        r@ == x25519_public_spec(secret@),
{
    x25519_dalek::PublicKey::from(&x25519_dalek::StaticSecret::from(*secret)).to_bytes()
}

/// `x25519_dalek::StaticSecret::diffie_hellman`: the shared secret.
#[verifier::external_body]
pub(crate) fn x25519(secret: &[u8; 32], public: &[u8; 32]) -> (r: [u8; 32])
    ensures
        r@ == x25519_spec(secret@, public@),
{
    let secret = x25519_dalek::StaticSecret::from(*secret);
    secret.diffie_hellman(&x25519_dalek::PublicKey::from(*public)).to_bytes()
}

/// `x25519_dalek::StaticSecret::random`: a fresh secret from the operating
/// system's random number generator. Nothing is known of it.
#[verifier::external_body]
pub(crate) fn x25519_random() -> (r: [u8; 32]) {
    x25519_dalek::StaticSecret::random().to_bytes()
}

/// `rand::random`: a random 32-bit number. Nothing is known of it.
#[verifier::external_body]
pub(crate) fn random_u32() -> (r: u32) {
    rand::random()
}

/// `rand::Rng::gen_range` on the thread's generator: a random number below
/// `bound`. The crate panics on an empty range.
#[verifier::external_body]
pub(crate) fn random_below(bound: u64) -> (r: u64)
    requires
        bound > 0,
    ensures
        r < bound,
{
    rand::thread_rng().gen_range(0..bound)
}

/// The number of nanoseconds in a second.
pub const NANOS_PER_SECOND: u32 = 1_000_000_000;

/// The TAI64 label of the start of 1970 as the crate `tai64` has it.
pub const TAI64_UNIX_EPOCH: u64 = 0x4000_0000_0000_0025;

/// What twelve bytes say as a TAI64N label: seconds and nanoseconds, both
/// big-endian, or nothing where the nanoseconds are a second or more.
pub open spec fn tai64n_parse_spec(bytes: Seq<u8>) -> Option<(u64, u32)> {
    if be32(bytes.skip(8)) < NANOS_PER_SECOND {
        Some((be64(bytes), be32(bytes.skip(8))))
    } else {
        None
    }
}

/// The twelve bytes of the TAI64N label of a time given in seconds and
/// nanoseconds since the start of 1970.
pub open spec fn tai64n_stamp_spec(secs: u64, nanos: u32) -> Seq<u8> {
    be64_bytes((TAI64_UNIX_EPOCH + secs) as u64) + be32_bytes(nanos)
}

/// `tai64::Tai64N::try_from` on twelve bytes.
#[verifier::external_body]
pub(crate) fn tai64n_parse(bytes: &[u8; 12]) -> (r: Option<(u64, u32)>)
    ensures
        r == tai64n_parse_spec(bytes@),
{
    match tai64::Tai64N::try_from(*bytes) {
        Ok(t) => Some(((t.0).0, t.1)),
        Err(_) => None,
    }
}

/// The seconds since the start of 1970 that can be labelled lie below
/// this: 2^40, which every clock can hold.
pub const MAX_UNIX_SECS: u64 = 0x100_0000_0000;

/// `tai64::Tai64N::from_system_time` and `to_bytes`, on the time that lies
/// `secs` seconds and `nanos` nanoseconds after the start of 1970.
#[verifier::external_body]
pub(crate) fn tai64n_stamp(secs: u64, nanos: u32) -> (r: [u8; 12])
    requires
        secs < MAX_UNIX_SECS,
        nanos < NANOS_PER_SECOND,
    ensures
        r@ == tai64n_stamp_spec(secs, nanos),
{
    let t = std::time::SystemTime::UNIX_EPOCH + std::time::Duration::new(secs, nanos);
    tai64::Tai64N::from_system_time(&t).to_bytes()
}

} // verus!
