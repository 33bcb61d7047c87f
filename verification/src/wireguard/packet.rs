//! The four messages of WireGuard as they stand on the wire. Fields of
//! more than one byte are little-endian.

use vstd::prelude::*;

use crate::utils::bytes::array_at;
use crate::utils::endian::{
    append, append_le64, get_le32, get_le64, le32, le32_bytes, le64, le64_bytes,
    lemma_le32_round_trip, lemma_le64_round_trip, to_le32,
};

verus! {

/// The length of the two MACs that close a handshake message.
pub const MAC_LEN: usize = 32;

/// The length of an initiation without its MACs.
pub const INITIATION_LEN: usize = 116;

/// The length of a response without its MACs.
pub const RESPONSE_LEN: usize = 60;

/// The length of a cookie message.
pub const COOKIE_LEN: usize = 64;

/// The length of the header of a data message.
pub const DATA_LEN: usize = 16;

/// The tag of an initiation.
pub const INITIATION: u32 = 1;

/// The tag of a response.
pub const RESPONSE: u32 = 2;

/// The tag of a cookie message.
pub const COOKIE: u32 = 3;

/// The tag of a data message.
pub const DATA: u32 = 4;

/// The first four bytes of a message, which say of which kind it is.
#[derive(Clone, Copy, Debug, PartialEq, Eq, Structural)]
pub struct Tag(pub u32);

impl Tag {
    /// Read the tag at the start of `b`.
    pub fn of(b: &[u8]) -> (t: Tag)
        requires
            b@.len() >= 4,
        ensures
            t.0 == le32(b@),
    {
        assert(b@.skip(0) =~= b@);
        Tag(get_le32(b, 0))
    }
}

/// A TAI64N label as it stands in an initiation.
#[derive(Clone, Copy)]
pub struct Timestamp {
    pub bytes: [u8; 12],
}

/// The first message of a handshake.
#[derive(Clone, Copy)]
pub struct Initiation {
    /// The session index of the sender.
    pub idx: u32,
    /// The ephemeral public key of the sender.
    pub ephemeral: [u8; 32],
    /// The static public key of the sender, sealed.
    pub pubkey: [u8; 48],
    /// The timestamp, sealed.
    pub timestamp: [u8; 28],
}

/// The second message of a handshake.
#[derive(Clone, Copy)]
pub struct Response {
    /// The session index of the sender.
    pub idx: u32,
    /// The session index of the receiver, as its initiation gave it.
    pub rcv_idx: u32,
    /// The ephemeral public key of the sender.
    pub ephemeral: [u8; 32],
    /// Nothing, sealed.
    pub empty: [u8; 16],
}

/// The reply of a peer under load.
#[derive(Clone, Copy)]
pub struct Cookie {
    /// The session index of the receiver.
    pub idx: u32,
    /// The nonce under which the cookie is sealed.
    pub nonce: [u8; 24],
    /// The cookie, sealed.
    pub cookie: [u8; 32],
}

/// The header of a data message.
#[derive(Clone, Copy, Debug, PartialEq, Eq, Structural)]
pub struct Data {
    /// The session index of the receiver.
    pub idx: u32,
    /// The counter of the message, which is its nonce.
    pub ctr: u64,
}

impl Initiation {
    /// The bytes of the message, without its MACs.
    pub open spec fn emit_spec(self) -> Seq<u8> {
        le32_bytes(INITIATION) + le32_bytes(self.idx) + self.ephemeral@ + self.pubkey@
            + self.timestamp@
    }

    /// Whether `b` spells this message.
    pub open spec fn spelled(self, b: Seq<u8>) -> bool {
        &&& self.idx == le32(b.skip(4))
        &&& self.ephemeral@ == b.subrange(8, 40)
        &&& self.pubkey@ == b.subrange(40, 88)
        &&& self.timestamp@ == b.subrange(88, 116)
    }

    /// Write the message, without its MACs.
    pub fn emit(&self) -> (r: Vec<u8>)
        ensures
            r@ == self.emit_spec(),
            r@.len() == INITIATION_LEN,
    {
        let mut out: Vec<u8> = Vec::new();
        append(&mut out, to_le32(INITIATION).as_slice());
        append(&mut out, to_le32(self.idx).as_slice());
        append(&mut out, self.ephemeral.as_slice());
        append(&mut out, self.pubkey.as_slice());
        append(&mut out, self.timestamp.as_slice());
        out
    }

    /// Read the message at the start of `b`, whatever its tag.
    pub fn parse(b: &[u8]) -> (m: Initiation)
        requires
            b@.len() >= INITIATION_LEN,
        ensures
            m.spelled(b@),
    {
        Initiation {
            idx: get_le32(b, 4),
            ephemeral: array_at::<32>(b, 8),
            pubkey: array_at::<48>(b, 40),
            timestamp: array_at::<28>(b, 88),
        }
    }
}

impl Response {
    /// The bytes of the message, without its MACs.
    pub open spec fn emit_spec(self) -> Seq<u8> {
        le32_bytes(RESPONSE) + le32_bytes(self.idx) + le32_bytes(self.rcv_idx) + self.ephemeral@
            + self.empty@
    }

    /// Whether `b` spells this message.
    pub open spec fn spelled(self, b: Seq<u8>) -> bool {
        &&& self.idx == le32(b.skip(4))
        &&& self.rcv_idx == le32(b.skip(8))
        &&& self.ephemeral@ == b.subrange(12, 44)
        &&& self.empty@ == b.subrange(44, 60)
    }

    /// Write the message, without its MACs.
    pub fn emit(&self) -> (r: Vec<u8>)
        ensures
            r@ == self.emit_spec(),
            r@.len() == RESPONSE_LEN,
    {
        let mut out: Vec<u8> = Vec::new();
        append(&mut out, to_le32(RESPONSE).as_slice());
        append(&mut out, to_le32(self.idx).as_slice());
        append(&mut out, to_le32(self.rcv_idx).as_slice());
        append(&mut out, self.ephemeral.as_slice());
        append(&mut out, self.empty.as_slice());
        out
    }

    /// Read the message at the start of `b`, whatever its tag.
    pub fn parse(b: &[u8]) -> (m: Response)
        requires
            b@.len() >= RESPONSE_LEN,
        ensures
            m.spelled(b@),
    {
        Response {
            idx: get_le32(b, 4),
            rcv_idx: get_le32(b, 8),
            ephemeral: array_at::<32>(b, 12),
            empty: array_at::<16>(b, 44),
        }
    }
}

impl Cookie {
    /// The bytes of the message.
    pub open spec fn emit_spec(self) -> Seq<u8> {
        le32_bytes(COOKIE) + le32_bytes(self.idx) + self.nonce@ + self.cookie@
    }

    /// Whether `b` spells this message.
    pub open spec fn spelled(self, b: Seq<u8>) -> bool {
        &&& self.idx == le32(b.skip(4))
        &&& self.nonce@ == b.subrange(8, 32)
        &&& self.cookie@ == b.subrange(32, 64)
    }

    /// Write the message.
    pub fn emit(&self) -> (r: Vec<u8>)
        ensures
            r@ == self.emit_spec(),
            r@.len() == COOKIE_LEN,
    {
        let mut out: Vec<u8> = Vec::new();
        append(&mut out, to_le32(COOKIE).as_slice());
        append(&mut out, to_le32(self.idx).as_slice());
        append(&mut out, self.nonce.as_slice());
        append(&mut out, self.cookie.as_slice());
        out
    }

    /// Read the message at the start of `b`, whatever its tag.
    pub fn parse(b: &[u8]) -> (m: Cookie)
        requires
            b@.len() >= COOKIE_LEN,
        ensures
            m.spelled(b@),
    {
        Cookie {
            idx: get_le32(b, 4),
            nonce: array_at::<24>(b, 8),
            cookie: array_at::<32>(b, 32),
        }
    }
}

impl Data {
    /// The bytes of the header.
    pub open spec fn emit_spec(self) -> Seq<u8> {
        le32_bytes(DATA) + le32_bytes(self.idx) + le64_bytes(self.ctr)
    }

    /// The header that `b` spells.
    pub open spec fn parse_spec(b: Seq<u8>) -> Data {
        Data { idx: le32(b.skip(4)), ctr: le64(b.skip(8)) }
    }

    /// Write the header.
    pub fn emit(&self) -> (r: Vec<u8>)
        ensures
            r@ == self.emit_spec(),
            r@.len() == DATA_LEN,
    {
        let mut out: Vec<u8> = Vec::new();
        append(&mut out, to_le32(DATA).as_slice());
        append(&mut out, to_le32(self.idx).as_slice());
        append_le64(&mut out, self.ctr);
        out
    }

    /// Read the header at the start of `b`, whatever its tag.
    pub fn parse(b: &[u8]) -> (m: Data)
        requires
            b@.len() >= DATA_LEN,
        ensures
            m == Data::parse_spec(b@),
    {
        Data { idx: get_le32(b, 4), ctr: get_le64(b, 8) }
    }
}

/// Reading back a data header that was written gives the header, and its
/// tag is that of a data message.
pub proof fn law_data_round_trip(d: Data, rest: Seq<u8>)
    ensures
        d.emit_spec().len() == DATA_LEN,
        le32(d.emit_spec() + rest) == DATA,
        Data::parse_spec(d.emit_spec() + rest) == d,
{
    let b = d.emit_spec() + rest;
    lemma_le32_round_trip(DATA);
    lemma_le32_round_trip(d.idx);
    lemma_le64_round_trip(d.ctr);
    assert(b.take(4) =~= le32_bytes(DATA));
    assert(b.skip(4).take(4) =~= le32_bytes(d.idx));
    assert(b.skip(8).take(8) =~= le64_bytes(d.ctr));
    assert(le32(b) == le32(b.take(4)));
    assert(le32(b.skip(4)) == le32(b.skip(4).take(4)));
    let c = b.skip(8);
    let e = c.take(8);
    assert(c.skip(4).take(4) =~= e.skip(4).take(4));
    assert(le32(c) == le32(e));
    assert(le32(c.skip(4)) == le32(c.skip(4).take(4)));
    assert(le32(e.skip(4)) == le32(e.skip(4).take(4)));
    assert(le64(c) == le64(e));
}

/// Reading back an initiation that was written gives the initiation, and
/// its tag is that of an initiation.
pub proof fn law_initiation_round_trip(m: Initiation, rest: Seq<u8>)
    ensures
        m.emit_spec().len() == INITIATION_LEN,
        le32(m.emit_spec() + rest) == INITIATION,
        m.spelled(m.emit_spec() + rest),
{
    let b = m.emit_spec() + rest;
    lemma_le32_round_trip(INITIATION);
    lemma_le32_round_trip(m.idx);
    assert(b.take(4) =~= le32_bytes(INITIATION));
    assert(b.skip(4).take(4) =~= le32_bytes(m.idx));
    assert(le32(b) == le32(b.take(4)));
    assert(le32(b.skip(4)) == le32(b.skip(4).take(4)));
    assert(m.ephemeral@ =~= b.subrange(8, 40));
    assert(m.pubkey@ =~= b.subrange(40, 88));
    assert(m.timestamp@ =~= b.subrange(88, 116));
}

/// Reading back a response that was written gives the response, and its
/// tag is that of a response.
pub proof fn law_response_round_trip(m: Response, rest: Seq<u8>)
    ensures
        m.emit_spec().len() == RESPONSE_LEN,
        le32(m.emit_spec() + rest) == RESPONSE,
        m.spelled(m.emit_spec() + rest),
{
    let b = m.emit_spec() + rest;
    lemma_le32_round_trip(RESPONSE);
    lemma_le32_round_trip(m.idx);
    lemma_le32_round_trip(m.rcv_idx);
    assert(b.take(4) =~= le32_bytes(RESPONSE));
    assert(b.skip(4).take(4) =~= le32_bytes(m.idx));
    assert(b.skip(8).take(4) =~= le32_bytes(m.rcv_idx));
    assert(le32(b) == le32(b.take(4)));
    assert(le32(b.skip(4)) == le32(b.skip(4).take(4)));
    assert(le32(b.skip(8)) == le32(b.skip(8).take(4)));
    assert(m.ephemeral@ =~= b.subrange(12, 44));
    assert(m.empty@ =~= b.subrange(44, 60));
}

} // verus!
