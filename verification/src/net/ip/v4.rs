//! The IPv4 header of RFC 791: parsing what arrives and writing what leaves.

use vstd::prelude::*;
use vstd::slice::slice_subrange;

use super::checksum::{
    checksum_bytes, fold, lemma_fold_off_by_power, lemma_fold_range, lemma_sealed_sum,
    lemma_word_sum_update, weight, word_sum, Checksum,
};
use super::fragment::{Fragment, FragmentView, Key};
use super::{Inbound, Interface, IpAddr, Protocol, ToS};
use crate::bytes::Slice;
use crate::error::Error;
use crate::utils::endian::{
    append, be16, be16_bytes, be32, be32_bytes, get_be16, get_be32, lemma_be16_round_trip,
    lemma_be32_round_trip, to_be16, to_be32,
};

verus! {

/// The length of a header without options.
pub const HEADER_LEN: usize = 20;

/// The fields of an IPv4 header, but for the version, which is always 4.
#[derive(Clone, Copy, Debug, PartialEq, Eq, Structural)]
pub struct Header {
    /// The length of the header in words of four bytes.
    pub ihl: u8,
    /// The type-of-service byte.
    pub tos: u8,
    /// The length of header and payload together.
    pub len: u16,
    /// The identification that the fragments of one datagram share.
    pub ident: u16,
    /// The flag bit that is reserved.
    pub reserved: bool,
    /// The flag "don't fragment".
    pub dont: bool,
    /// The flag "more fragments".
    pub more: bool,
    /// The fragment offset in units of eight bytes.
    pub offset: u16,
    /// The time to live.
    pub ttl: u8,
    /// The protocol number of the payload.
    pub proto: u8,
    /// The header checksum.
    pub csm: u16,
    /// The source address.
    pub src: u32,
    /// The destination address.
    pub dst: u32,
}

impl Header {
    /// The fields fit the bits that the wire gives them.
    pub open spec fn wf(self) -> bool {
        self.ihl < 16 && self.offset < 8192
    }

    /// The word that holds the three flags above the thirteen bits of the offset.
    pub open spec fn flags_word(self) -> u16 {
        ((if self.reserved {
            32768
        } else {
            0int
        }) + (if self.dont {
            16384
        } else {
            0int
        }) + (if self.more {
            8192
        } else {
            0int
        }) + self.offset) as u16
    }

    /// The twenty bytes of the header on the wire.
    pub open spec fn emit_spec(self) -> Seq<u8> {
        seq![
            (64 + self.ihl) as u8,
            self.tos,
            be16_bytes(self.len)[0],
            be16_bytes(self.len)[1],
            be16_bytes(self.ident)[0],
            be16_bytes(self.ident)[1],
            be16_bytes(self.flags_word())[0],
            be16_bytes(self.flags_word())[1],
            self.ttl,
            self.proto,
            be16_bytes(self.csm)[0],
            be16_bytes(self.csm)[1],
            be32_bytes(self.src)[0],
            be32_bytes(self.src)[1],
            be32_bytes(self.src)[2],
            be32_bytes(self.src)[3],
            be32_bytes(self.dst)[0],
            be32_bytes(self.dst)[1],
            be32_bytes(self.dst)[2],
            be32_bytes(self.dst)[3],
        ]
    }

    /// The header that the first twenty bytes of `b` spell.
    pub open spec fn parse_spec(b: Seq<u8>) -> Header {
        Header {
            ihl: b[0] % 16,
            tos: b[1],
            len: be16(b[2], b[3]),
            ident: be16(b[4], b[5]),
            reserved: b[6] / 128 == 1,
            dont: (b[6] / 64) % 2 == 1,
            more: (b[6] / 32) % 2 == 1,
            offset: be16(b[6] % 32, b[7]),
            ttl: b[8],
            proto: b[9],
            csm: be16(b[10], b[11]),
            src: be32(b.skip(12)),
            dst: be32(b.skip(16)),
        }
    }

    /// The same header with a checksum field that makes the header verify.
    pub open spec fn sealed(self) -> Header {
        let zeroed = Header { csm: 0, ..self };
        let c = checksum_bytes(word_sum(zeroed.emit_spec()));
        Header { csm: be16(c[0], c[1]), ..self }
    }

    /// Read the header at the start of `b`.
    pub fn parse(b: &[u8]) -> (h: Header)
        requires
            b@.len() >= HEADER_LEN,
        ensures
            h == Header::parse_spec(b@),
            h.wf(),
    {
        let flags: u8 = b[6];
        Header {
            ihl: b[0] % 16,
            tos: b[1],
            len: get_be16(b, 2),
            ident: get_be16(b, 4),
            reserved: flags / 128 == 1,
            dont: (flags / 64) % 2 == 1,
            more: (flags / 32) % 2 == 1,
            offset: ((flags % 32) as u16) * 256 + (b[7] as u16),
            ttl: b[8],
            proto: b[9],
            csm: get_be16(b, 10),
            src: get_be32(b, 12),
            dst: get_be32(b, 16),
        }
    }

    /// Write the header as it stands on the wire.
    pub fn emit(&self) -> (r: [u8; 20])
        requires
            self.wf(),
        ensures
            r@ == self.emit_spec(),
    {
        let len: [u8; 2] = to_be16(self.len);
        let ident: [u8; 2] = to_be16(self.ident);
        let mut word: u16 = self.offset;
        if self.reserved {
            word = word + 32768;
        }
        if self.dont {
            word = word + 16384;
        }
        if self.more {
            word = word + 8192;
        }
        let frg: [u8; 2] = to_be16(word);
        let csm: [u8; 2] = to_be16(self.csm);
        let src: [u8; 4] = to_be32(self.src);
        let dst: [u8; 4] = to_be32(self.dst);
        let r: [u8; 20] = [
            64 + self.ihl,
            self.tos,
            len[0],
            len[1],
            ident[0],
            ident[1],
            frg[0],
            frg[1],
            self.ttl,
            self.proto,
            csm[0],
            csm[1],
            src[0],
            src[1],
            src[2],
            src[3],
            dst[0],
            dst[1],
            dst[2],
            dst[3],
        ];
        proof {
            assert(word == self.flags_word());
            assert(r@ =~= self.emit_spec());
        }
        r
    }
}

/// Reading back a header that was written gives the header.
pub proof fn law_header_round_trip(h: Header)
    requires
        h.wf(),
    ensures
        h.emit_spec().len() == HEADER_LEN,
        Header::parse_spec(h.emit_spec()) == h,
{
    let b = h.emit_spec();
    lemma_be16_round_trip(h.len);
    lemma_be16_round_trip(h.ident);
    lemma_be16_round_trip(h.csm);
    lemma_be16_round_trip(h.flags_word());
    lemma_be32_round_trip(h.src);
    lemma_be32_round_trip(h.dst);
    assert(b.skip(12).take(4) =~= be32_bytes(h.src));
    assert(b.skip(16) =~= be32_bytes(h.dst));
    assert(be32(b.skip(12)) == be32(b.skip(12).take(4)));
    let p = Header::parse_spec(b);
    assert(p.offset == h.offset);
    assert(p.more == h.more);
    assert(p.dont == h.dont);
    assert(p.reserved == h.reserved);
}

/// The bytes `b` with bit `j` of the byte at place `i` turned over.
pub open spec fn flip(b: Seq<u8>, i: int, j: u8) -> Seq<u8> {
    b.update(i, b[i] ^ (1u8 << j))
}

proof fn lemma_flip_delta(x: u8, j: u8)
    requires
        j < 8,
    ensures
        ({
            let y = x ^ (1u8 << j);
            let d = 1u8 << j;
            &&& (d == 1 || d == 2 || d == 4 || d == 8 || d == 16 || d == 32 || d == 64 || d == 128)
            &&& (y == x + d || y == x - d)
        }),
{
    let y = x ^ (1u8 << j);
    let d = 1u8 << j;
    assert(d == 1 || d == 2 || d == 4 || d == 8 || d == 16 || d == 32 || d == 64 || d == 128)
        by (bit_vector)
        requires
            j < 8,
            d == 1u8 << j,
    ;
    assert(y as int == x as int + d as int || y as int == x as int - d as int) by (bit_vector)
        requires
            j < 8,
            d == 1u8 << j,
            y == x ^ (1u8 << j),
    ;
}

/// A sealed header verifies: the ones' complement sum of its bytes is
/// `0xFFFF`, so the checksum that a receiver computes over it is zero.
pub proof fn law_sealed_header_verifies(h: Header)
    requires
        h.wf(),
    ensures
        fold(word_sum(h.sealed().emit_spec())) == 0xFFFF,
        checksum_bytes(word_sum(h.sealed().emit_spec())) == seq![0u8, 0u8],
{
    let zeroed = Header { csm: 0, ..h };
    let b = zeroed.emit_spec();
    let c = checksum_bytes(word_sum(b));
    lemma_sealed_sum(b, 10);
    lemma_fold_range(word_sum(b));
    let v = (0xFFFF - fold(word_sum(b))) as u16;
    assert(be16(c[0], c[1]) == v);
    assert(h.sealed().emit_spec() =~= b.update(10, c[0]).update(11, c[1]));
    assert(checksum_bytes(word_sum(h.sealed().emit_spec())) =~= seq![0u8, 0u8]);
}

/// One bit turned over anywhere in a sealed header is detected: the
/// checksum that a receiver computes over the damaged header is not zero.
pub proof fn law_bit_flip_detected(h: Header, i: int, j: u8)
    requires
        h.wf(),
        0 <= i < HEADER_LEN,
        j < 8,
    ensures
        fold(word_sum(flip(h.sealed().emit_spec(), i, j))) != 0xFFFF,
        checksum_bytes(word_sum(flip(h.sealed().emit_spec(), i, j))) != seq![0u8, 0u8],
{
    let b = h.sealed().emit_spec();
    law_sealed_header_verifies(h);
    lemma_flip_delta(b[i], j);
    let y = b[i] ^ (1u8 << j);
    lemma_word_sum_update(b, i, y);
    let total = word_sum(b);
    let moved = word_sum(flip(b, i, j));
    let delta = weight(i) * (y - b[i]);
    assert(moved == total + delta);
    if delta > 0 {
        lemma_fold_off_by_power(total, delta);
    } else {
        lemma_fold_off_by_power(total, -delta);
    }
    lemma_fold_range(moved);
    let c = checksum_bytes(moved);
    assert(c[0] != 0 || c[1] != 0);
}

impl Interface {
    /// Whether the IPv4 packet `b` is taken in: it holds a whole header, is
    /// addressed to this interface, its header verifies where it carries a
    /// checksum, and its length field fits header and packet.
    pub open spec fn accepts_v4(self, b: Seq<u8>) -> bool {
        &&& b.len() >= HEADER_LEN
        &&& ({
            let h = Header::parse_spec(b);
            &&& h.dst == self.v4
            &&& h.ihl >= 5
            &&& 4 * h.ihl <= b.len()
            &&& (h.csm != 0 ==> fold(word_sum(b.take(4 * h.ihl))) == 0xFFFF)
            &&& 4 * h.ihl <= h.len <= b.len()
        })
    }

    /// The payload of the IPv4 packet `b`: what lies between the end of the
    /// header with its options and the length that the header gives.
    pub open spec fn payload_v4(b: Seq<u8>) -> Seq<u8> {
        let h = Header::parse_spec(b);
        b.subrange(4 * h.ihl, h.len as int)
    }

    /// Take in an IPv4 packet: a whole datagram for the transport, or a
    /// fragment with the key under which it is reassembled. Options are
    /// skipped.
    pub fn recv_v4(&self, buf: Slice) -> (r: Result<Inbound, Error>)
        ensures
            match r {
                Ok(Inbound::Whole { proto, src, payload }) => {
                    let h = Header::parse_spec(buf@);
                    &&& self.accepts_v4(buf@)
                    &&& h.offset == 0 && !h.more
                    &&& proto == Protocol::of_number_spec(h.proto)
                    &&& src == IpAddr::V4(h.src)
                    &&& payload@ == Self::payload_v4(buf@)
                },
                Ok(Inbound::Part { key, fragment }) => {
                    let h = Header::parse_spec(buf@);
                    &&& self.accepts_v4(buf@)
                    &&& !(h.offset == 0 && !h.more)
                    &&& key == (Key {
                        addr: IpAddr::V4(h.src),
                        proto: Protocol::of_number_spec(h.proto),
                        ident: h.ident as u32,
                    })
                    &&& fragment@ == (FragmentView {
                        more: h.more,
                        start: (h.offset * 8) as nat,
                        data: Self::payload_v4(buf@),
                    })
                },
                Err(e) => !self.accepts_v4(buf@) && e == Error::MalformedPacket,
            },
    {
        let mut buf = buf;
        let ghost b = buf@;
        let n: usize = buf.len();
        if n < HEADER_LEN {
            return Err(Error::MalformedPacket);
        }
        let header: Header = Header::parse(buf.as_slice());
        if header.dst != self.v4 {
            return Err(Error::MalformedPacket);
        }
        if header.ihl < 5 {
            return Err(Error::MalformedPacket);
        }
        let header_len: usize = 4 * (header.ihl as usize);
        if header_len > n {
            return Err(Error::MalformedPacket);
        }
        if header.csm != 0 {
            let csum = Checksum::of(slice_subrange(buf.as_slice(), 0, header_len));
            assert(b.subrange(0, header_len as int) =~= b.take(header_len as int));
            if !csum.verifies() {
                return Err(Error::MalformedPacket);
            }
        }
        let total: usize = header.len as usize;
        if total < header_len || n < total {
            return Err(Error::MalformedPacket);
        }
        let _ = buf.split_bytes(header_len);
        buf.truncate(total - header_len);
        proof {
            assert(buf@ =~= Self::payload_v4(b));
        }
        let start: u16 = header.offset * 8;
        let more: bool = header.more;
        let proto: Protocol = Protocol::of_number(header.proto);
        let src: IpAddr = IpAddr::V4(header.src);
        if start == 0 && !more {
            // Hand the packet to the transport if it is not fragmented.
            Ok(Inbound::Whole { proto, src, payload: buf })
        } else {
            // Hand it to reassembly with its key.
            let key = Key { ident: header.ident as u32, proto, addr: src };
            let fragment = Fragment { start, more, buf };
            Ok(Inbound::Part { key, fragment })
        }
    }

    /// The header of an IPv4 datagram that leaves for `addr` with a payload
    /// of `len` bytes, before its checksum is filled in: no options, a time
    /// to live of 64, never to be fragmented.
    pub open spec fn outgoing_v4(self, protocol: Protocol, addr: u32, tos: ToS, len: nat) -> Header {
        Header {
            ihl: 5,
            tos: tos.byte_spec(),
            len: (HEADER_LEN + len) as u16,
            ident: 0,
            reserved: false,
            dont: true,
            more: false,
            offset: 0,
            ttl: 64,
            proto: protocol.number_spec(),
            csm: 0,
            src: self.v4,
            dst: addr,
        }
    }

    /// The bytes of an IPv4 datagram that leaves for `addr` with `payload`.
    pub open spec fn datagram_v4(self, protocol: Protocol, addr: u32, tos: ToS, payload: Seq<u8>) -> Seq<
        u8,
    > {
        self.outgoing_v4(protocol, addr, tos, payload.len()).sealed().emit_spec() + payload
    }

    /// Write an IPv4 datagram for `addr` around `payload`.
    pub fn write_v4(&self, protocol: Protocol, addr: u32, tos: ToS, payload: &[u8]) -> (r: Vec<u8>)
        requires
            HEADER_LEN + payload@.len() <= 0xFFFF,
        ensures
            r@ == self.datagram_v4(protocol, addr, tos, payload@),
    {
        let mut header = Header {
            ihl: 5,
            tos: tos.byte(),
            len: (HEADER_LEN + payload.len()) as u16,
            ident: 0,
            reserved: false,
            dont: true,
            more: false,
            offset: 0,
            ttl: 64,
            proto: protocol.number(),
            csm: 0,
            src: self.v4,
            dst: addr,
        };
        let zeroed: [u8; 20] = header.emit();
        let csum: [u8; 2] = Checksum::of(zeroed.as_slice()).end();
        proof {
            lemma_fold_range(word_sum(zeroed@));
            assert(csum@ =~= checksum_bytes(word_sum(zeroed@)));
        }
        header.csm = (csum[0] as u16) * 256 + (csum[1] as u16);
        assert(header == self.outgoing_v4(protocol, addr, tos, payload@.len()).sealed());
        let bytes: [u8; 20] = header.emit();
        let mut out: Vec<u8> = Vec::new();
        append(&mut out, bytes.as_slice());
        append(&mut out, payload);
        out
    }
}

/// What one interface writes, the interface that it is addressed to takes
/// in whole: the datagram is accepted, is no fragment, names the sender and
/// the protocol, and carries the payload as it was handed over.
pub proof fn law_written_is_received(
    sender: Interface,
    receiver: Interface,
    protocol: Protocol,
    tos: ToS,
    payload: Seq<u8>,
)
    requires
        HEADER_LEN + payload.len() <= 0xFFFF,
    ensures
        ({
            let b = sender.datagram_v4(protocol, receiver.v4, tos, payload);
            let h = Header::parse_spec(b);
            &&& receiver.accepts_v4(b)
            &&& h.offset == 0 && !h.more
            &&& Protocol::of_number_spec(h.proto) == protocol
            &&& h.src == sender.v4
            &&& Interface::payload_v4(b) == payload
        }),
{
    let o = sender.outgoing_v4(protocol, receiver.v4, tos, payload.len());
    let h = o.sealed();
    let e = h.emit_spec();
    let b = sender.datagram_v4(protocol, receiver.v4, tos, payload);
    law_header_round_trip(h);
    law_sealed_header_verifies(o);
    assert(b.skip(12).take(4) =~= e.skip(12).take(4));
    assert(b.skip(16).take(4) =~= e.skip(16).take(4));
    assert(be32(b.skip(12)) == be32(b.skip(12).take(4)));
    assert(be32(b.skip(16)) == be32(b.skip(16).take(4)));
    assert(be32(e.skip(12)) == be32(e.skip(12).take(4)));
    assert(be32(e.skip(16)) == be32(e.skip(16).take(4)));
    assert(Header::parse_spec(b) == Header::parse_spec(e));
    assert(b.take(20) =~= e);
    assert(Interface::payload_v4(b) =~= payload);
}

} // verus!
