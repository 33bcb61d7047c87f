//! The fixed header of IPv6. Extension headers are not read.

use vstd::prelude::*;

use super::{Inbound, Interface, IpAddr, Protocol, ToS};
use crate::bytes::Slice;
use crate::error::Error;
use crate::utils::endian::{
    append, append_be128, be128, be128_bytes, be16, be16_bytes, get_be128, get_be16, to_be16,
};

verus! {

/// The length of the fixed header.
pub const HEADER_LEN: usize = 40;

impl Interface {
    /// Whether the IPv6 packet `b` is taken in: it holds a whole header, is
    /// addressed to this interface, and its length field, which counts the
    /// header too, fits header and packet.
    pub open spec fn accepts_v6(self, b: Seq<u8>) -> bool {
        &&& b.len() >= HEADER_LEN
        &&& be128(b.skip(24)) == self.v6
        &&& HEADER_LEN <= be16(b[4], b[5]) <= b.len()
    }

    /// The payload of the IPv6 packet `b`.
    pub open spec fn payload_v6(b: Seq<u8>) -> Seq<u8> {
        b.subrange(HEADER_LEN as int, be16(b[4], b[5]) as int)
    }

    /// Take in an IPv6 packet: always a whole datagram for the transport.
    pub fn recv_v6(&self, buf: Slice) -> (r: Result<Inbound, Error>)
        ensures
            match r {
                Ok(Inbound::Whole { proto, src, payload }) => {
                    &&& self.accepts_v6(buf@)
                    &&& proto == Protocol::of_number_spec(buf@[6])
                    &&& src == IpAddr::V6(be128(buf@.skip(8)))
                    &&& payload@ == Self::payload_v6(buf@)
                },
                Ok(Inbound::Part { .. }) => false,
                Err(e) => !self.accepts_v6(buf@) && e == Error::MalformedPacket,
            },
    {
        let mut buf = buf;
        let ghost b = buf@;
        let n: usize = buf.len();
        if n < HEADER_LEN {
            return Err(Error::MalformedPacket);
        }
        let head: &[u8] = buf.as_slice();
        let dst: u128 = get_be128(head, 24);
        let src: u128 = get_be128(head, 8);
        let len: usize = get_be16(head, 4) as usize;
        let proto: Protocol = Protocol::of_number(head[6]);
        if dst != self.v6 {
            return Err(Error::MalformedPacket);
        }
        if len < HEADER_LEN || n < len {
            return Err(Error::MalformedPacket);
        }
        let _ = buf.split_bytes(HEADER_LEN);
        buf.truncate(len - HEADER_LEN);
        proof {
            assert(buf@ =~= Self::payload_v6(b));
        }
        Ok(Inbound::Whole { proto, src: IpAddr::V6(src), payload: buf })
    }

    /// The bytes of an IPv6 datagram that leaves for `addr` with `payload`:
    /// version 6, the type of service, a flow label of zero, the length of
    /// header and payload together, a hop limit of 64.
    pub open spec fn datagram_v6(self, protocol: Protocol, addr: u128, tos: ToS, payload: Seq<u8>) -> Seq<
        u8,
    > {
        seq![(96 + tos.byte_spec() / 16) as u8, ((tos.byte_spec() % 16) * 16) as u8, 0u8, 0u8]
            + be16_bytes((HEADER_LEN + payload.len()) as u16) + seq![protocol.number_spec(), 64u8]
            + be128_bytes(self.v6) + be128_bytes(addr) + payload
    }

    /// Write an IPv6 datagram for `addr` around `payload`.
    pub fn write_v6(&self, protocol: Protocol, addr: u128, tos: ToS, payload: &[u8]) -> (r: Vec<u8>)
        requires
            HEADER_LEN + payload@.len() <= 0xFFFF,
        ensures
            r@ == self.datagram_v6(protocol, addr, tos, payload@),
    {
        let t: u8 = tos.byte();
        let word: [u8; 4] = [96 + t / 16, (t % 16) * 16, 0, 0];
        let len: [u8; 2] = to_be16((HEADER_LEN + payload.len()) as u16);
        let next: [u8; 2] = [protocol.number(), 64];
        let mut out: Vec<u8> = Vec::new();
        append(&mut out, word.as_slice());
        append(&mut out, len.as_slice());
        append(&mut out, next.as_slice());
        append_be128(&mut out, self.v6);
        append_be128(&mut out, addr);
        append(&mut out, payload);
        proof {
            assert(word@ =~= seq![
                (96 + tos.byte_spec() / 16) as u8,
                ((tos.byte_spec() % 16) * 16) as u8,
                0u8,
                0u8,
            ]);
            assert(next@ =~= seq![protocol.number_spec(), 64u8]);
        }
        out
    }
}

} // verus!
