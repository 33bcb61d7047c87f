//! The libpcap capture file format, little-endian, with timestamps of
//! nanoseconds: the header of a file and the header of each packet. The
//! bytes are written to a file, and read from one, by the program around
//! this library.

use vstd::prelude::*;

use crate::error::Error;
use crate::utils::endian::{append, get_le32, le32, le32_bytes, lemma_le32_round_trip, to_le32};

verus! {

/// The longest packet that is captured in full.
pub const SNAPLEN: u32 = 0xFFFF_FFFF;

/// The magic number of a file with timestamps of microseconds.
pub const MAGIC_MICROS: u32 = 0xa1b2c3d4;

/// The magic number of a file with timestamps of nanoseconds.
pub const MAGIC_NANOS: u32 = 0xa1b23c4d;

/// The length of the header of a file.
pub const HEADER_LEN: usize = 24;

/// The length of the header of a packet.
pub const PACKET_HEADER_LEN: usize = 16;

/// Data link type.
#[derive(Clone, Copy, Debug, PartialEq, Eq, Structural)]
pub struct Linktype(pub u32);

/// Raw IP: the packet begins with an IPv4 or IPv6 header.
pub const RAW: u32 = 101;

/// The header of a capture file of raw IP packets with timestamps of
/// nanoseconds: the magic number, version 2.4, no offset from UTC, no
/// accuracy, the longest packet, the link type.
pub open spec fn header_spec() -> Seq<u8> {
    le32_bytes(MAGIC_NANOS) + seq![2u8, 0u8, 4u8, 0u8] + le32_bytes(0) + le32_bytes(0) + le32_bytes(
        SNAPLEN,
    ) + le32_bytes(RAW)
}

/// The record of a packet captured at `time`, in nanoseconds since the
/// start of 1970: seconds, nanoseconds, the length captured and the length
/// on the wire, and the packet.
pub open spec fn record_spec(time: u64, packet: Seq<u8>) -> Seq<u8> {
    le32_bytes((time / 1_000_000_000) as u32) + le32_bytes((time % 1_000_000_000) as u32)
        + le32_bytes(packet.len() as u32) + le32_bytes(packet.len() as u32) + packet
}

/// A PCAP producer.
pub struct Writer {}

impl Writer {
    /// The header that starts a capture file.
    pub fn new() -> (r: (Writer, Vec<u8>))
        ensures
            r.1@ == header_spec(),
            r.1@.len() == HEADER_LEN,
    {
        let mut out: Vec<u8> = Vec::new();
        let version: [u8; 4] = [2, 0, 4, 0];
        append(&mut out, to_le32(MAGIC_NANOS).as_slice());
        append(&mut out, version.as_slice());
        append(&mut out, to_le32(0).as_slice());
        append(&mut out, to_le32(0).as_slice());
        append(&mut out, to_le32(SNAPLEN).as_slice());
        append(&mut out, to_le32(RAW).as_slice());
        proof {
            assert(version@ =~= seq![2u8, 0u8, 4u8, 0u8]);
        }
        (Writer {  }, out)
    }

    /// The record of `packet`, captured at `time`. Fails where the seconds
    /// of the time or the length of the packet do not fit 32 bits.
    pub fn log(&self, time: u64, packet: &[u8]) -> (r: Result<Vec<u8>, Error>)
        ensures
            match r {
                Ok(rec) => time / 1_000_000_000 <= u32::MAX && packet@.len() <= u32::MAX && rec@
                    == record_spec(time, packet@),
                Err(e) => !(time / 1_000_000_000 <= u32::MAX && packet@.len() <= u32::MAX) && e
                    == Error::MalformedPacket,
            },
    {
        let secs: u64 = time / 1_000_000_000;
        if secs > 0xFFFF_FFFF || packet.len() > 0xFFFF_FFFF {
            return Err(Error::MalformedPacket);
        }
        let len: u32 = packet.len() as u32;
        let mut out: Vec<u8> = Vec::new();
        append(&mut out, to_le32(secs as u32).as_slice());
        append(&mut out, to_le32((time % 1_000_000_000) as u32).as_slice());
        append(&mut out, to_le32(len).as_slice());
        append(&mut out, to_le32(len).as_slice());
        append(&mut out, packet);
        Ok(out)
    }
}

/// A PCAP consumer.
#[derive(Clone, Copy, Debug, PartialEq, Eq, Structural)]
pub struct Reader {
    /// Whether the capture has timestamps of nanoseconds.
    pub nano: bool,
}

/// What the header `b` of a capture file says: whether its timestamps are
/// nanoseconds, and its link type. `None` where the header is cut short,
/// its magic number is not known, or its version is not 2.4.
pub open spec fn opened(b: Seq<u8>) -> Option<(Reader, Linktype)> {
    if b.len() < HEADER_LEN || (le32(b) != MAGIC_MICROS && le32(b) != MAGIC_NANOS) || b[4] != 2
        || b[5] != 0 || b[6] != 4 || b[7] != 0 {
        None
    } else {
        Some((Reader { nano: le32(b) == MAGIC_NANOS }, Linktype(le32(b.skip(20)))))
    }
}

impl Reader {
    /// Read the header of a capture file.
    pub fn new(b: &[u8]) -> (r: Result<(Reader, Linktype), Error>)
        ensures
            match r {
                Ok(p) => opened(b@) == Some(p),
                Err(e) => opened(b@) is None && e == Error::MalformedPacket,
            },
    {
        if b.len() < HEADER_LEN {
            return Err(Error::MalformedPacket);
        }
        assert(b@.skip(0) =~= b@);
        let magic: u32 = get_le32(b, 0);
        let nano: bool = if magic == MAGIC_MICROS {
            false
        } else if magic == MAGIC_NANOS {
            true
        } else {
            return Err(Error::MalformedPacket);
        };
        if b[4] != 2 || b[5] != 0 || b[6] != 4 || b[7] != 0 {
            return Err(Error::MalformedPacket);
        }
        Ok((Reader { nano }, Linktype(get_le32(b, 20))))
    }

    /// The time of the packet whose header is `b`, in nanoseconds since
    /// the start of 1970.
    pub open spec fn time_spec(&self, b: Seq<u8>) -> u64 {
        (le32(b) * 1_000_000_000 + (if self.nano {
            le32(b.skip(4)) as int
        } else {
            le32(b.skip(4)) * 1000
        })) as u64
    }

    /// Read the header of a packet: the time of the packet, and the
    /// length of what was captured of it, which follows the header.
    pub fn visit(&self, b: &[u8]) -> (r: Result<(u64, u32), Error>)
        ensures
            match r {
                Ok(p) => b@.len() >= PACKET_HEADER_LEN && p.0 == self.time_spec(b@) && p.1 == le32(
                    b@.skip(8),
                ),
                Err(e) => b@.len() < PACKET_HEADER_LEN && e == Error::MalformedPacket,
            },
    {
        if b.len() < PACKET_HEADER_LEN {
            return Err(Error::MalformedPacket);
        }
        assert(b@.skip(0) =~= b@);
        let secs: u64 = get_le32(b, 0) as u64;
        let part: u64 = get_le32(b, 4) as u64;
        let time: u64 = secs * 1_000_000_000 + (if self.nano {
            part
        } else {
            part * 1000
        });
        Ok((time, get_le32(b, 8)))
    }
}

/// A reader takes in the header that a writer writes, as one of a capture
/// of raw IP packets with timestamps of nanoseconds.
pub proof fn law_header_round_trip()
    ensures
        opened(header_spec()) == Some((Reader { nano: true }, Linktype(RAW))),
{
    let b = header_spec();
    lemma_le32_round_trip(MAGIC_NANOS);
    lemma_le32_round_trip(RAW);
    assert(b.take(4) =~= le32_bytes(MAGIC_NANOS));
    assert(b.skip(20) =~= le32_bytes(RAW));
    assert(le32(b) == le32(b.take(4)));
}

} // verus!
