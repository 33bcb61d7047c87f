//! The IP layer: version dispatch, the IPv4 and IPv6 headers, and reassembly.

use vstd::prelude::*;

use crate::bytes::Slice;
use crate::utils::endian::{append, append_be128, be128_bytes, be32_bytes, to_be32};

pub mod checksum;
pub mod fragment;
pub mod v4;
pub mod v6;

pub use checksum::Checksum;
use checksum::{fold, word_sum};

verus! {

/// An IPv4 or IPv6 address, held as the number that its bytes spell in
/// network order.
#[derive(Clone, Copy, Debug, PartialEq, Eq, Structural)]
pub enum IpAddr {
    V4(u32),
    V6(u128),
}

impl IpAddr {
    /// The bytes of the address in network order.
    pub open spec fn bytes(self) -> Seq<u8> {
        match self {
            IpAddr::V4(a) => be32_bytes(a),
            IpAddr::V6(a) => be128_bytes(a),
        }
    }

    /// Whether this is an IPv6 address.
    pub fn is_ipv6(&self) -> (b: bool)
        ensures
            b == (*self is V6),
    {
        match self {
            IpAddr::V4(_) => false,
            IpAddr::V6(_) => true,
        }
    }
}

/// An address and a port.
#[derive(Clone, Copy, Debug, PartialEq, Eq, Structural)]
pub struct SocketAddr {
    pub addr: IpAddr,
    pub port: u16,
}

/// The version that an IP packet claims in its first nibble.
#[derive(Clone, Copy, Debug, PartialEq, Eq, Structural)]
pub enum Version {
    V4,
    V6,
    Unknown,
}

/// The first byte of any IP packet.
#[derive(Clone, Copy, Debug, PartialEq, Eq, Structural)]
pub struct Prefix {
    pub byte: u8,
}

impl Prefix {
    /// The version in the high nibble: 4, 6, or something unknown.
    pub open spec fn ver_spec(self) -> Version {
        if self.byte / 16 == 4 {
            Version::V4
        } else if self.byte / 16 == 6 {
            Version::V6
        } else {
            Version::Unknown
        }
    }

    /// The version in the high nibble.
    pub fn ver(&self) -> (v: Version)
        ensures
            v == self.ver_spec(),
    {
        let nibble: u8 = self.byte / 16;
        if nibble == 4 {
            Version::V4
        } else if nibble == 6 {
            Version::V6
        } else {
            Version::Unknown
        }
    }
}

/// Differentiated services: only the default class is known.
#[derive(Clone, Copy, Debug, PartialEq, Eq, Structural)]
pub enum DiffServ {
    Default,
    Unknown,
}

/// Explicit congestion notification.
#[derive(Clone, Copy, Debug, PartialEq, Eq, Structural)]
pub enum ECN {
    NotECT,
    ECT1,
    ECT0,
    CE,
}

/// The type-of-service byte: six bits of differentiated services above two
/// bits of congestion notification.
#[derive(Clone, Copy, Debug, PartialEq, Eq, Structural)]
pub struct ToS {
    pub ecn: ECN,
    pub ds: DiffServ,
}

impl ToS {
    /// The byte on the wire.
    pub open spec fn byte_spec(self) -> u8 {
        let ecn: u8 = match self.ecn {
            ECN::NotECT => 0u8,
            ECN::ECT1 => 1u8,
            ECN::ECT0 => 2u8,
            ECN::CE => 3u8,
        };
        let ds: u8 = match self.ds {
            DiffServ::Default => 0u8,
            DiffServ::Unknown => 1u8,
        };
        (ds * 4 + ecn) as u8
    }

    /// What a byte on the wire says.
    pub open spec fn of_byte_spec(b: u8) -> ToS {
        ToS {
            ecn: if b % 4 == 0 {
                ECN::NotECT
            } else if b % 4 == 1 {
                ECN::ECT1
            } else if b % 4 == 2 {
                ECN::ECT0
            } else {
                ECN::CE
            },
            ds: if b / 4 == 0 {
                DiffServ::Default
            } else {
                DiffServ::Unknown
            },
        }
    }

    pub fn new(ecn: ECN, ds: DiffServ) -> (t: ToS)
        ensures
            t == (ToS { ecn, ds }),
    {
        ToS { ecn, ds }
    }

    /// The byte on the wire.
    pub fn byte(&self) -> (b: u8)
        ensures
            b == self.byte_spec(),
    {
        let ecn: u8 = match self.ecn {
            ECN::NotECT => 0,
            ECN::ECT1 => 1,
            ECN::ECT0 => 2,
            ECN::CE => 3,
        };
        let ds: u8 = match self.ds {
            DiffServ::Default => 0,
            DiffServ::Unknown => 1,
        };
        ds * 4 + ecn
    }

    /// Read a byte from the wire.
    pub fn of_byte(b: u8) -> (t: ToS)
        ensures
            t == ToS::of_byte_spec(b),
    {
        let low: u8 = b % 4;
        ToS {
            ecn: if low == 0 {
                ECN::NotECT
            } else if low == 1 {
                ECN::ECT1
            } else if low == 2 {
                ECN::ECT0
            } else {
                ECN::CE
            },
            ds: if b / 4 == 0 {
                DiffServ::Default
            } else {
                DiffServ::Unknown
            },
        }
    }
}

/// The transport protocol that an IP packet carries.
#[derive(Clone, Copy, Debug, PartialEq, Eq, Structural)]
pub enum Protocol {
    Tcp,
    Udp,
    Unknown,
}

impl Protocol {
    /// The protocol number on the wire. The unknown protocol is written as
    /// the number that follows UDP's.
    pub open spec fn number_spec(self) -> u8 {
        match self {
            Protocol::Tcp => 6,
            Protocol::Udp => 17,
            Protocol::Unknown => 18,
        }
    }

    /// What a protocol number stands for.
    pub open spec fn of_number_spec(n: u8) -> Protocol {
        if n == 6 {
            Protocol::Tcp
        } else if n == 17 {
            Protocol::Udp
        } else {
            Protocol::Unknown
        }
    }

    /// The protocol number on the wire.
    pub fn number(&self) -> (n: u8)
        ensures
            n == self.number_spec(),
    {
        match self {
            Protocol::Tcp => 6,
            Protocol::Udp => 17,
            Protocol::Unknown => 18,
        }
    }

    /// Read a protocol number from the wire.
    pub fn of_number(n: u8) -> (p: Protocol)
        ensures
            p == Protocol::of_number_spec(n),
    {
        if n == 6 {
            Protocol::Tcp
        } else if n == 17 {
            Protocol::Udp
        } else {
            Protocol::Unknown
        }
    }
}

/// What the IP layer makes of a packet that it accepts.
pub enum Inbound {
    /// A whole datagram, for the transport named by `proto`.
    Whole { proto: Protocol, src: IpAddr, payload: Slice },
    /// A fragment of a datagram, for reassembly.
    Part { key: fragment::Key, fragment: fragment::Fragment },
}

/// The addresses of the local end of the tunnel.
#[derive(Clone, Copy, Debug, PartialEq, Eq, Structural)]
pub struct Interface {
    pub v4: u32,
    pub v6: u128,
}

impl Interface {
    pub fn new(v4: u32, v6: u128) -> (i: Interface)
        ensures
            i == (Interface { v4, v6 }),
    {
        Interface { v4, v6 }
    }

    /// The local address of the family of `addr`.
    pub open spec fn local(self, addr: IpAddr) -> IpAddr {
        match addr {
            IpAddr::V4(_) => IpAddr::V4(self.v4),
            IpAddr::V6(_) => IpAddr::V6(self.v6),
        }
    }

    /// The start of the pseudo-header that transports fold into their
    /// checksums: the remote address, the local address of the same family,
    /// three zero bytes and the protocol number. The sum does not depend on
    /// which of the two addresses is the source.
    pub open spec fn pseudo_header(self, proto: Protocol, addr: IpAddr) -> Seq<u8> {
        addr.bytes() + self.local(addr).bytes() + seq![0u8, 0u8, 0u8, proto.number_spec()]
    }

    /// A checksum calculation that has taken in the start of the
    /// pseudo-header. The transport learns nothing of how addresses are laid out.
    pub fn pseudo_checksum(&self, proto: Protocol, addr: IpAddr) -> (c: Checksum)
        ensures
            c@ == fold(word_sum(self.pseudo_header(proto, addr))),
    {
        let mut bytes: Vec<u8> = Vec::new();
        match addr {
            IpAddr::V4(a) => {
                let remote: [u8; 4] = to_be32(a);
                let local: [u8; 4] = to_be32(self.v4);
                append(&mut bytes, remote.as_slice());
                append(&mut bytes, local.as_slice());
            },
            IpAddr::V6(a) => {
                append_be128(&mut bytes, a);
                append_be128(&mut bytes, self.v6);
            },
        }
        let tail: [u8; 4] = [0, 0, 0, proto.number()];
        append(&mut bytes, tail.as_slice());
        proof {
            assert(tail@ =~= seq![0u8, 0u8, 0u8, proto.number_spec()]);
            assert(bytes@ =~= self.pseudo_header(proto, addr));
        }
        Checksum::of(bytes.as_slice())
    }
}

} // verus!
