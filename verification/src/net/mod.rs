//! The IP and UDP layers that ride on the tunnel.

use vstd::prelude::*;

use crate::bytes::Slice;
use crate::error::Error;
use ip::fragment::{admits, complete, join, put, Fragment, FragmentView, Key, Store};
use ip::{Inbound, IpAddr, Prefix, Protocol, Version};
use udp::{agrees, Delivery, Outcome};

pub mod dns;
pub mod ip;
pub mod pcap;
pub mod udp;

pub use ip::SocketAddr;

verus! {

/// The network side of the tunnel: what is decrypted comes in here, and
/// goes out to the owner of a socket.
pub struct Interface {
    /// The local addresses.
    pub ip: ip::Interface,
    /// The packets under reassembly.
    pub fragment: Store,
    /// The bound sockets.
    pub udp: udp::Interface,
}

impl Interface {
    /// The parts of the interface are sound.
    pub open spec fn wf(&self) -> bool {
        self.fragment.wf() && self.udp.wf()
    }

    /// An interface with the local addresses `v4` and `v6`, no socket and
    /// no packet under reassembly.
    pub fn init(v4: u32, v6: u128) -> (i: Interface)
        ensures
            i.wf(),
            i.ip == (ip::Interface { v4, v6 }),
            i.fragment@ == Map::<Key, Seq<FragmentView>>::empty(),
            i.udp.bound() == Map::<u16, udp::Entry>::empty(),
            i.udp.cursor() == udp::EPHEMERAL,
    {
        Interface {
            ip: ip::Interface::new(v4, v6),
            fragment: Store::default(),
            udp: udp::Interface::new(),
        }
    }

    /// What becomes of a whole datagram for the transport `proto`: UDP
    /// takes what is for it; no other transport is served.
    pub open spec fn handled(&self, proto: Protocol, addr: IpAddr, b: Seq<u8>) -> Outcome {
        match proto {
            Protocol::Udp => self.udp.verdict(self.ip, addr, b),
            _ => Outcome::Rejected(Error::MalformedPacket),
        }
    }

    /// Hand a whole datagram to its transport.
    pub fn handle(&self, proto: Protocol, addr: IpAddr, buf: Slice) -> (r: Result<
        Option<Delivery>,
        Error,
    >)
        requires
            self.wf(),
        ensures
            agrees(r, self.handled(proto, addr, buf@)),
    {
        match proto {
            Protocol::Udp => self.udp.recv(&self.ip, addr, buf),
            Protocol::Tcp => Err(Error::MalformedPacket),
            Protocol::Unknown => Err(Error::MalformedPacket),
        }
    }

    /// Consume a packet fragment, passing completed packets to the transport.
    pub fn handle_fragment(&mut self, key: Key, fragment: Fragment) -> (r: Result<
        Option<Delivery>,
        Error,
    >)
        requires
            old(self).wf(),
        ensures
            final(self).wf(),
            final(self).ip == old(self).ip,
            final(self).udp == old(self).udp,
            ({
                let held = if old(self).fragment@.contains_key(key) {
                    old(self).fragment@[key]
                } else {
                    Seq::<FragmentView>::empty()
                };
                let now = put(held, fragment@);
                if !admits(held, fragment@) {
                    &&& r == Err::<Option<Delivery>, Error>(Error::MalformedPacket)
                    &&& final(self).fragment@ == old(self).fragment@
                } else if complete(now) {
                    &&& agrees(r, old(self).handled(key.proto, key.addr, join(now)))
                    &&& final(self).fragment@ == old(self).fragment@.remove(key)
                } else {
                    &&& r == Ok::<Option<Delivery>, Error>(None)
                    &&& final(self).fragment@ == old(self).fragment@.insert(key, now)
                }
            }),
    {
        match self.fragment.handle_fragment(key, fragment) {
            Err(e) => Err(e),
            Ok(None) => Ok(None),
            Ok(Some(whole)) => self.handle(key.proto, key.addr, whole),
        }
    }

    /// Take in a packet that the tunnel has decrypted: dispatch on the
    /// version, parse the header, reassemble where the packet is a
    /// fragment, and find the socket that the datagram is for.
    pub fn recv(&mut self, buf: Slice) -> (r: Result<Option<Delivery>, Error>)
        requires
            old(self).wf(),
        ensures
            final(self).wf(),
            final(self).ip == old(self).ip,
            final(self).udp == old(self).udp,
            ({
                let b = buf@;
                let me = old(self);
                if b.len() == 0 {
                    &&& r == Err::<Option<Delivery>, Error>(Error::MalformedPacket)
                    &&& final(self).fragment@ == me.fragment@
                } else {
                    match (Prefix { byte: b[0] }).ver_spec() {
                        Version::Unknown => {
                            &&& r == Err::<Option<Delivery>, Error>(Error::MalformedPacket)
                            &&& final(self).fragment@ == me.fragment@
                        },
                        Version::V6 => {
                            &&& final(self).fragment@ == me.fragment@
                            &&& if me.ip.accepts_v6(b) {
                                agrees(
                                    r,
                                    me.handled(
                                        Protocol::of_number_spec(b[6]),
                                        IpAddr::V6(crate::utils::endian::be128(b.skip(8))),
                                        ip::Interface::payload_v6(b),
                                    ),
                                )
                            } else {
                                r == Err::<Option<Delivery>, Error>(Error::MalformedPacket)
                            }
                        },
                        Version::V4 => {
                            let h = ip::v4::Header::parse_spec(b);
                            let proto = Protocol::of_number_spec(h.proto);
                            let src = IpAddr::V4(h.src);
                            let payload = ip::Interface::payload_v4(b);
                            if !me.ip.accepts_v4(b) {
                                &&& r == Err::<Option<Delivery>, Error>(Error::MalformedPacket)
                                &&& final(self).fragment@ == me.fragment@
                            } else if h.offset == 0 && !h.more {
                                &&& agrees(r, me.handled(proto, src, payload))
                                &&& final(self).fragment@ == me.fragment@
                            } else {
                                let key = Key { addr: src, proto, ident: h.ident as u32 };
                                let f = FragmentView {
                                    more: h.more,
                                    start: (h.offset * 8) as nat,
                                    data: payload,
                                };
                                let held = if me.fragment@.contains_key(key) {
                                    me.fragment@[key]
                                } else {
                                    Seq::<FragmentView>::empty()
                                };
                                let now = put(held, f);
                                if !admits(held, f) {
                                    &&& r == Err::<Option<Delivery>, Error>(Error::MalformedPacket)
                                    &&& final(self).fragment@ == me.fragment@
                                } else if complete(now) {
                                    &&& agrees(r, me.handled(key.proto, key.addr, join(now)))
                                    &&& final(self).fragment@ == me.fragment@.remove(key)
                                } else {
                                    &&& r == Ok::<Option<Delivery>, Error>(None)
                                    &&& final(self).fragment@ == me.fragment@.insert(key, now)
                                }
                            }
                        },
                    }
                }
            }),
    {
        if buf.is_empty() {
            return Err(Error::MalformedPacket);
        }
        let first: u8 = buf.as_slice()[0];
        let inbound: Inbound = match (Prefix { byte: first }).ver() {
            Version::V4 => match self.ip.recv_v4(buf) {
                Ok(i) => i,
                Err(e) => {
                    return Err(e);
                },
            },
            Version::V6 => match self.ip.recv_v6(buf) {
                Ok(i) => i,
                Err(e) => {
                    return Err(e);
                },
            },
            Version::Unknown => {
                return Err(Error::MalformedPacket);
            },
        };
        match inbound {
            Inbound::Whole { proto, src, payload } => self.handle(proto, src, payload),
            Inbound::Part { key, fragment } => self.handle_fragment(key, fragment),
        }
    }
}

} // verus!
