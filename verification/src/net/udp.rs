//! UDP of RFC 768: the port map, the checksum over the pseudo-header, and
//! the dispatch of what arrives to the socket that is bound to its port.

use vstd::prelude::*;

use crate::bytes::Slice;
use crate::error::Error;
use crate::map::{Index, SlotMap};
use crate::net::ip;
use crate::net::ip::checksum::{
    checksum_bytes, fold, lemma_fold_add, lemma_fold_range, lemma_sealed_sum_with,
    lemma_word_sum_concat, word_sum,
};
use crate::net::ip::{IpAddr, Protocol, SocketAddr, ToS, DiffServ, ECN};
use crate::utils::endian::{append, be16, be16_bytes, get_be16, lemma_be16_round_trip, to_be16};

verus! {

/// The first of the ephemeral ports; the last is 65535.
pub const EPHEMERAL: u16 = 49152;

/// The length of the UDP header.
pub const HEADER_LEN: usize = 8;

/// How many sockets can be bound at a time.
pub const CAPACITY: usize = 1024;

/// What the port map holds for a bound port.
#[derive(Clone, Copy, Debug, PartialEq, Eq, Structural)]
pub struct Entry {
    /// The port that the socket is bound to.
    pub port: u16,
    /// For a connected socket, the only address that it hears.
    pub peer: Option<SocketAddr>,
}

/// A bound socket.
#[derive(Clone, Copy, Debug, PartialEq, Eq, Structural)]
pub struct Socket {
    /// The local port.
    pub port: u16,
    /// The place of the socket in the port map, which it keeps while bound.
    pub index: Index,
}

/// A socket bound to an ephemeral port that hears one remote address only.
#[derive(Clone, Copy, Debug, PartialEq, Eq, Structural)]
pub struct Connected {
    pub inner: Socket,
    pub addr: SocketAddr,
}

/// A datagram for the owner of a socket.
pub struct Delivery {
    /// The place of the socket in the port map.
    pub index: Index,
    /// The port that the datagram was sent to.
    pub port: u16,
    /// Where the datagram came from.
    pub src: SocketAddr,
    /// What the datagram carries.
    pub payload: Slice,
}

/// What becomes of a segment that arrives.
pub ghost enum Outcome {
    /// It is turned away.
    Rejected(Error),
    /// It is dropped without an error: it is not from the peer of the
    /// connected socket that it was sent to.
    Dropped,
    /// It goes to the owner of a socket.
    Delivered { index: usize, port: u16, src: SocketAddr, payload: Seq<u8> },
}

/// Whether the result `r` is the outcome `o`.
pub open spec fn agrees(r: Result<Option<Delivery>, Error>, o: Outcome) -> bool {
    match o {
        Outcome::Rejected(e) => r == Err::<Option<Delivery>, Error>(e),
        Outcome::Dropped => r == Ok::<Option<Delivery>, Error>(None),
        Outcome::Delivered { index, port, src, payload } => {
            &&& r matches Ok(Some(d))
            &&& d.index.0 == index
            &&& d.port == port
            &&& d.src == src
            &&& d.payload@ == payload
        },
    }
}

/// The ephemeral port that follows `p`, wrapping from the last to the first.
pub open spec fn succ(p: u16) -> u16 {
    if p == 0xFFFF {
        EPHEMERAL
    } else {
        (p + 1) as u16
    }
}

/// The first port that is not taken among the `n` ports that follow `p`.
pub open spec fn probe(taken: Set<u16>, p: u16, n: nat) -> Option<u16>
    decreases n,
{
    if n == 0 {
        None
    } else if !taken.contains(succ(p)) {
        Some(succ(p))
    } else {
        probe(taken, succ(p), (n - 1) as nat)
    }
}

/// How many steps lead from the port `p` to the ephemeral port `q`, at
/// least one: the ports are walked in a circle.
pub open spec fn steps(p: u16, q: u16) -> nat {
    if q > p {
        (q - p) as nat
    } else {
        (q - p + 16384) as nat
    }
}

proof fn lemma_probe_reaches(taken: Set<u16>, p: u16, q: u16, n: nat)
    requires
        p >= EPHEMERAL,
        q >= EPHEMERAL,
        !taken.contains(q),
        n >= steps(p, q),
    ensures
        probe(taken, p, n) is Some,
    decreases n,
{
    if taken.contains(succ(p)) {
        lemma_probe_reaches(taken, succ(p), q, (n - 1) as nat);
    }
}

/// A free ephemeral port is found: where the cursor stands among the
/// ephemeral ports and one of them is not taken, the search for the first
/// free port after the cursor, which wraps once, comes upon a free port.
pub proof fn law_free_port_is_found(taken: Set<u16>, p: u16, q: u16)
    requires
        p >= EPHEMERAL,
        q >= EPHEMERAL,
        !taken.contains(q),
    ensures
        probe(taken, p, ephemeral_ports()) is Some,
        !taken.contains(probe(taken, p, ephemeral_ports())->Some_0),
        probe(taken, p, ephemeral_ports())->Some_0 >= EPHEMERAL,
{
    lemma_probe_reaches(taken, p, q, ephemeral_ports());
    lemma_probe_free(taken, p, ephemeral_ports());
}

proof fn lemma_probe_free(taken: Set<u16>, p: u16, n: nat)
    requires
        p >= EPHEMERAL,
    ensures
        probe(taken, p, n) matches Some(r) ==> !taken.contains(r) && r >= EPHEMERAL,
    decreases n,
{
    if n > 0 && taken.contains(succ(p)) {
        lemma_probe_free(taken, succ(p), (n - 1) as nat);
    }
}

/// The number of ephemeral ports.
pub open spec fn ephemeral_ports() -> nat {
    16384
}

/// The UDP side of the interface.
pub struct Interface {
    /// The port number of the last created ephemeral socket.
    nxt: u16,
    /// The bound ports.
    map: SlotMap<Entry>,
}

impl Interface {
    /// What each bound port holds.
    pub closed spec fn bound(&self) -> Map<u16, Entry> {
        self.map@
    }

    /// The place in the port map of the socket bound to `port`.
    pub closed spec fn index_of(&self, port: u16) -> usize {
        self.map.index_of(port)
    }

    /// The port of the last created ephemeral socket.
    pub closed spec fn cursor(&self) -> u16 {
        self.nxt
    }

    /// The port map is sound and holds no more than it may, and the cursor
    /// stands among the ephemeral ports.
    pub closed spec fn wf(&self) -> bool {
        &&& self.map.wf()
        &&& self.map.capacity() == CAPACITY
        &&& self.nxt >= EPHEMERAL
    }

    /// What a sound interface offers: the cursor stands among the
    /// ephemeral ports, and no more ports are bound than may be.
    pub proof fn lemma_wf(&self)
        requires
            self.wf(),
        ensures
            self.cursor() >= EPHEMERAL,
            self.bound().dom().finite(),
            self.bound().dom().len() <= CAPACITY,
    {
        self.map.lemma_wf();
    }

    /// An interface with no bound port.
    pub fn new() -> (u: Interface)
        ensures
            u.wf(),
            u.bound() == Map::<u16, Entry>::empty(),
            u.cursor() == EPHEMERAL,
    {
        Interface { nxt: EPHEMERAL, map: SlotMap::new(CAPACITY) }
    }

    /// Whether a socket is bound to `port`.
    pub fn is_bound(&self, port: u16) -> (b: bool)
        requires
            self.wf(),
        ensures
            b == self.bound().contains_key(port),
    {
        self.map.contains(port)
    }

    /// The number of bound sockets.
    pub fn len(&self) -> (n: usize)
        requires
            self.wf(),
        ensures
            n == self.bound().dom().len(),
            n <= CAPACITY,
    {
        self.map.len()
    }

    /// Unbind `port`. Gives back what the port map held for it.
    pub fn close(&mut self, port: u16) -> (r: Option<Entry>)
        requires
            old(self).wf(),
        ensures
            final(self).wf(),
            final(self).cursor() >= EPHEMERAL,
            final(self).cursor() == old(self).cursor(),
            final(self).bound() == old(self).bound().remove(port),
            r == (if old(self).bound().contains_key(port) {
                Some(old(self).bound()[port])
            } else {
                None::<Entry>
            }),
            forall|q: u16|
                q != port && old(self).bound().contains_key(q) ==> final(self).index_of(q) == old(
                    self,
                ).index_of(q),
    {
        self.map.remove(port)
    }

    /// Bind `port`, for a socket that hears `peer` only where one is given.
    fn bind_port(&mut self, port: u16, peer: Option<SocketAddr>) -> (r: Result<Socket, Error>)
        requires
            old(self).wf(),
        ensures
            final(self).wf(),
            final(self).cursor() >= EPHEMERAL,
            final(self).cursor() == old(self).cursor(),
            match r {
                Ok(s) => {
                    &&& !old(self).bound().contains_key(port)
                    &&& old(self).bound().dom().len() < CAPACITY
                    &&& s.port == port
                    &&& s.index.0 == final(self).index_of(port)
                    &&& final(self).bound() == old(self).bound().insert(port, Entry { port, peer })
                },
                Err(e) => {
                    &&& e == Error::AddrInUse
                    &&& old(self).bound().contains_key(port) || old(self).bound().dom().len()
                        == CAPACITY
                    &&& final(self).bound() == old(self).bound()
                },
            },
            forall|q: u16|
                old(self).bound().contains_key(q) ==> final(self).index_of(q) == old(self).index_of(
                    q,
                ),
    {
        match self.map.insert(port, Entry { port, peer }) {
            Ok(index) => Ok(Socket { port, index }),
            Err(_) => Err(Error::AddrInUse),
        }
    }

    /// Bind the first ephemeral port after the cursor that is free.
    fn bind_next(&mut self, peer: Option<SocketAddr>) -> (r: Result<Socket, Error>)
        requires
            old(self).wf(),
        ensures
            final(self).wf(),
            final(self).cursor() >= EPHEMERAL,
            match r {
                Ok(s) => {
                    &&& old(self).bound().dom().len() < CAPACITY
                    &&& probe(old(self).bound().dom(), old(self).cursor(), ephemeral_ports())
                        == Some(s.port)
                    &&& s.port >= EPHEMERAL
                    &&& !old(self).bound().contains_key(s.port)
                    &&& s.index.0 == final(self).index_of(s.port)
                    &&& final(self).cursor() == s.port
                    &&& final(self).bound() == old(self).bound().insert(
                        s.port,
                        Entry { port: s.port, peer },
                    )
                },
                Err(e) => {
                    &&& e == Error::AddrInUse
                    &&& old(self).bound().dom().len() == CAPACITY || probe(
                        old(self).bound().dom(),
                        old(self).cursor(),
                        ephemeral_ports(),
                    ) is None
                    &&& final(self).bound() == old(self).bound()
                    &&& final(self).cursor() == old(self).cursor()
                },
            },
            forall|q: u16|
                old(self).bound().contains_key(q) ==> final(self).index_of(q) == old(self).index_of(
                    q,
                ),
    {
        if self.map.len() >= CAPACITY {
            return Err(Error::AddrInUse);
        }
        let mut port: u16 = self.nxt;
        let mut left: u32 = 16384;
        while left > 0
            invariant
                self.wf(),
                *self == *old(self),
                self.bound().dom().len() < CAPACITY,
                port >= EPHEMERAL,
                left <= 16384,
                probe(old(self).bound().dom(), old(self).cursor(), ephemeral_ports()) == probe(
                    old(self).bound().dom(),
                    port,
                    left as nat,
                ),
            decreases left,
        {
            let ghost before = port;
            let ghost taken = old(self).bound().dom();
            // Step to the next port, wrapping to the first ephemeral port.
            port = if port == 0xFFFF {
                EPHEMERAL
            } else {
                port + 1
            };
            assert(port == succ(before));
            if !self.map.contains(port) {
                assert(!taken.contains(port));
                assert(probe(taken, before, left as nat) == Some(port));
                self.nxt = port;
                assert(self.bound() == old(self).bound());
                return self.bind_port(port, peer);
            }
            assert(taken.contains(port));
            assert(probe(taken, before, left as nat) == probe(taken, port, (left - 1) as nat));
            left = left - 1;
        }
        Err(Error::AddrInUse)
    }

    /// Whether the UDP segment `b` from `addr` is taken in: it holds a
    /// whole header, its length field is the length of the segment, and it
    /// verifies against the pseudo-header where it carries a checksum; over
    /// IPv6 it must carry one.
    pub open spec fn accepts(ip: ip::Interface, addr: IpAddr, b: Seq<u8>) -> bool {
        &&& b.len() >= HEADER_LEN
        &&& be16(b[4], b[5]) == b.len()
        &&& (addr is V6 || be16(b[6], b[7]) != 0) ==> fold(
            word_sum(ip.pseudo_header(Protocol::Udp, addr)) + b.len() + word_sum(b),
        ) == 0xFFFF
    }

    /// What becomes of the UDP segment `b` from `addr`: it is turned away
    /// as malformed where it is not accepted, and as for an unknown port
    /// where no socket is bound to its destination; it is dropped where the
    /// socket is connected to another address; else it is delivered.
    pub open spec fn verdict(&self, ip: ip::Interface, addr: IpAddr, b: Seq<u8>) -> Outcome {
        let dst = be16(b[2], b[3]);
        let src = SocketAddr { addr, port: be16(b[0], b[1]) };
        if !Self::accepts(ip, addr, b) {
            Outcome::Rejected(Error::MalformedPacket)
        } else if !self.bound().contains_key(dst) {
            Outcome::Rejected(Error::UnknownPort)
        } else if self.bound()[dst].peer matches Some(p) && p != src {
            Outcome::Dropped
        } else {
            Outcome::Delivered {
                index: self.index_of(dst),
                port: dst,
                src,
                payload: b.skip(HEADER_LEN as int),
            }
        }
    }

    /// Take in a UDP segment from `addr` and find the socket that it is
    /// for. A connected socket hears its peer only: what others send to it
    /// is dropped, which is no error.
    pub fn recv(&self, ip: &ip::Interface, addr: IpAddr, buf: Slice) -> (r: Result<
        Option<Delivery>,
        Error,
    >)
        requires
            self.wf(),
        ensures
            agrees(r, self.verdict(*ip, addr, buf@)),
    {
        let mut buf = buf;
        let ghost b = buf@;
        let n: usize = buf.len();
        if n < HEADER_LEN {
            return Err(Error::MalformedPacket);
        }
        let head: &[u8] = buf.as_slice();
        let src_port: u16 = get_be16(head, 0);
        let dst: u16 = get_be16(head, 2);
        let len: u16 = get_be16(head, 4);
        let sum: u16 = get_be16(head, 6);
        if len as usize != n {
            return Err(Error::MalformedPacket);
        }
        if addr.is_ipv6() || sum != 0 {
            let mut csum = ip.pseudo_checksum(Protocol::Udp, addr);
            let len_bytes: [u8; 2] = to_be16(len);
            csum.push(len_bytes.as_slice());
            csum.push(head);
            proof {
                lemma_length_sum(len);
                let p = word_sum(ip.pseudo_header(Protocol::Udp, addr));
                lemma_fold_add(p, len as nat);
                lemma_fold_add(p + len as nat, word_sum(b));
            }
            if !csum.verifies() {
                return Err(Error::MalformedPacket);
            }
        }
        let src = SocketAddr { addr, port: src_port };
        let index: Index = match self.map.find_index(dst) {
            Some(i) => i,
            None => {
                return Err(Error::UnknownPort);
            },
        };
        let entry: Entry = match self.map.find(dst) {
            Some(e) => *e,
            None => {
                return Err(Error::UnknownPort);
            },
        };
        match entry.peer {
            Some(p) => {
                if p != src {
                    // The datagram is not from the address that the socket is connected to.
                    return Ok(None);
                }
            },
            None => {},
        }
        let _ = buf.split_bytes(HEADER_LEN);
        Ok(Some(Delivery { index, port: dst, src, payload: buf }))
    }
}

/// The two bytes of a length add the length to a word sum.
proof fn lemma_length_sum(len: u16)
    ensures
        word_sum(be16_bytes(len)) == len,
{
    let s = be16_bytes(len);
    assert(s.skip(2).len() == 0);
    assert(word_sum(s) == (s[0] as nat) * 256 + (s[1] as nat) + word_sum(s.skip(2)));
}

/// The length of the IP header of a datagram for `addr`.
pub open spec fn header_len(addr: IpAddr) -> nat {
    match addr {
        IpAddr::V4(_) => ip::v4::HEADER_LEN as nat,
        IpAddr::V6(_) => ip::v6::HEADER_LEN as nat,
    }
}

/// The bytes of a UDP segment before its checksum is filled in.
pub open spec fn unsealed(src: u16, dst: u16, payload: Seq<u8>) -> Seq<u8> {
    be16_bytes(src) + be16_bytes(dst) + be16_bytes((HEADER_LEN + payload.len()) as u16) + seq![
        0u8,
        0u8,
    ] + payload
}

/// The bytes of the UDP segment that carries `payload` from port `src` of
/// the interface `ip` to `dst`: the header with the length of the segment,
/// and the checksum over pseudo-header, header and payload.
pub open spec fn segment(ip: ip::Interface, src: u16, dst: SocketAddr, payload: Seq<u8>) -> Seq<u8> {
    let zeroed = unsealed(src, dst.port, payload);
    let c = checksum_bytes(
        word_sum(ip.pseudo_header(Protocol::Udp, dst.addr)) + zeroed.len() + word_sum(zeroed),
    );
    zeroed.update(6, c[0]).update(7, c[1])
}

impl Socket {
    /// Bind a socket to `port`. Fails with `AddrInUse` where the port is
    /// taken or no further socket can be bound.
    pub fn bind(udp: &mut Interface, port: u16) -> (r: Result<Socket, Error>)
        requires
            old(udp).wf(),
        ensures
            final(udp).wf(),
            final(udp).cursor() >= EPHEMERAL,
            final(udp).cursor() == old(udp).cursor(),
            match r {
                Ok(s) => {
                    &&& !old(udp).bound().contains_key(port)
                    &&& old(udp).bound().dom().len() < CAPACITY
                    &&& s.port == port
                    &&& s.index.0 == final(udp).index_of(port)
                    &&& final(udp).bound() == old(udp).bound().insert(
                        port,
                        Entry { port, peer: None },
                    )
                },
                Err(e) => {
                    &&& e == Error::AddrInUse
                    &&& old(udp).bound().contains_key(port) || old(udp).bound().dom().len()
                        == CAPACITY
                    &&& final(udp).bound() == old(udp).bound()
                },
            },
            forall|q: u16|
                old(udp).bound().contains_key(q) ==> final(udp).index_of(q) == old(udp).index_of(q),
    {
        udp.bind_port(port, None)
    }

    /// Bind a socket to the first ephemeral port after the cursor that is
    /// free; the search wraps once from 65535 to 49152. Fails with
    /// `AddrInUse` where none is free or no further socket can be bound.
    pub fn bind_eph(udp: &mut Interface) -> (r: Result<Socket, Error>)
        requires
            old(udp).wf(),
        ensures
            final(udp).wf(),
            final(udp).cursor() >= EPHEMERAL,
            match r {
                Ok(s) => {
                    &&& old(udp).bound().dom().len() < CAPACITY
                    &&& probe(old(udp).bound().dom(), old(udp).cursor(), ephemeral_ports()) == Some(
                        s.port,
                    )
                    &&& s.port >= EPHEMERAL
                    &&& !old(udp).bound().contains_key(s.port)
                    &&& s.index.0 == final(udp).index_of(s.port)
                    &&& final(udp).cursor() == s.port
                    &&& final(udp).bound() == old(udp).bound().insert(
                        s.port,
                        Entry { port: s.port, peer: None },
                    )
                },
                Err(e) => {
                    &&& e == Error::AddrInUse
                    &&& old(udp).bound().dom().len() == CAPACITY || probe(
                        old(udp).bound().dom(),
                        old(udp).cursor(),
                        ephemeral_ports(),
                    ) is None
                    &&& final(udp).bound() == old(udp).bound()
                    &&& final(udp).cursor() == old(udp).cursor()
                },
            },
            forall|q: u16|
                old(udp).bound().contains_key(q) ==> final(udp).index_of(q) == old(udp).index_of(q),
    {
        udp.bind_next(None)
    }

    /// Write the UDP segment that carries `payload` from this socket to `dst`.
    pub fn segment(&self, ip: &ip::Interface, dst: SocketAddr, payload: &[u8]) -> (r: Vec<u8>)
        requires
            HEADER_LEN + payload@.len() <= 0xFFFF,
        ensures
            r@ == segment(*ip, self.port, dst, payload@),
    {
        let len: u16 = (HEADER_LEN + payload.len()) as u16;
        let src_bytes: [u8; 2] = to_be16(self.port);
        let dst_bytes: [u8; 2] = to_be16(dst.port);
        let len_bytes: [u8; 2] = to_be16(len);
        let zero: [u8; 2] = [0, 0];
        let mut out: Vec<u8> = Vec::new();
        append(&mut out, src_bytes.as_slice());
        append(&mut out, dst_bytes.as_slice());
        append(&mut out, len_bytes.as_slice());
        append(&mut out, zero.as_slice());
        append(&mut out, payload);
        let ghost zeroed = out@;
        proof {
            assert(zero@ =~= seq![0u8, 0u8]);
            assert(zeroed =~= unsealed(self.port, dst.port, payload@));
        }
        let mut csum = ip.pseudo_checksum(Protocol::Udp, dst.addr);
        csum.push(len_bytes.as_slice());
        csum.push(out.as_slice());
        proof {
            lemma_length_sum(len);
            let p = word_sum(ip.pseudo_header(Protocol::Udp, dst.addr));
            lemma_fold_add(p, len as nat);
            lemma_fold_add(p + len as nat, word_sum(zeroed));
            lemma_fold_range(p + len as nat + word_sum(zeroed));
        }
        let c: [u8; 2] = csum.end();
        out[6] = c[0];
        out[7] = c[1];
        proof {
            let total = word_sum(ip.pseudo_header(Protocol::Udp, dst.addr)) + zeroed.len()
                + word_sum(zeroed);
            assert(c@ =~= checksum_bytes(total));
            assert(out@ =~= segment(*ip, self.port, dst, payload@));
        }
        out
    }

    /// Write the IP datagram that carries `payload` from this socket to
    /// `dst`, with the default type of service.
    pub fn write(&self, ip: &ip::Interface, dst: SocketAddr, payload: &[u8]) -> (r: Vec<u8>)
        requires
            HEADER_LEN + payload@.len() + header_len(dst.addr) <= 0xFFFF,
        ensures
            r@ == (match dst.addr {
                IpAddr::V4(a) => ip.datagram_v4(
                    Protocol::Udp,
                    a,
                    ToS { ecn: ECN::NotECT, ds: DiffServ::Default },
                    segment(*ip, self.port, dst, payload@),
                ),
                IpAddr::V6(a) => ip.datagram_v6(
                    Protocol::Udp,
                    a,
                    ToS { ecn: ECN::NotECT, ds: DiffServ::Default },
                    segment(*ip, self.port, dst, payload@),
                ),
            }),
    {
        let tos = ToS::new(ECN::NotECT, DiffServ::Default);
        let seg: Vec<u8> = self.segment(ip, dst, payload);
        match dst.addr {
            IpAddr::V4(a) => ip.write_v4(Protocol::Udp, a, tos, seg.as_slice()),
            IpAddr::V6(a) => ip.write_v6(Protocol::Udp, a, tos, seg.as_slice()),
        }
    }
}

impl Connected {
    /// Bind a socket to an ephemeral port that hears `addr` only.
    pub fn bind(udp: &mut Interface, addr: SocketAddr) -> (r: Result<Connected, Error>)
        requires
            old(udp).wf(),
        ensures
            final(udp).wf(),
            final(udp).cursor() >= EPHEMERAL,
            match r {
                Ok(c) => {
                    &&& old(udp).bound().dom().len() < CAPACITY
                    &&& probe(old(udp).bound().dom(), old(udp).cursor(), ephemeral_ports()) == Some(
                        c.inner.port,
                    )
                    &&& c.addr == addr
                    &&& c.inner.port >= EPHEMERAL
                    &&& !old(udp).bound().contains_key(c.inner.port)
                    &&& c.inner.index.0 == final(udp).index_of(c.inner.port)
                    &&& final(udp).cursor() == c.inner.port
                    &&& final(udp).bound() == old(udp).bound().insert(
                        c.inner.port,
                        Entry { port: c.inner.port, peer: Some(addr) },
                    )
                },
                Err(e) => {
                    &&& e == Error::AddrInUse
                    &&& old(udp).bound().dom().len() == CAPACITY || probe(
                        old(udp).bound().dom(),
                        old(udp).cursor(),
                        ephemeral_ports(),
                    ) is None
                    &&& final(udp).bound() == old(udp).bound()
                    &&& final(udp).cursor() == old(udp).cursor()
                },
            },
            forall|q: u16|
                old(udp).bound().contains_key(q) ==> final(udp).index_of(q) == old(udp).index_of(q),
    {
        match udp.bind_next(Some(addr)) {
            Ok(inner) => Ok(Connected { inner, addr }),
            Err(e) => Err(e),
        }
    }

    /// The address that the socket is connected to.
    pub fn addr(&self) -> (a: &SocketAddr)
        ensures
            *a == self.addr,
    {
        &self.addr
    }

    /// Write the IP datagram that carries `payload` to the connected address.
    pub fn write(&self, ip: &ip::Interface, payload: &[u8]) -> (r: Vec<u8>)
        requires
            HEADER_LEN + payload@.len() + header_len(self.addr.addr) <= 0xFFFF,
        ensures
            r@ == (match self.addr.addr {
                IpAddr::V4(a) => ip.datagram_v4(
                    Protocol::Udp,
                    a,
                    ToS { ecn: ECN::NotECT, ds: DiffServ::Default },
                    segment(*ip, self.inner.port, self.addr, payload@),
                ),
                IpAddr::V6(a) => ip.datagram_v6(
                    Protocol::Udp,
                    a,
                    ToS { ecn: ECN::NotECT, ds: DiffServ::Default },
                    segment(*ip, self.inner.port, self.addr, payload@),
                ),
            }),
    {
        self.inner.write(ip, self.addr, payload)
    }
}

/// A segment that one interface writes, the interface that it is addressed
/// to takes in: it verifies against the receiver's pseudo-header, names the
/// ports it was written with, and carries the payload as it was handed over.
pub proof fn law_segment_round_trip(
    sender: ip::Interface,
    receiver: ip::Interface,
    src: u16,
    dst: SocketAddr,
    payload: Seq<u8>,
)
    requires
        HEADER_LEN + payload.len() <= 0xFFFF,
        receiver.local(dst.addr) == dst.addr,
    ensures
        ({
            let b = segment(sender, src, dst, payload);
            &&& Interface::accepts(receiver, sender.local(dst.addr), b)
            &&& be16(b[0], b[1]) == src
            &&& be16(b[2], b[3]) == dst.port
            &&& b.skip(HEADER_LEN as int) == payload
        }),
{
    let zeroed = unsealed(src, dst.port, payload);
    let b = segment(sender, src, dst, payload);
    let from = sender.local(dst.addr);
    lemma_be16_round_trip(src);
    lemma_be16_round_trip(dst.port);
    lemma_be16_round_trip((HEADER_LEN + payload.len()) as u16);
    assert(b.skip(HEADER_LEN as int) =~= payload);
    // Both ends sum the same two addresses and the same tail.
    let tail = seq![0u8, 0u8, 0u8, Protocol::Udp.number_spec()];
    let near = dst.addr.bytes();
    let far = from.bytes();
    assert(near.len() % 2 == 0 && far.len() % 2 == 0);
    lemma_word_sum_concat(near, far + tail);
    lemma_word_sum_concat(far, tail);
    lemma_word_sum_concat(far, near + tail);
    lemma_word_sum_concat(near, tail);
    assert(sender.pseudo_header(Protocol::Udp, dst.addr) =~= near + (far + tail));
    assert(receiver.pseudo_header(Protocol::Udp, from) =~= far + (near + tail));
    let p = word_sum(sender.pseudo_header(Protocol::Udp, dst.addr));
    assert(p == word_sum(receiver.pseudo_header(Protocol::Udp, from)));
    lemma_sealed_sum_with(zeroed, 6, p + zeroed.len());
}

} // verus!
