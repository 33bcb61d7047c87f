use wgstack::bytes::Slice;
use wgstack::error::Error;
use wgstack::net::ip::fragment::{Fragment, Key, State, Store};
use wgstack::net::ip::v4::Header;
use wgstack::net::ip::{Checksum, Inbound, IpAddr, Prefix, Protocol, SocketAddr, ToS, Version, DiffServ, ECN};
use wgstack::net::udp::{Connected, Socket, CAPACITY, EPHEMERAL};
use wgstack::net::{ip, udp, Interface};

const LOCAL: u32 = 0x0a00_0002;
const REMOTE: u32 = 0x0a00_0001;

fn fragment(start: u16, more: bool, data: &[u8]) -> Fragment {
    Fragment { more, start, buf: Slice::from_vec(data.to_vec()) }
}

fn key() -> Key {
    Key { addr: IpAddr::V4(REMOTE), proto: Protocol::Udp, ident: 7 }
}

#[test]
fn fragment_scenario() {
    let whole: Vec<u8> = (0u8..40).collect();
    let mut store = Store::default();
    let r = store.handle_fragment(key(), fragment(16, true, &whole[16..32]));
    assert!(matches!(r, Ok(None)));
    let r = store.handle_fragment(key(), fragment(0, true, &whole[0..16]));
    assert!(matches!(r, Ok(None)));
    assert!(store.contains(key()));
    let r = store.handle_fragment(key(), fragment(32, false, &whole[32..40]));
    match r {
        Ok(Some(buf)) => assert_eq!(buf.as_slice(), &whole[..]),
        _ => panic!("the packet was not delivered on the third fragment"),
    }
    assert!(store.is_empty());
}

#[test]
fn fragments_in_every_order() {
    let whole: Vec<u8> = (0u8..40).collect();
    let orders: [[usize; 3]; 6] = [[0, 1, 2], [0, 2, 1], [1, 0, 2], [1, 2, 0], [2, 0, 1], [2, 1, 0]];
    let cuts = [(0usize, 16usize, true), (16, 32, true), (32, 40, false)];
    for order in orders {
        let mut state = State::new();
        for (n, &which) in order.iter().enumerate() {
            let (from, to, more) = cuts[which];
            assert!(state.try_insert(fragment(from as u16, more, &whole[from..to])).is_ok());
            if n < 2 {
                assert!(state.assemble().is_none());
            }
        }
        assert_eq!(state.assemble().unwrap().as_slice(), &whole[..]);
    }
}

#[test]
fn fragments_that_overlap_are_refused() {
    let mut state = State::new();
    assert!(state.try_insert(fragment(16, true, &[1; 16])).is_ok());
    // the same start
    assert!(state.try_insert(fragment(16, true, &[2; 8])).is_err());
    // reaches into the successor
    assert!(state.try_insert(fragment(8, true, &[2; 9])).is_err());
    // starts inside the predecessor
    assert!(state.try_insert(fragment(31, true, &[2; 4])).is_err());
    // says that it is the last, but another follows
    assert!(state.try_insert(fragment(0, false, &[2; 16])).is_err());
    assert_eq!(state.len(), 1);
    // touches both neighbours
    assert!(state.try_insert(fragment(0, true, &[2; 16])).is_ok());
    assert!(state.try_insert(fragment(32, false, &[3; 8])).is_ok());
    // follows the fragment that was the last
    assert!(state.try_insert(fragment(40, false, &[4; 8])).is_err());
    assert_eq!(state.len(), 3);
    let back = state.try_insert(fragment(16, true, &[9; 3]));
    match back {
        Err(f) => assert_eq!(f.buf.as_slice(), &[9u8; 3]),
        Ok(()) => panic!("an overlapping fragment was taken"),
    }
}

#[test]
fn fragments_with_a_gap_do_not_assemble() {
    let mut state = State::new();
    assert!(state.assemble().is_none());
    assert!(state.try_insert(fragment(0, true, &[1; 8])).is_ok());
    assert!(state.try_insert(fragment(16, false, &[1; 8])).is_ok());
    assert!(state.assemble().is_none());
    assert!(state.try_insert(fragment(8, true, &[1; 8])).is_ok());
    assert_eq!(state.assemble().unwrap().len(), 24);
}

#[test]
fn store_keeps_packets_apart() {
    let mut store = Store::default();
    let other = Key { ident: 8, ..key() };
    assert!(matches!(store.handle_fragment(key(), fragment(0, true, &[1; 8])), Ok(None)));
    assert!(matches!(store.handle_fragment(other, fragment(0, true, &[2; 8])), Ok(None)));
    assert!(store.contains(key()) && store.contains(other));
    assert!(matches!(store.handle_fragment(key(), fragment(4, false, &[1; 8])), Err(Error::MalformedPacket)));
    match store.handle_fragment(other, fragment(8, false, &[3; 4])) {
        Ok(Some(buf)) => assert_eq!(buf.as_slice(), &[2, 2, 2, 2, 2, 2, 2, 2, 3, 3, 3, 3]),
        _ => panic!("the second packet was not delivered"),
    }
    assert!(store.contains(key()));
}

#[test]
fn ipv4_header_bytes() {
    let iface = ip::Interface::new(LOCAL, 0);
    let tos = ToS::new(ECN::NotECT, DiffServ::Default);
    let packet = iface.write_v4(Protocol::Udp, REMOTE, tos, &[0xaa, 0xbb]);
    assert_eq!(packet.len(), 22);
    assert_eq!(&packet[..10], &[0x45, 0x00, 0x00, 22, 0x00, 0x00, 0x40, 0x00, 64, 17]);
    assert_eq!(&packet[12..16], &[10, 0, 0, 2]);
    assert_eq!(&packet[16..20], &[10, 0, 0, 1]);
    assert_eq!(&packet[20..], &[0xaa, 0xbb]);
    // 4500 + 0016 + 0000 + 4000 + 4011 + 0a00 + 0002 + 0a00 + 0001 = d92a
    assert_eq!(&packet[10..12], &[!0xd9u8, !0x2au8]);
    assert_eq!(Checksum::of(&packet[..20]).end(), [0, 0]);
}

#[test]
fn ipv4_round_trip_and_bit_flips() {
    let sender = ip::Interface::new(REMOTE, 0);
    let receiver = ip::Interface::new(LOCAL, 0);
    let tos = ToS::new(ECN::CE, DiffServ::Unknown);
    let payload: Vec<u8> = (0u8..33).collect();
    let packet = sender.write_v4(Protocol::Tcp, LOCAL, tos, &payload);
    assert_eq!(packet[1], 7);
    match receiver.recv_v4(Slice::from_vec(packet.clone())) {
        Ok(Inbound::Whole { proto, src, payload: p }) => {
            assert_eq!(proto, Protocol::Tcp);
            assert_eq!(src, IpAddr::V4(REMOTE));
            assert_eq!(p.as_slice(), &payload[..]);
        }
        _ => panic!("the datagram was not taken in whole"),
    }
    for byte in 0..20 {
        for bit in 0..8 {
            let mut bent = packet.clone();
            bent[byte] ^= 1 << bit;
            assert_ne!(Checksum::of(&bent[..20]).end(), [0, 0]);
            if byte != 6 && byte != 7 && byte != 9 {
                assert!(matches!(receiver.recv_v4(Slice::from_vec(bent)), Err(Error::MalformedPacket)));
            }
        }
    }
    // not for this interface
    assert!(matches!(sender.recv_v4(Slice::from_vec(packet.clone())), Err(Error::MalformedPacket)));
    // cut short
    assert!(matches!(receiver.recv_v4(Slice::from_vec(packet[..40].to_vec())), Err(Error::MalformedPacket)));
    assert!(matches!(receiver.recv_v4(Slice::from_vec(packet[..19].to_vec())), Err(Error::MalformedPacket)));
    // trailing bytes beyond the length field are cut off
    let mut long = packet.clone();
    long.extend_from_slice(&[1, 2, 3]);
    match receiver.recv_v4(Slice::from_vec(long)) {
        Ok(Inbound::Whole { payload: p, .. }) => assert_eq!(p.as_slice(), &payload[..]),
        _ => panic!("the datagram was not taken in whole"),
    }
}

fn raw_v4(h: &Header, payload: &[u8]) -> Vec<u8> {
    let mut h = *h;
    h.csm = 0;
    let c = Checksum::of(&h.emit()).end();
    h.csm = u16::from_be_bytes(c);
    let mut out = h.emit().to_vec();
    out.extend_from_slice(payload);
    out
}

fn header(len: usize, offset: u16, more: bool) -> Header {
    Header {
        ihl: 5,
        tos: 0,
        len: (20 + len) as u16,
        ident: 0x1234,
        reserved: false,
        dont: false,
        more,
        offset,
        ttl: 64,
        proto: 17,
        csm: 0,
        src: REMOTE,
        dst: LOCAL,
    }
}

#[test]
fn ipv4_fragment_offset_counts_eight_bytes() {
    let receiver = ip::Interface::new(LOCAL, 0);
    let packet = raw_v4(&header(8, 3, true), &[1, 2, 3, 4, 5, 6, 7, 8]);
    assert_eq!(&packet[6..8], &[0x20, 0x03]);
    match receiver.recv_v4(Slice::from_vec(packet)) {
        Ok(Inbound::Part { key, fragment }) => {
            assert_eq!(key, Key { addr: IpAddr::V4(REMOTE), proto: Protocol::Udp, ident: 0x1234 });
            assert_eq!(fragment.start, 24);
            assert!(fragment.more);
            assert_eq!(fragment.buf.as_slice(), &[1, 2, 3, 4, 5, 6, 7, 8]);
        }
        _ => panic!("the fragment was not taken in as one"),
    }
    let parsed = Header::parse(&raw_v4(&header(8, 3, true), &[0; 8]));
    assert_eq!(parsed.offset, 3);
    assert_eq!(parsed.ident, 0x1234);
    assert!(parsed.more && !parsed.dont && !parsed.reserved);
}

#[test]
fn ipv4_options_are_skipped() {
    let receiver = ip::Interface::new(LOCAL, 0);
    let mut h = header(4 + 2, 0, false);
    h.ihl = 6;
    let mut bytes = h.emit().to_vec();
    bytes.extend_from_slice(&[1, 1, 1, 0, 0xaa, 0xbb]);
    let c = Checksum::of(&bytes[..24]).end();
    bytes[10] = c[0];
    bytes[11] = c[1];
    match receiver.recv_v4(Slice::from_vec(bytes.clone())) {
        Ok(Inbound::Whole { payload, .. }) => assert_eq!(payload.as_slice(), &[0xaa, 0xbb]),
        _ => panic!("the datagram was not taken in whole"),
    }
    // a header without a checksum is not verified
    bytes[10] = 0;
    bytes[11] = 0;
    assert!(receiver.recv_v4(Slice::from_vec(bytes.clone())).is_ok());
    // a header shorter than five words
    bytes[0] = 0x44;
    assert!(matches!(receiver.recv_v4(Slice::from_vec(bytes)), Err(Error::MalformedPacket)));
}

#[test]
fn ipv6_round_trip() {
    let a: u128 = 0xfd00_0000_0000_0000_0000_0000_0000_0001;
    let b: u128 = 0xfd00_0000_0000_0000_0000_0000_0000_0002;
    let sender = ip::Interface::new(0, a);
    let receiver = ip::Interface::new(0, b);
    let packet = sender.write_v6(Protocol::Udp, b, ToS::new(ECN::ECT0, DiffServ::Default), &[9, 8, 7]);
    assert_eq!(packet.len(), 43);
    assert_eq!(&packet[..8], &[0x60, 0x20, 0, 0, 0, 43, 17, 64]);
    assert_eq!(packet[8], 0xfd);
    assert_eq!(packet[23], 1);
    assert_eq!(packet[39], 2);
    match receiver.recv_v6(Slice::from_vec(packet.clone())) {
        Ok(Inbound::Whole { proto, src, payload }) => {
            assert_eq!(proto, Protocol::Udp);
            assert_eq!(src, IpAddr::V6(a));
            assert_eq!(payload.as_slice(), &[9, 8, 7]);
        }
        _ => panic!("the datagram was not taken in whole"),
    }
    assert!(matches!(sender.recv_v6(Slice::from_vec(packet.clone())), Err(Error::MalformedPacket)));
    assert!(matches!(receiver.recv_v6(Slice::from_vec(packet[..42].to_vec())), Err(Error::MalformedPacket)));
}

#[test]
fn version_and_protocol_numbers() {
    assert_eq!(Prefix { byte: 0x45 }.ver(), Version::V4);
    assert_eq!(Prefix { byte: 0x60 }.ver(), Version::V6);
    assert_eq!(Prefix { byte: 0x15 }.ver(), Version::Unknown);
    assert_eq!(Protocol::of_number(6), Protocol::Tcp);
    assert_eq!(Protocol::of_number(17), Protocol::Udp);
    assert_eq!(Protocol::of_number(1), Protocol::Unknown);
    assert_eq!(Protocol::Udp.number(), 17);
    assert_eq!(ToS::of_byte(0x03), ToS { ecn: ECN::CE, ds: DiffServ::Default });
    assert_eq!(ToS::of_byte(0x05), ToS { ecn: ECN::ECT1, ds: DiffServ::Unknown });
    assert_eq!(ToS::new(ECN::ECT0, DiffServ::Default).byte(), 2);
    assert!(IpAddr::V6(1).is_ipv6());
    assert!(!IpAddr::V4(1).is_ipv6());
}

#[test]
fn pseudo_checksum_sums_both_addresses() {
    let iface = ip::Interface::new(LOCAL, 5);
    let c = iface.pseudo_checksum(Protocol::Udp, IpAddr::V4(REMOTE));
    // 0a00 + 0001 + 0a00 + 0002 + 0000 + 0011 = 1414
    assert_eq!(c.end(), [!0x14u8, !0x14u8]);
    let d = iface.pseudo_checksum(Protocol::Udp, IpAddr::V6(7));
    // 0007 + 0005 + 0011 = 001d; all sixteen bytes of each address count
    assert_eq!(d.end(), [0xff, !0x1du8]);
    let e = iface.pseudo_checksum(Protocol::Udp, IpAddr::V6(7 << 64));
    assert_eq!(e.end(), [0xff, !0x1du8]);
}

#[test]
fn udp_bind_and_ephemeral_ports() {
    let mut u = udp::Interface::new();
    let s = Socket::bind(&mut u, 53).unwrap();
    assert_eq!(s.port, 53);
    assert!(u.is_bound(53));
    assert!(matches!(Socket::bind(&mut u, 53), Err(Error::AddrInUse)));
    let e1 = Socket::bind_eph(&mut u).unwrap();
    assert_eq!(e1.port, EPHEMERAL + 1);
    let e2 = Socket::bind_eph(&mut u).unwrap();
    assert_eq!(e2.port, EPHEMERAL + 2);
    assert_ne!(e1.index, e2.index);
    // a port that is taken is stepped over
    Socket::bind(&mut u, EPHEMERAL + 3).unwrap();
    let e4 = Socket::bind_eph(&mut u).unwrap();
    assert_eq!(e4.port, EPHEMERAL + 4);
    assert_eq!(u.len(), 5);
    // closing frees the port and keeps the places of the others
    assert!(u.close(e1.port).is_some());
    assert!(u.close(e1.port).is_none());
    assert!(!u.is_bound(e1.port));
    assert!(matches!(Socket::bind(&mut u, 53), Err(Error::AddrInUse)));
    let again = Socket::bind(&mut u, e1.port).unwrap();
    assert_eq!(again.index, e1.index);
}

#[test]
fn udp_ephemeral_ports_wrap_once() {
    let mut u = udp::Interface::new();
    Socket::bind(&mut u, 65535).unwrap();
    let mut last = 0u16;
    for _ in 0..10 {
        last = Socket::bind_eph(&mut u).unwrap().port;
    }
    assert_eq!(last, EPHEMERAL + 10);
    for p in (EPHEMERAL + 11)..=65534 {
        if u.len() < 20 {
            Socket::bind(&mut u, p).unwrap();
        }
    }
    // move the cursor to the end of the range
    let mut v = udp::Interface::new();
    for p in 0..1000u16 {
        Socket::bind(&mut v, 65535 - p).unwrap();
    }
    for _ in 0..23 {
        Socket::bind_eph(&mut v).unwrap();
    }
    let s = Socket::bind_eph(&mut v).unwrap();
    assert_eq!(s.port, EPHEMERAL + 24);
    assert_eq!(v.len(), CAPACITY);
    // the table is full
    assert!(matches!(Socket::bind_eph(&mut v), Err(Error::AddrInUse)));
    assert!(matches!(Socket::bind(&mut v, 80), Err(Error::AddrInUse)));
    v.close(65535);
    let w = Socket::bind_eph(&mut v).unwrap();
    assert_eq!(w.port, EPHEMERAL + 25);
}

#[test]
fn udp_ephemeral_search_wraps_to_the_first_port() {
    let mut u = udp::Interface::new();
    // walk the cursor to the last port
    let mut port = 0;
    for _ in 0..1024 {
        match Socket::bind_eph(&mut u) {
            Ok(s) => {
                port = s.port;
                u.close(s.port);
            }
            Err(_) => panic!("no free port"),
        }
    }
    assert_eq!(port, EPHEMERAL + 1024);
    for _ in 0..(65535 - (EPHEMERAL as u32 + 1024)) {
        let s = Socket::bind_eph(&mut u).unwrap();
        port = s.port;
        u.close(s.port);
    }
    assert_eq!(port, 65535);
    let s = Socket::bind_eph(&mut u).unwrap();
    assert_eq!(s.port, EPHEMERAL);
}

#[test]
fn udp_segment_round_trip() {
    let sender = ip::Interface::new(REMOTE, 1);
    let receiver = ip::Interface::new(LOCAL, 2);
    let mut u = udp::Interface::new();
    let bound = Socket::bind(&mut u, 4000).unwrap();
    let from = Socket { port: 5000, index: bound.index };
    let payload = [1u8, 2, 3, 4, 5];
    let seg = from.segment(&sender, SocketAddr { addr: IpAddr::V4(LOCAL), port: 4000 }, &payload);
    assert_eq!(&seg[..6], &[0x13, 0x88, 0x0f, 0xa0, 0, 13]);
    assert_eq!(&seg[8..], &payload);
    match u.recv(&receiver, IpAddr::V4(REMOTE), Slice::from_vec(seg.clone())) {
        Ok(Some(d)) => {
            assert_eq!(d.port, 4000);
            assert_eq!(d.index, bound.index);
            assert_eq!(d.src, SocketAddr { addr: IpAddr::V4(REMOTE), port: 5000 });
            assert_eq!(d.payload.as_slice(), &payload);
        }
        _ => panic!("the segment was not delivered"),
    }
    // a damaged payload
    let mut bent = seg.clone();
    bent[9] ^= 4;
    assert!(matches!(u.recv(&receiver, IpAddr::V4(REMOTE), Slice::from_vec(bent)), Err(Error::MalformedPacket)));
    // another source address
    assert!(matches!(u.recv(&receiver, IpAddr::V4(REMOTE + 1), Slice::from_vec(seg.clone())), Err(Error::MalformedPacket)));
    // no checksum over IPv4 is fine
    let mut bare = seg.clone();
    bare[6] = 0;
    bare[7] = 0;
    assert!(matches!(u.recv(&receiver, IpAddr::V4(REMOTE), Slice::from_vec(bare.clone())), Ok(Some(_))));
    // a length field that differs
    bare[5] = 12;
    assert!(matches!(u.recv(&receiver, IpAddr::V4(REMOTE), Slice::from_vec(bare)), Err(Error::MalformedPacket)));
    assert!(matches!(u.recv(&receiver, IpAddr::V4(REMOTE), Slice::from_vec(vec![0; 7])), Err(Error::MalformedPacket)));
    // no socket at the port
    let stray = from.segment(&sender, SocketAddr { addr: IpAddr::V4(LOCAL), port: 4001 }, &payload);
    assert!(matches!(u.recv(&receiver, IpAddr::V4(REMOTE), Slice::from_vec(stray)), Err(Error::UnknownPort)));
}

#[test]
fn udp_over_ipv6_needs_a_checksum() {
    let a: u128 = 0xfd00_0000_0000_0000_0000_0000_0000_0001;
    let b: u128 = 0xfd00_0000_0000_0000_0000_0000_0000_0002;
    let sender = ip::Interface::new(0, a);
    let receiver = ip::Interface::new(0, b);
    let mut u = udp::Interface::new();
    let bound = Socket::bind(&mut u, 4000).unwrap();
    let from = Socket { port: 5000, index: bound.index };
    let seg = from.segment(&sender, SocketAddr { addr: IpAddr::V6(b), port: 4000 }, &[7, 7, 7]);
    assert!(matches!(u.recv(&receiver, IpAddr::V6(a), Slice::from_vec(seg.clone())), Ok(Some(_))));
    let mut bare = seg;
    bare[6] = 0;
    bare[7] = 0;
    assert!(matches!(u.recv(&receiver, IpAddr::V6(a), Slice::from_vec(bare)), Err(Error::MalformedPacket)));
}

#[test]
fn connected_socket_hears_its_peer_only() {
    let sender = ip::Interface::new(REMOTE, 1);
    let receiver = ip::Interface::new(LOCAL, 2);
    let mut u = udp::Interface::new();
    let peer = SocketAddr { addr: IpAddr::V4(REMOTE), port: 5000 };
    let c = Connected::bind(&mut u, peer).unwrap();
    assert_eq!(*c.addr(), peer);
    assert_eq!(c.inner.port, EPHEMERAL + 1);
    let to = SocketAddr { addr: IpAddr::V4(LOCAL), port: c.inner.port };
    let good = Socket { port: 5000, index: c.inner.index }.segment(&sender, to, &[1]);
    let other = Socket { port: 5001, index: c.inner.index }.segment(&sender, to, &[1]);
    assert!(matches!(u.recv(&receiver, IpAddr::V4(REMOTE), Slice::from_vec(good)), Ok(Some(_))));
    assert!(matches!(u.recv(&receiver, IpAddr::V4(REMOTE), Slice::from_vec(other)), Ok(None)));
    // what the connected socket writes is addressed to its peer
    let out = c.write(&receiver, &[4, 5]);
    assert_eq!(out.len(), 20 + 8 + 2);
    assert_eq!(&out[16..20], &[10, 0, 0, 1]);
    assert_eq!(&out[20..24], &[(c.inner.port >> 8) as u8, c.inner.port as u8, 0x13, 0x88]);
}

#[test]
fn whole_pipeline_delivers_to_the_socket() {
    let sender = ip::Interface::new(REMOTE, 1);
    let mut net = Interface::init(LOCAL, 2);
    let bound = Socket::bind(&mut net.udp, 4000).unwrap();
    let from = Socket { port: 5000, index: bound.index };
    let payload: Vec<u8> = (0u8..50).collect();
    let to = SocketAddr { addr: IpAddr::V4(LOCAL), port: 4000 };
    let datagram = from.write(&sender, to, &payload);
    match net.recv(Slice::from_vec(datagram.clone())) {
        Ok(Some(d)) => {
            assert_eq!(d.index, bound.index);
            assert_eq!(d.payload.as_slice(), &payload[..]);
        }
        _ => panic!("the datagram was not delivered"),
    }
    // the same in three fragments, out of order
    let seg = from.segment(&sender, to, &payload);
    assert_eq!(seg.len(), 58);
    let parts = [(2u16, true, &seg[16..40]), (0, true, &seg[..16]), (5, false, &seg[40..])];
    for (n, (offset, more, data)) in parts.iter().enumerate() {
        let packet = raw_v4(&header(data.len(), *offset, *more), data);
        match net.recv(Slice::from_vec(packet)) {
            Ok(None) => assert!(n < 2),
            Ok(Some(d)) => {
                assert_eq!(n, 2);
                assert_eq!(d.port, 4000);
                assert_eq!(d.src, SocketAddr { addr: IpAddr::V4(REMOTE), port: 5000 });
                assert_eq!(d.payload.as_slice(), &payload[..]);
            }
            Err(_) => panic!("a fragment was turned away"),
        }
    }
    assert!(net.fragment.is_empty());
    assert!(matches!(net.recv(Slice::from_vec(vec![])), Err(Error::MalformedPacket)));
    assert!(matches!(net.recv(Slice::from_vec(vec![0x75; 40])), Err(Error::MalformedPacket)));
    let tcp = sender.write_v4(Protocol::Tcp, LOCAL, ToS::new(ECN::NotECT, DiffServ::Default), &[0; 20]);
    assert!(matches!(net.recv(Slice::from_vec(tcp)), Err(Error::MalformedPacket)));
}
