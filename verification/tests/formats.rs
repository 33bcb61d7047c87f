use wgstack::error::Error;
use wgstack::net::dns::{answer, query, skip_name, Answer, Resolver, CAPACITY};
use wgstack::net::ip::IpAddr;
use wgstack::net::pcap::{Linktype, Reader, Writer, RAW};

#[test]
fn dns_query_bytes() {
    let q = query(0xabcd, b"example.com").unwrap();
    let mut want = vec![0xab, 0xcd, 0x01, 0x00, 0, 1, 0, 0, 0, 0, 0, 0];
    want.push(7);
    want.extend_from_slice(b"example");
    want.push(3);
    want.extend_from_slice(b"com");
    want.extend_from_slice(&[0, 0, 1, 0, 1]);
    assert_eq!(q, want);
    assert_eq!(&query(1, b"a.").unwrap()[12..], &[1, b'a', 0, 0, 0, 1, 0, 1]);
    assert_eq!(&query(1, b"").unwrap()[12..], &[0, 0, 0, 1, 0, 1]);
}

#[test]
fn dns_names_have_limits() {
    let label = vec![b'a'; 63];
    assert!(query(1, &label).is_ok());
    let long = vec![b'a'; 64];
    assert_eq!(query(1, &long), Err(Error::MalformedPacket));
    let mut name = Vec::new();
    for _ in 0..3 {
        name.extend_from_slice(&label);
        name.push(b'.');
    }
    name.extend_from_slice(&vec![b'a'; 61]);
    // 3 * 64 + 62 = 254 bytes of labels, and the root label
    assert_eq!(query(1, &name).unwrap().len(), 12 + 254 + 1 + 4);
    name.push(b'a');
    assert_eq!(query(1, &name), Err(Error::MalformedPacket));
}

fn reply(id: u16, addr: [u8; 4]) -> Vec<u8> {
    let mut b = vec![(id >> 8) as u8, id as u8, 0x81, 0x80, 0, 1, 0, 1, 0, 0, 0, 0];
    b.push(7);
    b.extend_from_slice(b"example");
    b.push(3);
    b.extend_from_slice(b"com");
    b.extend_from_slice(&[0, 0, 1, 0, 1]);
    // the name of the answer points back at the question
    b.extend_from_slice(&[0xc0, 0x0c, 0, 1, 0, 1, 0, 0, 0, 60, 0, 4]);
    b.extend_from_slice(&addr);
    b
}

#[test]
fn dns_answer_is_read() {
    let b = reply(0x1234, [93, 184, 216, 34]);
    assert_eq!(skip_name(&b, 12), Some(25));
    assert_eq!(skip_name(&b, 29), Some(31));
    assert_eq!(skip_name(&b, b.len()), None);
    assert_eq!(answer(&b), Ok(Answer { id: 0x1234, addr: 0x5db8d822 }));
    // a query is no answer
    let mut q = b.clone();
    q[2] = 0x01;
    assert_eq!(answer(&q), Err(Error::MalformedPacket));
    // two answers
    let mut two = b.clone();
    two[7] = 2;
    assert_eq!(answer(&two), Err(Error::MalformedPacket));
    // cut short
    assert_eq!(answer(&b[..b.len() - 1]), Err(Error::MalformedPacket));
    assert_eq!(answer(&b[..20]), Err(Error::MalformedPacket));
    // a label of a kind that is not known
    let mut odd = b.clone();
    odd[12] = 0x47;
    assert_eq!(answer(&odd), Err(Error::MalformedPacket));
    // an answer of another type
    let mut other = b.clone();
    other[32] = 5;
    assert_eq!(answer(&other), Err(Error::MalformedPacket));
}

#[test]
fn resolver_tracks_requests() {
    let server = IpAddr::V4(0x08080808);
    let mut r = Resolver::init(server);
    assert_eq!(r.gen_id(7), Some(7));
    let q = r.v4(7, b"example.com").unwrap();
    assert_eq!(&q[..2], &[0, 7]);
    assert_eq!(r.gen_id(7), Some(8));
    assert_eq!(r.v4(7, b"example.org"), Err(Error::AddrInUse));
    assert_eq!(r.v4(8, &[b'a'; 64]), Err(Error::MalformedPacket));
    r.v4_with(0xffff, b"example.net", IpAddr::V4(1)).unwrap();
    r.v4_with(0, b"example.net", IpAddr::V4(1)).unwrap();
    assert_eq!(r.gen_id(0xffff), Some(1));
    // an answer from another server, or to nothing that was asked
    assert_eq!(r.process(IpAddr::V4(9), &reply(7, [1, 2, 3, 4])), Err(Error::UnknownPeer));
    assert_eq!(r.process(server, &reply(9, [1, 2, 3, 4])), Err(Error::UnknownPeer));
    assert_eq!(r.process(server, &[0]), Err(Error::UnknownPeer));
    // a damaged answer leaves the request under way
    assert_eq!(r.process(server, &reply(7, [1, 2, 3, 4])[..30]), Err(Error::MalformedPacket));
    assert_eq!(r.process(server, &reply(7, [1, 2, 3, 4])), Ok(0x01020304));
    assert_eq!(r.process(server, &reply(7, [1, 2, 3, 4])), Err(Error::UnknownPeer));
    assert_eq!(r.gen_id(7), Some(7));
    assert!(CAPACITY >= 1024);
}

#[test]
fn pcap_header_and_records() {
    let (w, header) = Writer::new();
    assert_eq!(
        header,
        vec![0x4d, 0x3c, 0xb2, 0xa1, 2, 0, 4, 0, 0, 0, 0, 0, 0, 0, 0, 0, 0xff, 0xff, 0xff, 0xff, 101, 0, 0, 0]
    );
    let rec = w.log(3_000_000_007, &[0x45, 1, 2]).unwrap();
    assert_eq!(rec, vec![3, 0, 0, 0, 7, 0, 0, 0, 3, 0, 0, 0, 3, 0, 0, 0, 0x45, 1, 2]);
    assert_eq!(w.log(u64::MAX, &[]), Err(Error::MalformedPacket));
    let (r, link) = Reader::new(&header).unwrap();
    assert!(r.nano);
    assert_eq!(link, Linktype(RAW));
    assert_eq!(r.visit(&rec), Ok((3_000_000_007, 3)));
    assert_eq!(r.visit(&rec[..15]), Err(Error::MalformedPacket));
    let mut micro = header.clone();
    micro[..4].copy_from_slice(&[0xd4, 0xc3, 0xb2, 0xa1]);
    let (m, _) = Reader::new(&micro).unwrap();
    assert!(!m.nano);
    assert_eq!(m.visit(&rec), Ok((3_000_007_000, 3)));
    let mut bad = header.clone();
    bad[0] = 0;
    assert_eq!(Reader::new(&bad), Err(Error::MalformedPacket));
    let mut old = header.clone();
    old[6] = 3;
    assert_eq!(Reader::new(&old), Err(Error::MalformedPacket));
    assert_eq!(Reader::new(&header[..23]), Err(Error::MalformedPacket));
}
