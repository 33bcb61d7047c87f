use wgstack::bytes::cursor::{write_at, Region};
use wgstack::bytes::inline::{Tag, CAPACITY};
use wgstack::bytes::{Bytes, Cursor, Inline, Slice, Store};
use wgstack::sparse::Ring;
use wgstack::error::{Error, Ext, ExtOpaque};
use wgstack::map::{Index, SlotMap, ValidIndex};
use wgstack::runtime::{after_poll, as_timeout, plan, polled, ret_to_err, Entry, Interest, Next, Ready, Step, Tasks};
use wgstack::utils::bytes::{all_zero, joined, same};
use wgstack::utils::endian::{get_be128, get_le64, to_be16, SwapBytes};
use wgstack::wireguard::timers::{after, elapsed, Fired, Timers, KEEPALIVE_TIMEOUT, REKEY_TIMEOUT, SECOND};

#[test]
fn slice_splits_at_both_ends() {
    let mut s = Slice::from_vec((0u8..10).collect());
    assert_eq!(s.len(), 10);
    assert_eq!(s.split_bytes(2), &[0, 1]);
    assert_eq!(s.rsplit_bytes(3), &[7, 8, 9]);
    assert_eq!(s.as_slice(), &[2, 3, 4, 5, 6]);
    let head: [u8; 2] = s.split();
    assert_eq!(head, [2, 3]);
    let tail: [u8; 1] = s.rsplit();
    assert_eq!(tail, [6]);
    assert_eq!(s.split_max(9), &[4, 5]);
    assert!(s.is_empty());
    assert_eq!(s.split_max(9), &[] as &[u8]);
}

#[test]
fn slice_truncates_and_splits_records() {
    let mut s = Slice::new(12);
    assert_eq!(s.as_slice(), &[0u8; 12]);
    s.truncate(9);
    assert_eq!(s.len(), 9);
    assert_eq!(s.split_n::<4>(2).len(), 8);
    assert_eq!(s.len(), 1);
}

#[test]
fn bytes_are_zeroed_and_sliced() {
    let mut b = Bytes::new(6);
    assert_eq!(b.as_slice(), &[0u8; 6]);
    b.set(2, 9);
    b.set(3, 8);
    assert_eq!(b.len(), 6);
    assert_eq!(b.slice(2, 5).as_slice(), &[9, 8, 0]);
}

#[test]
fn inline_holds_short_strings() {
    let s = Inline::new(&[1, 2, 3]).unwrap();
    assert!(s.tag());
    assert_eq!(s.len(), 3);
    assert_eq!(s.uninit_capacity(), CAPACITY - 3);
    assert_eq!(s.to_vec(), vec![1, 2, 3]);
    assert!(Inline::new(&[0; 23]).is_some());
    assert!(Inline::new(&[0; 24]).is_none());
    assert_eq!(Inline::new(&[]).unwrap().uninit_capacity(), CAPACITY);
}

#[test]
fn test_repr() {
    let store = Store::from([0].as_slice());
    assert_eq!(store.stack_len(), Some(1));
}

#[test]
fn tag_holds_the_length_above_its_bit() {
    assert_eq!(Tag::from_len(1).stack_len(), Some(1));
    assert_eq!(Tag::from_len(1).0, 3);
    assert_eq!(Tag(4).stack_len(), None);
    assert_eq!(Store::from(&[7; 24]).stack_len(), None);
}

#[test]
fn cursor_writes_nested_headers() {
    let c = Cursor::over(vec![0xee; 32]);
    assert_eq!(c.pivot(), 0);
    // set a header of four bytes aside, write the payload, seal the header
    let (header, rest) = c.split(4);
    assert_eq!(header, Region { at: 0, len: 4 });
    assert_eq!(rest.pivot(), 0);
    let rest = rest.push(&[1, 2, 3]);
    assert_eq!(rest.pivot(), 0);
    assert_eq!(rest.len(), 25);
    let done = rest.fill(header, &[9, 9, 0, 3]);
    assert_eq!(done.finish(), vec![9, 9, 0, 3, 1, 2, 3]);
}

#[test]
fn cursor_fork_shares_buffer_and_pivot() {
    let mut v = vec![0xffu8; 32];
    Cursor::vec(&mut v, |c: Cursor| {
        // a push through the fork moves the pivot of the cursor it came from
        let c = c.fork().push(&[1, 2, 3]).join();
        assert_eq!(c.pivot(), 3);
        assert_eq!(c.len(), 32);
        (c.pad_to(16), ())
    });
    let mut want = vec![1u8, 2, 3];
    want.resize(16, 0);
    assert_eq!(v, want);
    // a pivot on a multiple is left alone
    let c = Cursor::over(vec![0xff; 32]).fork().push(&[5; 16]).join().pad_to(16);
    assert_eq!(c.pivot(), 16);
    assert_eq!(c.finish(), vec![5; 16]);
    let c = Cursor::over(vec![0xff; 32]).pad_to(16);
    assert_eq!(c.pivot(), 0);
    // forks nest, and each join comes back to the window before it
    let c = Cursor::over(vec![0; 10]).fork().push(&[1]).fork().push(&[2, 2]).join();
    assert_eq!((c.pivot(), c.len()), (2, 9));
    let c = c.join();
    assert_eq!((c.pivot(), c.len()), (3, 10));
    assert_eq!(c.as_slice(), &[1, 2, 2, 0, 0, 0, 0, 0, 0, 0]);
}

#[test]
fn cursor_writes_a_data_message() {
    // header, payload in a window that spares the tag, padding, tag
    let c = Cursor::over(vec![0xee; 1500]).push(&[4; 16]);
    let c = c.fork().rlim(16).push(&[7; 5]).join();
    assert_eq!(c.pivot(), 5);
    let c = c.pad_to(16);
    assert_eq!(c.pivot(), 16);
    let (body, tag) = c.rsplit(16);
    assert_eq!(tag, Region { at: 32, len: 16 });
    assert_eq!(body.len(), 16);
    assert_eq!(body.as_slice(), &[7, 7, 7, 7, 7, 0, 0, 0, 0, 0, 0, 0, 0, 0, 0, 0]);
    assert_eq!(body.pivot(), 32);
    let out = body.fill(tag, &[9; 16]).finish();
    assert_eq!(out.len(), 48);
    assert_eq!(&out[..16], &[4; 16]);
    assert_eq!(&out[16..21], &[7; 5]);
    assert_eq!(&out[21..32], &[0; 11]);
    assert_eq!(&out[32..], &[9; 16]);
}

#[test]
fn cursor_limits_and_casts() {
    let c = Cursor::over(vec![0xee; 64]).lim(48);
    assert_eq!(c.len(), 48);
    let c = c.rlim(8);
    assert_eq!(c.len(), 40);
    let c = c.cast(21);
    assert_eq!((c.pivot(), c.len()), (21, 21));
    assert_eq!(c.finish().len(), 21);
    let mut buf = vec![0xee; 40];
    let r = Cursor::vec(&mut buf, |c: Cursor| (c.push(&[1, 2, 3, 4]).cast(5), 7u8));
    assert_eq!(r, 7);
    assert_eq!(buf, vec![1, 2, 3, 4, 0xee, 0xee, 0xee, 0xee, 0xee]);
    let mut v = vec![1u8, 2, 3, 4];
    write_at(&mut v, 1, &[8, 9]);
    assert_eq!(v, vec![1, 8, 9, 4]);
}

#[test]
fn slot_map_keeps_places() {
    let mut m: SlotMap<&str> = SlotMap::new(3);
    let a = m.insert(10, "a").unwrap();
    let b = m.insert(20, "b").unwrap();
    assert_ne!(a, b);
    assert_eq!(m.insert(10, "again"), Err("again"));
    let c = m.insert(30, "c").unwrap();
    assert_eq!(m.insert(40, "d"), Err("d"));
    assert_eq!(m.len(), 3);
    assert_eq!(m.find(20), Some(&"b"));
    assert_eq!(m.find_index(20), Some(b));
    assert_eq!(m.find(21), None);
    assert_eq!(m.remove(20), Some("b"));
    assert_eq!(m.remove(20), None);
    assert!(!m.contains(20));
    assert_eq!(m.get(b), None);
    assert_eq!(m.get(a), Some((10, &"a")));
    // places of the others stay; the vacant place is used again
    assert_eq!(m.find_index(30), Some(c));
    let d = m.insert(40, "d").unwrap();
    assert_eq!(d, b);
    assert_eq!(Index::new(5).get(), 5);
    assert_eq!(m.get(Index::new(7)), None);
}

#[test]
fn timeouts_and_return_values() {
    assert_eq!(as_timeout(None), -1);
    assert_eq!(as_timeout(Some(0)), 0);
    assert_eq!(as_timeout(Some(1_999_999)), 1);
    assert_eq!(as_timeout(Some(5 * SECOND)), 5000);
    assert_eq!(as_timeout(Some(1_500 * 1_000_000)), 1500);
    assert_eq!(as_timeout(Some(2_147_483_647 * 1_000_000)), 2_147_483_647);
    // a wait that does not fit is cut short, so that a timer always bounds the wait
    assert_eq!(as_timeout(Some(2_147_483_648 * 1_000_000)), i32::MAX);
    assert_eq!(as_timeout(Some(u64::MAX)), i32::MAX);
    assert_eq!(ret_to_err(12, false), Ok(Some(12)));
    assert_eq!(ret_to_err(0, true), Ok(Some(0)));
    assert_eq!(ret_to_err(-1, true), Ok(None));
    assert_eq!(ret_to_err(-1, false), Err(Error::IoFatal));
    assert_eq!(wgstack::runtime::send(5, false, 5), Ok(true));
    assert_eq!(wgstack::runtime::send(4, false, 5), Err(Error::IoFatal));
    assert_eq!(wgstack::runtime::send(-1, true, 5), Ok(false));
    let mut buf = Slice::new(1500);
    assert_eq!(wgstack::runtime::recv(100, false, &mut buf), Ok(true));
    assert_eq!(buf.len(), 100);
    assert_eq!(wgstack::runtime::recv(-1, true, &mut buf), Ok(false));
    assert_eq!(wgstack::runtime::recv(101, false, &mut buf), Err(Error::IoFatal));
    assert_eq!(polled(-1), Err(Error::IoFatal));
    assert_eq!(polled(0), Ok(false));
    assert_eq!(polled(3), Ok(true));
    assert_eq!(wgstack::runtime::unix(1_704_067_200 * SECOND + 5), Some(1_704_067_200));
    assert_eq!(wgstack::runtime::unix(u64::MAX), None);
    assert_eq!(wgstack::runtime::system(10, 5), 15);
}

#[test]
fn loop_plans_its_next_step() {
    assert_eq!(plan(true, true, Some(5), true), Step::Shutdown);
    assert_eq!(plan(false, true, Some(5), true), Step::Poll { timeout: Some(0) });
    assert_eq!(plan(false, false, Some(5), false), Step::Poll { timeout: Some(5) });
    assert_eq!(plan(false, false, None, true), Step::Poll { timeout: None });
    assert_eq!(plan(false, false, None, false), Step::Done);
    assert_eq!(after_poll(Ok(true), true), Next { exit: false, idle: false });
    assert_eq!(after_poll(Ok(false), true), Next { exit: false, idle: true });
    assert_eq!(after_poll(Ok(false), false), Next { exit: false, idle: false });
    assert_eq!(after_poll(Err(Error::IoFatal), true), Next { exit: true, idle: false });
}

#[test]
fn write_queue_is_first_in_first_out() {
    let mut e = Entry::new();
    let ready = Ready { readable: true, writable: true, error: false, hangup: false, invalid: false };
    assert_eq!(e.interest(), Interest { read: true, write: false });
    assert_eq!(e.serve(ready), Tasks { read: true, write: false });
    assert!(e.front().is_none());
    e.enqueue(vec![1]);
    e.enqueue(vec![2, 2]);
    assert_eq!(e.interest(), Interest { read: true, write: true });
    assert_eq!(e.serve(ready), Tasks { read: true, write: true });
    assert_eq!(e.serve(Ready { writable: false, ..ready }), Tasks { read: true, write: false });
    assert_eq!(e.front(), Some(&[1u8][..]));
    e.advance();
    assert_eq!(e.front(), Some(&[2u8, 2][..]));
    e.advance();
    assert_eq!(e.interest(), Interest { read: true, write: false });
}

#[test]
fn timer_table() {
    let mut t = Timers::new();
    assert!(!t.is_rekeying());
    assert_eq!(t.next_deadline(), None);
    t.send_init(100, 7);
    assert!(t.is_rekeying());
    assert_eq!(t.rekey, Some(100 + REKEY_TIMEOUT + 7));
    assert_eq!(t.rekey_start, Some(100));
    t.send_init(200, 0);
    assert_eq!(t.rekey_start, Some(100));
    assert_eq!(t.rekey, Some(200 + REKEY_TIMEOUT));
    // an earlier deadline does not pull the rekey timer in
    t.reset_rekey(0, 5);
    assert_eq!(t.rekey, Some(200 + REKEY_TIMEOUT));
    assert!(!t.rekey_elapsed(100 + 90 * SECOND - 1));
    assert!(t.rekey_elapsed(100 + 90 * SECOND));
    t.recv_resp(300);
    assert_eq!(t, Timers { rekey: None, keepalive: Some(300), rekey_start: None });
    assert_eq!(t.poll(299), None);
    assert_eq!(t.poll(300), Some(Fired::Keepalive));
    assert_eq!(t.keepalive, None);
    t.recv_data(400, false);
    assert_eq!(t.keepalive, Some(400 + KEEPALIVE_TIMEOUT));
    t.recv_data(500, false);
    assert_eq!(t.keepalive, Some(400 + KEEPALIVE_TIMEOUT));
    t.send_data(600, true);
    assert_eq!(t, Timers { rekey: None, keepalive: None, rekey_start: None });
    t.recv_data(700, true);
    assert_eq!(t.keepalive, None);
    t.send_data(800, false);
    assert_eq!(t.rekey, Some(800 + 15 * SECOND));
    t.recv_data(900, false);
    assert_eq!(t.rekey, None);
    t.send_resp(1000);
    t.reset_rekey(1000, 5);
    // the keepalive timer keeps the deadline that it has
    t.reset_keepalive(0, 1005);
    assert_eq!(t.keepalive, Some(900 + KEEPALIVE_TIMEOUT));
    assert_eq!(t.next_deadline(), Some(1005));
    // of two timers due together the keepalive goes first
    t.keepalive = Some(1005);
    assert_eq!(t.poll(1005), Some(Fired::Keepalive));
    assert_eq!(t.poll(1005), Some(Fired::Rekey));
    assert_eq!(t.poll(1005), None);
    assert_eq!(after(u64::MAX - 1, 5), u64::MAX);
    assert_eq!(elapsed(5, 9), 0);
    assert_eq!(elapsed(9, 5), 4);
    let j = Timers::jitter();
    assert!(j < 333_000_000);
    assert_eq!(j % 1_000_000, 0);
}

#[test]
fn bytes_in_both_orders() {
    assert_eq!(0x1234u16.swap(), 0x3412);
    assert_eq!(0x12345678u32.swap(), 0x78563412);
    assert_eq!(0x0102030405060708u64.swap(), 0x0807060504030201);
    assert_eq!(7u8.swap(), 7);
    assert_eq!(to_be16(0x1234), [0x12, 0x34]);
    assert_eq!(get_le64(&[1, 0, 0, 0, 0, 0, 0, 0x80], 0), 0x8000_0000_0000_0001);
    let mut b = [0u8; 17];
    b[1] = 0xfd;
    b[16] = 9;
    assert_eq!(get_be128(&b, 1), 0xfd00_0000_0000_0000_0000_0000_0000_0009);
    assert_eq!(joined(&[1], &[2, 3]), vec![1, 2, 3]);
    assert!(same(&[1, 2], &[1, 2]));
    assert!(!same(&[1, 2], &[1, 3]));
    assert!(!same(&[1, 2], &[1]));
    assert!(all_zero(&[0, 0]));
    assert!(!all_zero(&[0, 1]));
}

#[test]
fn results_report_their_errors() {
    let mut seen = 0;
    let r: Result<u8, u8> = Err(4);
    assert_eq!(r.ok_or(|e| seen = e), None);
    assert_eq!(seen, 4);
    let r: Result<u8, u8> = Ok(5);
    assert_eq!(r.ok_or(|e| seen = e), Some(5));
    assert_eq!(seen, 4);
    let mut ran = false;
    assert_eq!(None::<u8>.some_or(|| ran = true), None);
    assert!(ran);
    assert_eq!(Some(3).some_or(|| panic!("ran for a value")), Some(3));
}

#[test]
fn store_holds_short_strings_in_place() {
    let s = Store::from(&[0]);
    assert!(matches!(s, Store::Stack(_)));
    assert_eq!(s.len(), 1);
    let long = Store::from(&[7; 24]);
    assert!(matches!(long, Store::Boxed(_)));
    assert_eq!(long.to_vec(), vec![7; 24]);
    assert!(matches!(Store::from(&[7; 23]), Store::Stack(_)));
    assert!(long.same(&Store::from(&[7; 24])));
    assert!(!long.same(&Store::from(&[7; 23])));
    assert!(s.same(&Store::Boxed(vec![0])));
}

#[test]
fn ring_counts_indices_around() {
    let mut r: Ring<u8> = Ring::new(4);
    assert_eq!(r.get(0), None);
    assert_eq!(r.insert(5, 50), None);
    assert_eq!(r.get(1), Some(&50));
    assert_eq!(r.get(9), Some(&50));
    assert_eq!(r.get(2), None);
    assert_eq!(r.insert(1, 10), Some(50));
    assert_eq!(r.remove(13), Some(10));
    assert_eq!(r.remove(13), None);
    assert_eq!(r.get(1), None);
}
