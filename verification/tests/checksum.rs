use wgstack::net::ip::Checksum;

#[test]
fn checksum_of_rfc1071_example() {
    // RFC 1071, section 3: the words 0001 f203 f4f5 f6f7 sum to ddf2.
    let data = [0x00u8, 0x01, 0xf2, 0x03, 0xf4, 0xf5, 0xf6, 0xf7];
    assert_eq!(Checksum::of(&data).end(), [!0xddu8, !0xf2u8]);
}

#[test]
fn checksum_of_nothing_is_all_ones() {
    assert_eq!(Checksum::of(&[]).end(), [0xff, 0xff]);
    assert_eq!(Checksum::default().end(), [0xff, 0xff]);
}

#[test]
fn checksum_pads_odd_tail_with_zero() {
    assert_eq!(Checksum::of(&[0x12]).end(), Checksum::of(&[0x12, 0x00]).end());
    assert_eq!(Checksum::of(&[0x12, 0x34, 0x56]).end(), Checksum::of(&[0x12, 0x34, 0x56, 0x00]).end());
    assert_eq!(Checksum::of(&[0x12]).end(), [!0x12u8, 0xff]);
}

#[test]
fn checksum_push_continues_the_sum() {
    let mut c = Checksum::with(&[0x00, 0x01, 0xf2, 0x03]);
    c.push_chunk(&[0xf4, 0xf5, 0xf6, 0xf7]);
    assert_eq!(c.end(), [!0xddu8, !0xf2u8]);
    let mut d = Checksum::default();
    d.push(&[0x00, 0x01]);
    d.push(&[0xf2, 0x03, 0xf4, 0xf5, 0xf6, 0xf7]);
    assert_eq!(d.end(), [!0xddu8, !0xf2u8]);
}

#[test]
fn checksum_carries_wrap_around() {
    // ffff + ffff + 0001 = 1ffff, which folds to 0001
    let data = [0xffu8, 0xff, 0xff, 0xff, 0x00, 0x01];
    assert_eq!(Checksum::of(&data).end(), [0xff, 0xfe]);
    // three words of ffffffff and a one: the carries out of 32 bits are not lost
    let wide = [0xffu8, 0xff, 0xff, 0xff, 0xff, 0xff, 0xff, 0xff, 0xff, 0xff, 0xff, 0xff, 0x00, 0x00, 0x00, 0x01];
    assert_eq!(Checksum::of(&wide).end(), [0xff, 0xfe]);
}

#[test]
fn checksum_verifies_data_that_carry_it() {
    let mut data = vec![0x45u8, 0x00, 0x00, 0x1c, 0xab, 0xcd, 0x40, 0x00, 0x40, 0x11, 0x00, 0x00, 10, 0, 0, 1, 10, 0, 0, 2];
    let c = Checksum::of(&data).end();
    data[10] = c[0];
    data[11] = c[1];
    assert!(Checksum::of(&data).verifies());
    assert_eq!(Checksum::of(&data).end(), [0, 0]);
    data[3] ^= 0x10;
    assert!(!Checksum::of(&data).verifies());
}

#[test]
fn checksum_of_long_data_does_not_overflow() {
    let data = vec![0xffu8; 1 << 20];
    assert_eq!(Checksum::of(&data).end(), [0, 0]);
}
