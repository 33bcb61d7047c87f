use wgstack::error::Error;
use wgstack::wireguard::packet::{DATA, INITIATION, RESPONSE};
use wgstack::wireguard::peer::Fresh;
use wgstack::wireguard::timers::{Fired, KEEPALIVE_TIMEOUT, REKEY_AFTER_TIME, REKEY_TIMEOUT, SECOND};
use wgstack::wireguard::tunnel::Interface;
use wgstack::wireguard::Wireguard;

const NEW_YEAR_2024: u64 = 1_704_067_200;

fn fresh(ephemeral: u8, secs: u64) -> Fresh {
    let mut f = Fresh::draw(secs, 0).unwrap();
    f.ephemeral = [ephemeral; 32];
    f.jitter = 0;
    f
}

fn tag(packet: &[u8]) -> u32 {
    u32::from_le_bytes([packet[0], packet[1], packet[2], packet[3]])
}

fn ends() -> (Wireguard, Wireguard) {
    let pub_i = Interface::new([1; 32]).pubkey;
    let pub_r = Interface::new([2; 32]).pubkey;
    let i = Wireguard::with_index([1; 32], pub_r, [0; 32], 100);
    let r = Wireguard::with_index([2; 32], pub_i, [0; 32], 200);
    (i, r)
}

/// Run a handshake that the initiator starts at `now` by handing over `payload`.
/// Hands back the data message that carries the payload.
fn shake(i: &mut Wireguard, r: &mut Wireguard, now: u64, payload: &[u8], secs: u64) -> Vec<u8> {
    let out = i.write(now, payload.to_vec(), &fresh(0x11, secs)).unwrap();
    assert_eq!(out.len(), 1);
    let answer = r.read(now, &out[0], &fresh(0x22, secs)).unwrap();
    assert_eq!(answer.send.len(), 1);
    let done = i.read(now, &answer.send[0], &fresh(0x33, secs)).unwrap();
    assert_eq!(done.send.len(), 1);
    done.send[0].clone()
}

#[test]
fn handshake_scenario() {
    let (mut i, mut r) = ends();
    let out = i.write(0, vec![7u8; 16], &fresh(0x11, NEW_YEAR_2024)).unwrap();
    assert_eq!(out.len(), 1);
    let init = &out[0];
    assert_eq!(init.len(), 148);
    assert_eq!(tag(init), INITIATION);
    assert_eq!(&init[4..8], &100u32.to_le_bytes());
    // the ephemeral public key of the secret 0x11..11
    assert_eq!(&init[8..40], &Interface::new([0x11; 32]).pubkey);
    // no cookie is held: the second MAC is zero
    assert_eq!(&init[132..148], &[0u8; 16]);
    assert_ne!(&init[116..132], &[0u8; 16]);

    let answer = r.read(0, init, &fresh(0x22, NEW_YEAR_2024)).unwrap();
    assert!(answer.deliver.is_none());
    assert_eq!(answer.send.len(), 1);
    let resp = &answer.send[0];
    assert_eq!(resp.len(), 92);
    assert_eq!(tag(resp), RESPONSE);
    assert_eq!(&resp[4..8], &200u32.to_le_bytes());
    assert_eq!(&resp[8..12], &100u32.to_le_bytes());
    assert_eq!(&resp[12..44], &Interface::new([0x22; 32]).pubkey);
    assert_eq!(&resp[76..92], &[0u8; 16]);

    // the same keys, ephemerals and timestamp give the same bytes again
    let (mut i2, mut r2) = ends();
    let out2 = i2.write(5, vec![7u8; 16], &fresh(0x11, NEW_YEAR_2024)).unwrap();
    assert_eq!(&out2[0], init);
    let answer2 = r2.read(5, &out2[0], &fresh(0x22, NEW_YEAR_2024)).unwrap();
    assert_eq!(&answer2.send[0], resp);
}

#[test]
fn timestamp_is_tai64n() {
    let f = Fresh::draw(NEW_YEAR_2024, 5).unwrap();
    let secs = (1u64 << 62) + 37 + NEW_YEAR_2024;
    assert_eq!(&f.stamp[..8], &secs.to_be_bytes());
    assert_eq!(&f.stamp[8..], &5u32.to_be_bytes());
    assert!(f.jitter < 333_000_000);
    assert!(Fresh::draw(NEW_YEAR_2024, 1_000_000_000).is_none());
    assert!(Fresh::draw(1 << 62, 0).is_none());
    assert!(Fresh::draw(1 << 40, 0).is_none());
    assert!(Fresh::draw((1 << 40) - 1, 999_999_999).is_some());
}

#[test]
fn queue_drains_after_one_round_trip() {
    let (mut i, mut r) = ends();
    let payload = vec![9u8; 32];
    let data = shake(&mut i, &mut r, 0, &payload, NEW_YEAR_2024);
    assert_eq!(tag(&data), DATA);
    assert_eq!(data.len(), 16 + 32 + 16);
    // the receiver index is the session index of the responder
    assert_eq!(&data[4..8], &200u32.to_le_bytes());
    assert_eq!(&data[8..16], &0u64.to_le_bytes());
    let got = r.read(0, &data, &fresh(0x44, NEW_YEAR_2024)).unwrap();
    assert_eq!(got.deliver, Some(payload));
    assert!(got.send.is_empty());
}

#[test]
fn payload_is_padded_to_sixteen() {
    let (mut i, mut r) = ends();
    let data = shake(&mut i, &mut r, 0, &[1, 2, 3], NEW_YEAR_2024);
    assert_eq!(data.len(), 16 + 16 + 16);
    let got = r.read(0, &data, &fresh(0x44, NEW_YEAR_2024)).unwrap();
    let mut padded = vec![1u8, 2, 3];
    padded.resize(16, 0);
    assert_eq!(got.deliver, Some(padded));
}

#[test]
fn data_flows_both_ways_and_replay_is_refused() {
    let (mut i, mut r) = ends();
    let first = shake(&mut i, &mut r, 0, &[5u8; 16], NEW_YEAR_2024);
    r.read(0, &first, &fresh(0x44, NEW_YEAR_2024)).unwrap();
    let back = r.write(SECOND, vec![6u8; 16], &fresh(0x45, NEW_YEAR_2024)).unwrap();
    assert_eq!(back.len(), 1);
    assert_eq!(&back[0][4..8], &100u32.to_le_bytes());
    let got = i.read(SECOND, &back[0], &fresh(0x46, NEW_YEAR_2024)).unwrap();
    assert_eq!(got.deliver, Some(vec![6u8; 16]));
    match i.read(SECOND, &back[0], &fresh(0x46, NEW_YEAR_2024)) {
        Err(e) => assert_eq!(e, Error::Replay),
        Ok(_) => panic!("a replayed message was taken in"),
    }
    let mut bent = r.write(SECOND, vec![6u8; 16], &fresh(0x45, NEW_YEAR_2024)).unwrap();
    bent[0][20] ^= 1;
    match i.read(SECOND, &bent[0], &fresh(0x46, NEW_YEAR_2024)) {
        Err(e) => assert_eq!(e, Error::DecryptErr),
        Ok(_) => panic!("a damaged message was taken in"),
    }
    // the damaged message did not use up its counter
    bent[0][20] ^= 1;
    let got = i.read(SECOND, &bent[0], &fresh(0x46, NEW_YEAR_2024)).unwrap();
    assert_eq!(got.deliver, Some(vec![6u8; 16]));
}

#[test]
fn keepalive_scenario() {
    let (mut i, mut r) = ends();
    let first = shake(&mut i, &mut r, 0, &[5u8; 16], NEW_YEAR_2024);
    r.read(0, &first, &fresh(0x44, NEW_YEAR_2024)).unwrap();
    // the responder has heard a datagram that is no keepalive, and stays silent
    assert_eq!(r.next_deadline(), Some(KEEPALIVE_TIMEOUT));
    assert!(r.poll(KEEPALIVE_TIMEOUT - 1, &fresh(0x50, NEW_YEAR_2024)).is_none());
    let (peer, fired, out) = r.poll(KEEPALIVE_TIMEOUT, &fresh(0x50, NEW_YEAR_2024)).unwrap();
    assert_eq!(peer, 0);
    assert_eq!(fired, Fired::Keepalive);
    assert_eq!(out.len(), 1);
    assert_eq!(tag(&out[0]), DATA);
    assert_eq!(out[0].len(), 32);
    let got = i.read(KEEPALIVE_TIMEOUT, &out[0], &fresh(0x51, NEW_YEAR_2024)).unwrap();
    assert!(got.deliver.is_none());
    assert!(got.send.is_empty());
    // a keepalive that arrives sets no keepalive timer
    assert_eq!(i.peers[0].timers.keepalive, None);
    assert_eq!(i.peers[0].timers.rekey, None);
}

#[test]
fn receiving_arms_keepalive_only() {
    let (mut i, mut r) = ends();
    let first = shake(&mut i, &mut r, 0, &[5u8; 16], NEW_YEAR_2024);
    r.read(3 * SECOND, &first, &fresh(0x44, NEW_YEAR_2024)).unwrap();
    assert_eq!(r.peers[0].timers.keepalive, Some(3 * SECOND + KEEPALIVE_TIMEOUT));
    assert_eq!(r.peers[0].timers.rekey, None);
    let back = r.write(4 * SECOND, vec![6u8; 16], &fresh(0x45, NEW_YEAR_2024)).unwrap();
    // sending clears the keepalive timer and expects an answer
    assert_eq!(r.peers[0].timers.keepalive, None);
    assert_eq!(r.peers[0].timers.rekey, Some(4 * SECOND + KEEPALIVE_TIMEOUT + REKEY_TIMEOUT));
    i.read(4 * SECOND, &back[0], &fresh(0x46, NEW_YEAR_2024)).unwrap();
    // the response armed the keepalive of the initiator to fire at once;
    // its first data message cleared it; receiving arms it again
    assert_eq!(i.peers[0].timers.keepalive, Some(4 * SECOND + KEEPALIVE_TIMEOUT));
    assert_eq!(i.peers[0].timers.rekey, None);
}

#[test]
fn rekey_on_expiry_scenario() {
    let (mut i, mut r) = ends();
    let first = shake(&mut i, &mut r, 0, &[5u8; 16], NEW_YEAR_2024);
    r.read(0, &first, &fresh(0x44, NEW_YEAR_2024)).unwrap();
    let early = i.write(REKEY_AFTER_TIME - 1, vec![1u8; 16], &fresh(0x60, NEW_YEAR_2024 + 119)).unwrap();
    assert_eq!(early.len(), 1);
    assert_eq!(tag(&early[0]), DATA);
    let late = i.write(REKEY_AFTER_TIME, vec![2u8; 16], &fresh(0x61, NEW_YEAR_2024 + 120)).unwrap();
    assert_eq!(late.len(), 2);
    assert_eq!(tag(&late[0]), DATA);
    assert_eq!(tag(&late[1]), INITIATION);
    // a handshake is under way: the next message triggers no second one
    let next = i.write(REKEY_AFTER_TIME + 1, vec![3u8; 16], &fresh(0x62, NEW_YEAR_2024 + 121)).unwrap();
    assert_eq!(next.len(), 1);
    // the responder of a session does not rekey on age
    let back = r.write(REKEY_AFTER_TIME, vec![4u8; 16], &fresh(0x63, NEW_YEAR_2024 + 120)).unwrap();
    assert_eq!(back.len(), 1);
}

#[test]
fn session_rotation_scenario() {
    let (mut i, mut r) = ends();
    let first = shake(&mut i, &mut r, 0, &[5u8; 16], NEW_YEAR_2024);
    r.read(0, &first, &fresh(0x44, NEW_YEAR_2024)).unwrap();
    assert!(r.peers[0].wheel.pair.is_some());
    assert!(r.peers[0].wheel.next.is_none());
    let old_idx = r.peers[0].wheel.pair.as_ref().unwrap().0;

    // a message on the old session that is still under way
    let late = i.write(SECOND, vec![8u8; 16], &fresh(0x70, NEW_YEAR_2024 + 1)).unwrap();
    assert_eq!(late.len(), 1);

    // the initiator starts over at the age of 120 seconds
    let out = i.write(REKEY_AFTER_TIME, vec![9u8; 16], &fresh(0x71, NEW_YEAR_2024 + 120)).unwrap();
    assert_eq!(out.len(), 2);
    r.read(REKEY_AFTER_TIME, &out[0], &fresh(0x72, NEW_YEAR_2024 + 120)).unwrap();
    let answer = r.read(REKEY_AFTER_TIME, &out[1], &fresh(0x73, NEW_YEAR_2024 + 120)).unwrap();
    assert_eq!(answer.send.len(), 1);
    // the responder holds the new session as the one that waits
    let next_idx = r.peers[0].wheel.next.as_ref().unwrap().0;
    assert_ne!(next_idx, old_idx);
    assert_eq!(r.peers[0].wheel.pair.as_ref().unwrap().0, old_idx);

    i.read(REKEY_AFTER_TIME, &answer.send[0], &fresh(0x74, NEW_YEAR_2024 + 120)).unwrap();
    let on_new = i.write(REKEY_AFTER_TIME + 1, vec![10u8; 16], &fresh(0x75, NEW_YEAR_2024 + 121)).unwrap();
    assert_eq!(&on_new[0][4..8], &next_idx.to_le_bytes());

    // the first data on the session that waits promotes it
    let got = r.read(REKEY_AFTER_TIME + 1, &on_new[0], &fresh(0x76, NEW_YEAR_2024 + 121)).unwrap();
    assert_eq!(got.deliver, Some(vec![10u8; 16]));
    assert_eq!(r.peers[0].wheel.pair.as_ref().unwrap().0, next_idx);
    assert_eq!(r.peers[0].wheel.prev.as_ref().unwrap().0, old_idx);
    assert!(r.peers[0].wheel.next.is_none());

    // a late message on the old index still opens
    let got = r.read(REKEY_AFTER_TIME + 2, &late[0], &fresh(0x77, NEW_YEAR_2024 + 122)).unwrap();
    assert_eq!(got.deliver, Some(vec![8u8; 16]));

    // and what the responder sends goes out on the new session
    let back = r.write(REKEY_AFTER_TIME + 3, vec![11u8; 16], &fresh(0x78, NEW_YEAR_2024 + 123)).unwrap();
    let got = i.read(REKEY_AFTER_TIME + 3, &back[0], &fresh(0x79, NEW_YEAR_2024 + 123)).unwrap();
    assert_eq!(got.deliver, Some(vec![11u8; 16]));
}

#[test]
fn initiation_with_old_timestamp_is_a_replay() {
    let (mut i, mut r) = ends();
    let out = i.write(0, vec![7u8; 16], &fresh(0x11, NEW_YEAR_2024)).unwrap();
    r.read(0, &out[0], &fresh(0x22, NEW_YEAR_2024)).unwrap();
    match r.read(1, &out[0], &fresh(0x23, NEW_YEAR_2024)) {
        Err(e) => assert_eq!(e, Error::Replay),
        Ok(_) => panic!("an initiation was taken in twice"),
    }
}

#[test]
fn message_errors() {
    let (mut i, mut r) = ends();
    let f = fresh(0x11, NEW_YEAR_2024);
    assert!(matches!(r.read(0, &[1, 0, 0], &f), Err(Error::MalformedPacket)));
    assert!(matches!(r.read(0, &[9, 0, 0, 0, 1, 2, 3, 4], &f), Err(Error::MalformedPacket)));
    assert!(matches!(r.read(0, &[1, 0, 0, 0, 1, 2, 3, 4], &f), Err(Error::MalformedPacket)));
    assert!(matches!(r.read(0, &[4, 0, 0, 0, 1, 2, 3, 4], &f), Err(Error::MalformedPacket)));
    let mut init = i.write(0, vec![7u8; 16], &f).unwrap().remove(0);
    let good = init.clone();
    init[120] ^= 1;
    assert!(matches!(r.read(0, &init, &f), Err(Error::MacErr)));
    // data for a session that is not held
    let mut data = vec![0u8; 32];
    data[0] = 4;
    assert!(matches!(r.read(0, &data, &f), Err(Error::SessionExpired)));
    // a response to no initiation
    let resp = r.read(0, &good, &fresh(0x22, NEW_YEAR_2024)).unwrap().send.remove(0);
    let (mut other, _) = ends();
    assert!(matches!(other.read(0, &resp, &f), Err(Error::SessionExpired)));
    // a keepalive without a session is not queued
    assert!(matches!(other.send_keepalive(0, 0, &f), Err(Error::SessionExpired)));
    // a peer that is not known
    let mut stranger = Wireguard::with_index([3; 32], Interface::new([2; 32]).pubkey, [0; 32], 1);
    let hello = stranger.write(0, vec![1u8; 16], &f).unwrap().remove(0);
    let (_, mut r2) = ends();
    assert!(matches!(r2.read(0, &hello, &fresh(0x22, NEW_YEAR_2024)), Err(Error::UnknownPeer)));
    // a preshared key that differs
    let pub_i = Interface::new([1; 32]).pubkey;
    let mut r3 = Wireguard::with_index([2; 32], pub_i, [7; 32], 200);
    let (mut i3, _) = ends();
    let init3 = i3.write(0, vec![7u8; 16], &f).unwrap().remove(0);
    let resp3 = r3.read(0, &init3, &fresh(0x22, NEW_YEAR_2024)).unwrap().send.remove(0);
    assert!(matches!(i3.read(0, &resp3, &f), Err(Error::DecryptErr)));
}

#[test]
fn handshake_is_given_up_after_ninety_seconds() {
    let (mut i, _) = ends();
    let f = fresh(0x11, NEW_YEAR_2024);
    let out = i.write(0, vec![7u8; 16], &f).unwrap();
    assert_eq!(out.len(), 1);
    assert_eq!(i.next_deadline(), Some(REKEY_TIMEOUT));
    let (_, fired, again) = i.poll(REKEY_TIMEOUT, &f).unwrap();
    assert_eq!(fired, Fired::Rekey);
    assert_eq!(again.len(), 1);
    assert_eq!(tag(&again[0]), INITIATION);
    assert_eq!(i.next_deadline(), Some(2 * REKEY_TIMEOUT));
    let out = i.rekey(90 * SECOND, 0, &f);
    assert!(out.is_empty());
    assert!(!i.peers[0].timers.is_rekeying());
    assert!(i.peers[0].wheel.sent.is_none());
}
