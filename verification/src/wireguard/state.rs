//! The sessions of a peer: the keys that seal and open data messages, the
//! replay window, and the limits of time and count after which a session
//! is no longer used.

use vstd::prelude::*;

use super::mac::Mac1;
use super::noise::chain::{derived, Chain};
use super::packet::{Data, DATA_LEN};
use super::timers::{
    elapsed, elapsed_spec, KEEPALIVE_TIMEOUT, REJECT_AFTER_TIME, REKEY_AFTER_TIME, REKEY_TIMEOUT,
};
use super::window::{Window, WindowView};
use crate::crypto::{chacha_open, chacha_open_spec, chacha_seal, chacha_seal_spec, TAG_LEN};
use crate::error::Error;
use crate::utils::bytes::{array_at, part};
use crate::bytes::cursor::{Cursor, Region};
use crate::utils::endian::{append, append_le64, le64_bytes};

verus! {

/// The count of messages from which the initiator of a session starts a
/// new handshake: 2^60.
pub const REKEY_AFTER_MESSAGES: u64 = 0x1000_0000_0000_0000;

/// The count of messages from which a session is no longer used: 2^64 - 2^13.
pub const REJECT_AFTER_MESSAGES: u64 = 0xFFFF_FFFF_FFFF_E000;

/// The longest payload that fits a data message.
pub const MAX_PAYLOAD: usize = 0xFFFF;

/// The nonce of the data message with counter `n`: four zero bytes, and
/// the counter, little-endian.
pub open spec fn nonce_spec(n: u64) -> Seq<u8> {
    seq![0u8, 0u8, 0u8, 0u8] + le64_bytes(n)
}

/// The nonce of the data message with counter `n`.
pub fn nonce(n: u64) -> (r: [u8; 12])
    ensures
        r@ == nonce_spec(n),
{
    let mut v: Vec<u8> = Vec::new();
    let zero: [u8; 4] = [0, 0, 0, 0];
    append(&mut v, zero.as_slice());
    append_le64(&mut v, n);
    let r: [u8; 12] = array_at::<12>(v.as_slice(), 0);
    proof {
        assert(zero@ =~= seq![0u8, 0u8, 0u8, 0u8]);
        assert(r@ =~= nonce_spec(n));
    }
    r
}

/// What the body `body` of a data message with counter `ctr` opens to
/// under `key`: `None` where it is shorter than a tag or its tag does not
/// verify.
pub open spec fn opened(key: Seq<u8>, ctr: u64, body: Seq<u8>) -> Option<Seq<u8>> {
    if body.len() < TAG_LEN {
        None
    } else {
        chacha_open_spec(
            key,
            nonce_spec(ctr),
            Seq::empty(),
            body.take(body.len() - TAG_LEN),
            body.skip(body.len() - TAG_LEN),
        )
    }
}

/// The body of the data message with counter `ctr` that carries `plain`
/// under `key`: the ciphertext and its tag.
pub open spec fn sealed(key: Seq<u8>, ctr: u64, plain: Seq<u8>) -> Seq<u8> {
    let pair = chacha_seal_spec(key, nonce_spec(ctr), Seq::empty(), plain);
    pair.0 + pair.1
}

/// The payload `p` padded with zeros to a multiple of 16 bytes.
pub open spec fn padded(p: Seq<u8>) -> Seq<u8> {
    p + Seq::new(((16 - p.len() % 16) % 16) as nat, |i: int| 0u8)
}

/// Open the body of a data message.
pub fn open(key: &[u8; 32], ctr: u64, body: &[u8]) -> (r: Result<Vec<u8>, Error>)
    ensures
        match r {
            Ok(p) => opened(key@, ctr, body@) == Some(p@) && p@.len() + TAG_LEN == body@.len(),
            Err(e) => opened(key@, ctr, body@) is None && e == Error::DecryptErr,
        },
{
    let n: usize = body.len();
    if n < TAG_LEN {
        return Err(Error::DecryptErr);
    }
    let tag: [u8; 16] = array_at::<16>(body, n - TAG_LEN);
    let cipher: &[u8] = part(body, 0, n - TAG_LEN);
    let none: [u8; 0] = [];
    proof {
        assert(cipher@ =~= body@.take(n - TAG_LEN));
        assert(tag@ =~= body@.skip(n - TAG_LEN));
        assert(none@ =~= Seq::<u8>::empty());
    }
    match chacha_open(key, &nonce(ctr), none.as_slice(), cipher, &tag) {
        Some(p) => Ok(p),
        None => Err(Error::DecryptErr),
    }
}

/// Which end of the handshake a session was made at.
#[derive(Clone, Copy, Debug, PartialEq, Eq, Structural)]
pub enum Role {
    Initiator,
    Responder,
}

/// What the receiving half of a session stands for.
pub ghost struct SimplexView {
    pub key: [u8; 32],
    pub win: WindowView,
    pub time: u64,
}

impl SimplexView {
    /// What becomes of the body `body` of a data message with counter
    /// `ctr` at `now`: the payload, or why the message is dropped. A
    /// session past its limits takes nothing; a counter that the window
    /// turns away is not even tried.
    pub open spec fn verdict(self, now: u64, ctr: u64, body: Seq<u8>) -> Result<Seq<u8>, Error> {
        if expired(now, self.time, ctr) {
            Err(Error::SessionExpired)
        } else {
            match self.win.verdict(ctr) {
                Some(e) => Err(e),
                None => match opened(self.key@, ctr, body) {
                    Some(p) => Ok(p),
                    None => Err(Error::DecryptErr),
                },
            }
        }
    }

    /// The same half after the counter `ctr` was consumed.
    pub open spec fn marked(self, ctr: u64) -> SimplexView {
        SimplexView { win: self.win.mark(ctr), ..self }
    }
}

/// What a session stands for.
pub ghost struct TunnelView {
    pub recv: SimplexView,
    pub role: Role,
    pub send: [u8; 32],
    pub sctr: u64,
    pub sidx: u32,
}

impl TunnelView {
    /// Whether the session can no longer be sent on at `now`: it is past
    /// its time, or its counter is past the count of messages.
    pub open spec fn send_expired(self, now: u64) -> bool {
        elapsed_spec(now, self.recv.time) >= REJECT_AFTER_TIME || self.sctr
            >= REJECT_AFTER_MESSAGES
    }

    /// The data message that carries `payload` under this session with
    /// its next counter: the header, and the sealed payload, padded.
    pub open spec fn message(self, payload: Seq<u8>) -> Seq<u8> {
        (Data { idx: self.sidx, ctr: self.sctr }).emit_spec() + sealed(
            self.send@,
            self.sctr,
            padded(payload),
        )
    }

    /// The same session after a message was sent on it.
    pub open spec fn advanced(self) -> TunnelView {
        TunnelView { sctr: (self.sctr + 1) as u64, ..self }
    }
}

/// The receiving half of a session.
pub struct Simplex {
    /// The key that opens what arrives.
    pub key: [u8; 32],
    /// The counters seen.
    pub win: Window,
    /// When the session was established.
    pub time: u64,
}

/// Whether a session established at `time` is past its limits at `now`
/// for a message with counter `ctr`.
pub open spec fn expired(now: u64, time: u64, ctr: u64) -> bool {
    elapsed_spec(now, time) >= REJECT_AFTER_TIME || ctr >= REJECT_AFTER_MESSAGES
}

impl View for Simplex {
    type V = SimplexView;

    open spec fn view(&self) -> SimplexView {
        SimplexView { key: self.key, win: self.win@, time: self.time }
    }
}

impl View for Tunnel {
    type V = TunnelView;

    open spec fn view(&self) -> TunnelView {
        TunnelView {
            recv: self.recv@,
            role: self.role,
            send: self.send,
            sctr: self.sctr,
            sidx: self.sidx,
        }
    }
}

impl Simplex {
    /// The receiving half of a session made by the initiator at `now`.
    pub fn initiator(now: u64, key: [u8; 32]) -> (s: Simplex)
        ensures
            s.key == key,
            s.time == now,
            s.win@ == WindowView::empty(),
    {
        Simplex { key, win: Window::empty(), time: now }
    }

    /// The receiving half of a session made by the responder at `time`,
    /// which has seen the counter `idx`.
    pub fn responder(key: [u8; 32], idx: u64, time: u64) -> (s: Simplex)
        ensures
            s.key == key,
            s.time == time,
            s.win@.head == idx / 64,
            s.win@.seen == set![idx],
    {
        Simplex { key, win: Window::new(idx), time }
    }

    /// Open the body of a data message and hold its counter as seen. The
    /// counter is held only if the body opens. Hands back the payload and
    /// the age of the session.
    pub fn open_checked(&mut self, now: u64, ctr: u64, body: &[u8]) -> (r: Result<
        (Vec<u8>, u64),
        Error,
    >)
        ensures
            match r {
                Ok(p) => {
                    &&& old(self)@.verdict(now, ctr, body@) == Ok::<Seq<u8>, Error>(p.0@)
                    &&& p.1 == elapsed_spec(now, old(self).time)
                    &&& final(self)@ == old(self)@.marked(ctr)
                },
                Err(e) => {
                    &&& old(self)@.verdict(now, ctr, body@) == Err::<Seq<u8>, Error>(e)
                    &&& final(self)@ == old(self)@
                },
            },
    {
        let age: u64 = elapsed(now, self.time);
        if age >= REJECT_AFTER_TIME || ctr >= REJECT_AFTER_MESSAGES {
            return Err(Error::SessionExpired);
        }
        let key: [u8; 32] = self.key;
        let f = || -> (o: Result<Vec<u8>, Error>)
            ensures
                match o {
                    Ok(p) => opened(key@, ctr, body@) == Some(p@),
                    Err(e) => opened(key@, ctr, body@) is None && e == Error::DecryptErr,
                },
            { open(&key, ctr, body) };
        match self.win.guard(ctr, f) {
            Ok(p) => Ok((p, age)),
            Err(e) => Err(e),
        }
    }

    /// Open the body of a data message and hold its counter as seen.
    pub fn open(&mut self, now: u64, ctr: u64, body: &[u8]) -> (r: Result<Vec<u8>, Error>)
        ensures
            match r {
                Ok(p) => {
                    &&& old(self)@.verdict(now, ctr, body@) == Ok::<Seq<u8>, Error>(p@)
                    &&& final(self)@ == old(self)@.marked(ctr)
                },
                Err(e) => {
                    &&& old(self)@.verdict(now, ctr, body@) == Err::<Seq<u8>, Error>(e)
                    &&& final(self)@ == old(self)@
                },
            },
    {
        match self.open_checked(now, ctr, body) {
            Ok(p) => Ok(p.0),
            Err(e) => Err(e),
        }
    }
}

/// A session: a receiving half, a sending key, and the counter of what is sent.
pub struct Tunnel {
    pub recv: Simplex,
    pub role: Role,
    /// The key that seals what is sent.
    pub send: [u8; 32],
    /// The counter of the next message to send.
    pub sctr: u64,
    /// The session index that the peer expects.
    pub sidx: u32,
}

impl Tunnel {
    /// The session that the initiator makes from the chaining key at the
    /// end of a handshake: it sends under the first transport key and
    /// receives under the second.
    pub fn new(now: u64, chain: Chain, sidx: u32) -> (t: Tunnel)
        ensures
            t.role == Role::Initiator,
            t.send@ == derived(chain.0@, Seq::empty(), 1),
            t.recv.key@ == derived(chain.0@, Seq::empty(), 2),
            t.recv.time == now,
            t.recv.win@ == WindowView::empty(),
            t.sctr == 0,
            t.sidx == sidx,
    {
        let (send, recv) = chain.consume();
        Tunnel { recv: Simplex::initiator(now, recv), role: Role::Initiator, send, sctr: 0, sidx }
    }

    /// Whether the initiator of a session of the age `age` is to start a
    /// new handshake after receiving.
    pub open spec fn rekey_on_recv(role: Role, age: u64) -> bool {
        role == Role::Initiator && age >= REJECT_AFTER_TIME - KEEPALIVE_TIMEOUT - REKEY_TIMEOUT
    }

    /// Whether a new handshake is to be started after sending the message
    /// with counter `ctr` on a session of the age `age`.
    pub open spec fn rekey_on_send(role: Role, age: u64, ctr: u64) -> bool {
        (role == Role::Initiator && age >= REKEY_AFTER_TIME) || ctr >= REKEY_AFTER_MESSAGES
    }

    /// Open the body of a data message. Hands back the payload, and
    /// whether a new handshake is to be started.
    pub fn open(&mut self, now: u64, ctr: u64, body: &[u8]) -> (r: Result<(Vec<u8>, bool), Error>)
        ensures
            match r {
                Ok(p) => {
                    &&& old(self)@.recv.verdict(now, ctr, body@) == Ok::<Seq<u8>, Error>(p.0@)
                    &&& p.1 == Self::rekey_on_recv(
                        old(self).role,
                        elapsed_spec(now, old(self).recv.time),
                    )
                    &&& final(self)@ == (TunnelView {
                        recv: old(self)@.recv.marked(ctr),
                        ..old(self)@
                    })
                },
                Err(e) => {
                    &&& old(self)@.recv.verdict(now, ctr, body@) == Err::<Seq<u8>, Error>(e)
                    &&& final(self)@ == old(self)@
                },
            },
    {
        match self.recv.open_checked(now, ctr, body) {
            Ok(p) => {
                let rekey: bool = self.role == Role::Initiator && p.1 >= REJECT_AFTER_TIME
                    - KEEPALIVE_TIMEOUT - REKEY_TIMEOUT;
                Ok((p.0, rekey))
            },
            Err(e) => Err(e),
        }
    }

    /// Whether the session can no longer be sent on at `now`.
    pub fn is_send_expired(&self, now: u64) -> (b: bool)
        ensures
            b == self@.send_expired(now),
    {
        elapsed(now, self.recv.time) >= REJECT_AFTER_TIME || self.sctr >= REJECT_AFTER_MESSAGES
    }

    /// Seal `payload` into the next data message. Hands back the message,
    /// and whether a new handshake is to be started. The session must not
    /// be past its limits.
    pub fn send(&mut self, now: u64, payload: &[u8]) -> (r: (Vec<u8>, bool))
        requires
            !old(self)@.send_expired(now),
            payload@.len() <= MAX_PAYLOAD,
        ensures
            final(self)@ == old(self)@.advanced(),
            r.0@ == old(self)@.message(payload@),
            r.0@.len() == DATA_LEN + padded(payload@).len() + TAG_LEN,
            opened(old(self).send@, old(self).sctr, r.0@.skip(DATA_LEN as int)) == Some(
                padded(payload@),
            ),
            r.1 == Self::rekey_on_send(
                old(self).role,
                elapsed_spec(now, old(self).recv.time),
                old(self).sctr,
            ),
    {
        let age: u64 = elapsed(now, self.recv.time);
        let ctr: u64 = self.sctr;
        self.sctr = self.sctr + 1;
        let rekey: bool = (self.role == Role::Initiator && age >= REKEY_AFTER_TIME) || ctr
            >= REKEY_AFTER_MESSAGES;
        // Write the header.
        let header: Vec<u8> = (Data { idx: self.sidx, ctr }).emit();
        let p: usize = payload.len();
        let rem: usize = (16 - p % 16) % 16;
        let total: usize = DATA_LEN + p + rem + TAG_LEN;
        let buf: Vec<u8> = vec![0u8; total];
        let c = Cursor::over(buf).push(header.as_slice());
        // The payload goes into a window that spares the tag at the tail.
        let c = c.fork().rlim(TAG_LEN).push(payload).join();
        // Pad with zeros to a boundary of 16 bytes.
        assert(Cursor::padding(p as nat, 16) == rem);
        let c = c.pad_to(16);
        let (body, place) = c.rsplit(TAG_LEN);
        let ghost plain = body.window();
        proof {
            assert(plain =~= padded(payload@));
        }
        // Seal what was written, and write the tag.
        let none: [u8; 0] = [];
        assert(none@ =~= Seq::<u8>::empty());
        let (cipher, tag) = chacha_seal(&self.send, &nonce(ctr), none.as_slice(), body.as_slice());
        let sealed_at = Region { at: DATA_LEN, len: p + rem };
        let c = body.fill(sealed_at, cipher.as_slice()).fill(place, tag.as_slice());
        let out: Vec<u8> = c.finish();
        proof {
            assert(out@ =~= header@ + cipher@ + tag@);
            let body = out@.skip(DATA_LEN as int);
            assert(body =~= cipher@ + tag@);
            assert(body.take(body.len() - TAG_LEN) =~= cipher@);
            assert(body.skip(body.len() - TAG_LEN) =~= tag@);
        }
        (out, rekey)
    }
}

/// A session that the responder has made and not used yet: it becomes the
/// current session with the first data message that arrives on it.
#[derive(Clone, Copy)]
pub struct Next {
    /// The session index that the peer expects.
    pub sidx: u32,
    /// The key that seals what is sent.
    pub skey: [u8; 32],
    /// The key that opens what arrives.
    pub rkey: [u8; 32],
    /// When the session was made.
    pub time: u64,
    /// The first MAC of the response that was sent.
    pub mac: Mac1,
}

impl Next {
    /// The session that the responder makes from the chaining key at the
    /// end of a handshake: it receives under the first transport key and
    /// sends under the second.
    pub fn new(now: u64, chain: Chain, s_idx: u32, mac: Mac1) -> (n: Next)
        ensures
            n.sidx == s_idx,
            n.rkey@ == derived(chain.0@, Seq::empty(), 1),
            n.skey@ == derived(chain.0@, Seq::empty(), 2),
            n.time == now,
            n.mac == mac,
    {
        let (recv, send) = chain.consume();
        Next { sidx: s_idx, mac, skey: send, rkey: recv, time: now }
    }

    /// The session that the first data message confirms, which carries the
    /// counter `ctr`.
    pub open spec fn confirmed(&self, ctr: u64) -> TunnelView {
        TunnelView {
            recv: SimplexView {
                key: self.rkey,
                win: WindowView { head: (ctr / 64) as u64, seen: set![ctr] },
                time: self.time,
            },
            role: Role::Responder,
            send: self.skey,
            sctr: 0,
            sidx: self.sidx,
        }
    }

    /// Open the body of the first data message on this session, and make
    /// the session that it confirms.
    pub fn recv(&self, ctr: u64, body: &[u8]) -> (r: Result<(Tunnel, Vec<u8>), Error>)
        ensures
            match r {
                Ok(p) => {
                    &&& opened(self.rkey@, ctr, body@) == Some(p.1@)
                    &&& p.0@ == self.confirmed(ctr)
                },
                Err(e) => opened(self.rkey@, ctr, body@) is None && e == Error::DecryptErr,
            },
    {
        match open(&self.rkey, ctr, body) {
            Err(e) => Err(e),
            Ok(p) => Ok(
                (
                    Tunnel {
                        recv: Simplex::responder(self.rkey, ctr, self.time),
                        role: Role::Responder,
                        send: self.skey,
                        sctr: 0,
                        sidx: self.sidx,
                    },
                    p,
                ),
            ),
        }
    }
}

} // verus!
