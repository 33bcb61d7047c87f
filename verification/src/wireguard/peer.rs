//! A peer: the wheel of its sessions, the payloads that wait for a
//! session, its timers, and what is known of it for the handshake. Every
//! step is a function of the state and of what arrived, and hands back what
//! is to be sent; nothing is read or sent here.

use vstd::prelude::*;

use super::mac::{CookieMac, Mac1, Tau};
use super::noise::aead::sealed;
use super::noise::chain::{derived, Chain};
use super::noise::{answered, started, InitiatorHandshake, ResponderHandshake, Transcript};
use super::packet::{
    Cookie, Data, Response, DATA_LEN, INITIATION, INITIATION_LEN, MAC_LEN, RESPONSE, RESPONSE_LEN,
};
use super::state::{
    opened, padded, Next, Role, Simplex, SimplexView, Tunnel, TunnelView, MAX_PAYLOAD,
};
use super::timers::{elapsed_spec, Timers};
use super::tunnel::{Interface, Noise};
use super::window::WindowView;
use crate::crypto::{
    blake2s_mac_spec, tai64n_stamp, tai64n_stamp_spec, x25519_public_spec, x25519_random,
    x25519_spec, MAX_UNIX_SECS, NANOS_PER_SECOND, TAG_LEN,
};
use crate::error::Error;
use crate::utils::bytes::{arr, deep, lemma_arr, part};
use crate::utils::endian::{append, le32, le32_bytes};

verus! {

/// What a step may need that cannot be computed: an ephemeral secret, the
/// time of day as a TAI64N label, and jitter for the rekey timer. Each is
/// used for one handshake message at most.
#[derive(Clone, Copy)]
pub struct Fresh {
    pub ephemeral: [u8; 32],
    pub stamp: [u8; 12],
    pub jitter: u64,
}

impl Fresh {
    /// Draw an ephemeral secret and jitter, and label the time that lies
    /// `secs` seconds and `nanos` nanoseconds after the start of 1970.
    /// `None` where that time cannot be labelled: the seconds are 2^40 or
    /// more, or the nanoseconds a second or more.
    pub fn draw(secs: u64, nanos: u32) -> (r: Option<Fresh>)
        ensures
            match r {
                Some(f) => {
                    &&& secs < MAX_UNIX_SECS && nanos < NANOS_PER_SECOND
                    &&& f.stamp@ == tai64n_stamp_spec(secs, nanos)
                    &&& f.jitter < super::timers::JITTER_MILLIS * super::timers::MILLISECOND
                },
                None => !(secs < MAX_UNIX_SECS && nanos < NANOS_PER_SECOND),
            },
    {
        if secs < MAX_UNIX_SECS && nanos < NANOS_PER_SECOND {
            Some(
                Fresh {
                    ephemeral: x25519_random(),
                    stamp: tai64n_stamp(secs, nanos),
                    jitter: Timers::jitter(),
                },
            )
        } else {
            None
        }
    }
}

/// An initiation that was sent and waits for its response.
#[derive(Clone, Copy)]
pub struct SentHandshake {
    pub state: InitiatorHandshake,
    /// The local session index that the initiation carried.
    pub idx: u32,
    /// The first MAC of the initiation.
    pub mac: Mac1,
}

/// The sessions of a peer, each under the local session index on which
/// its messages arrive.
pub struct Wheel {
    /// The session before the current one, kept to open what is still under way.
    pub prev: Option<(u32, Simplex)>,
    /// The current session.
    pub pair: Option<(u32, Tunnel)>,
    /// A session made in answer to an initiation, which waits for its first message.
    pub next: Option<(u32, Next)>,
    /// An initiation that waits for its response.
    pub sent: Option<SentHandshake>,
}

pub struct Peer {
    pub wheel: Wheel,
    /// The payloads that wait for a session.
    pub queue: Vec<Vec<u8>>,
    pub timers: Timers,
    pub hs: Noise,
}

/// What a peer stands for.
pub ghost struct PeerView {
    pub prev: Option<(u32, SimplexView)>,
    pub pair: Option<(u32, TunnelView)>,
    pub next: Option<(u32, Next)>,
    pub sent: Option<SentHandshake>,
    pub queue: Seq<Seq<u8>>,
    pub timers: Timers,
    pub hs: Noise,
}

impl View for Peer {
    type V = PeerView;

    open spec fn view(&self) -> PeerView {
        PeerView {
            prev: match self.wheel.prev {
                Some(p) => Some((p.0, p.1@)),
                None => None,
            },
            pair: match self.wheel.pair {
                Some(p) => Some((p.0, p.1@)),
                None => None,
            },
            next: self.wheel.next,
            sent: self.wheel.sent,
            queue: deep(self.queue@),
            timers: self.timers,
            hs: self.hs,
        }
    }
}

/// The session index that follows `i`; the indices wrap around.
pub open spec fn bump(i: u32) -> u32 {
    if i == u32::MAX {
        0
    } else {
        (i + 1) as u32
    }
}

/// The handshake message `body` closed with the two MACs that `mac` gives at `now`.
pub open spec fn closed(mac: CookieMac, now: u64, body: Seq<u8>) -> Seq<u8> {
    let mac1 = blake2s_mac_spec(mac.mac1@, body);
    body + mac1 + mac.mac2_for(now, body + mac1)
}

/// The receiving half of a session that is replaced, under its index.
pub open spec fn retired(pair: Option<(u32, TunnelView)>) -> Option<(u32, SimplexView)> {
    match pair {
        Some(p) => Some((p.0, p.1.recv)),
        None => None,
    }
}

impl PeerView {
    /// Every payload that waits fits a data message.
    pub open spec fn wf(self) -> bool {
        forall|i: int| 0 <= i < self.queue.len() ==> (#[trigger] self.queue[i]).len() <= MAX_PAYLOAD
    }

    /// Whether a session or a handshake is held under the local index `idx`.
    pub open spec fn uses(self, idx: u32) -> bool {
        ||| self.prev matches Some(p) && p.0 == idx
        ||| self.pair matches Some(p) && p.0 == idx
        ||| self.next matches Some(p) && p.0 == idx
        ||| self.sent matches Some(s) && s.idx == idx
    }

    /// The next local session index: the first from the counter on under
    /// which nothing is held. Four indices are in use at most, so one of
    /// five is free.
    pub open spec fn fresh_idx(self) -> u32 {
        let c0 = self.hs.idx_cur;
        let c1 = bump(c0);
        let c2 = bump(c1);
        let c3 = bump(c2);
        if !self.uses(c0) {
            c0
        } else if !self.uses(c1) {
            c1
        } else if !self.uses(c2) {
            c2
        } else if !self.uses(c3) {
            c3
        } else {
            bump(c3)
        }
    }

    /// Whether a data message for the index `idx` is for the session that
    /// waits, and so makes it the current one.
    pub open spec fn promotes(self, idx: u32) -> bool {
        &&& self.next is Some && self.next->Some_0.0 == idx
        &&& !(self.pair is Some && self.pair->Some_0.0 == idx)
        &&& !(self.prev is Some && self.prev->Some_0.0 == idx)
    }

    /// Whether the sessions and handshakes held are held under indices
    /// that differ from each other.
    pub open spec fn distinct(self) -> bool {
        &&& (self.prev matches Some(a) && self.pair matches Some(b)) ==> self.prev->Some_0.0
            != self.pair->Some_0.0
        &&& (self.prev matches Some(a) && self.next matches Some(b)) ==> self.prev->Some_0.0
            != self.next->Some_0.0
        &&& (self.prev matches Some(a) && self.sent matches Some(b)) ==> self.prev->Some_0.0
            != self.sent->Some_0.idx
        &&& (self.pair matches Some(a) && self.next matches Some(b)) ==> self.pair->Some_0.0
            != self.next->Some_0.0
        &&& (self.pair matches Some(a) && self.sent matches Some(b)) ==> self.pair->Some_0.0
            != self.sent->Some_0.idx
        &&& (self.next matches Some(a) && self.sent matches Some(b)) ==> self.next->Some_0.0
            != self.sent->Some_0.idx
    }

    /// The state after an initiation was made at `now`, and the initiation.
    pub open spec fn initiate(self, now: u64, wg: Interface, fresh: Fresh) -> (PeerView, Seq<u8>) {
        let idx = self.fresh_idx();
        let s = started(
            wg.pubkey@,
            self.hs.hash.0@,
            self.hs.key@,
            self.hs.s_agree@,
            fresh.ephemeral@,
            fresh.stamp@,
        );
        let body = le32_bytes(INITIATION) + le32_bytes(idx) + s.ephemeral + s.pubkey + s.timestamp;
        let sent = SentHandshake {
            state: InitiatorHandshake {
                hash: crate::wireguard::noise::hash::Hash(arr(s.state.hash)),
                chain: Chain(arr(s.state.chain)),
                iek: fresh.ephemeral,
            },
            idx,
            mac: Mac1(arr(blake2s_mac_spec(self.hs.mac.mac1@, body))),
        };
        (
            PeerView {
                sent: Some(sent),
                timers: self.timers.sent_init(now, fresh.jitter),
                hs: Noise { idx_cur: bump(idx), mac: self.hs.mac.swept(now), ..self.hs },
                ..self
            },
            closed(self.hs.mac, now, body),
        )
    }

    /// The state after a new handshake was asked for at `now`, and what is
    /// to be sent: an initiation, unless a handshake is under way.
    pub open spec fn rekey(self, now: u64, wg: Interface, fresh: Fresh) -> (PeerView, Seq<Seq<u8>>) {
        if self.timers.rekey_start is Some {
            (self, Seq::empty())
        } else {
            let r = self.initiate(now, wg, fresh);
            (r.0, seq![r.1])
        }
    }

    /// The state after `payload` was handed over while no session can be
    /// sent on: it waits, the current session is dropped, and a new
    /// handshake is asked for. A keepalive does not wait.
    pub open spec fn write_late(
        self,
        now: u64,
        wg: Interface,
        payload: Seq<u8>,
        is_keepalive: bool,
        fresh: Fresh,
    ) -> (PeerView, Result<Seq<Seq<u8>>, Error>) {
        if is_keepalive {
            (self, Err(Error::SessionExpired))
        } else {
            let r = (PeerView { pair: None, queue: self.queue.push(payload), ..self }).rekey(
                now,
                wg,
                fresh,
            );
            (r.0, Ok(r.1))
        }
    }

    /// The state after `payload` was handed over at `now`, and what is to
    /// be sent. On a session that can be sent on, the payload goes out in
    /// a data message, and a new handshake is asked for where the session
    /// is due for one.
    pub open spec fn write(
        self,
        now: u64,
        wg: Interface,
        payload: Seq<u8>,
        is_keepalive: bool,
        fresh: Fresh,
    ) -> (PeerView, Result<Seq<Seq<u8>>, Error>) {
        if payload.len() > MAX_PAYLOAD {
            (self, Err(Error::MalformedPacket))
        } else {
            match self.pair {
                Some(p) => if p.1.send_expired(now) {
                    self.write_late(now, wg, payload, is_keepalive, fresh)
                } else {
                    let s1 = PeerView {
                        pair: Some((p.0, p.1.advanced())),
                        timers: self.timers.sent_data(now, is_keepalive),
                        ..self
                    };
                    if Tunnel::rekey_on_send(p.1.role, elapsed_spec(now, p.1.recv.time), p.1.sctr) {
                        let r = s1.rekey(now, wg, fresh);
                        (r.0, Ok(seq![p.1.message(payload)] + r.1))
                    } else {
                        (s1, Ok(seq![p.1.message(payload)]))
                    }
                },
                None => self.write_late(now, wg, payload, is_keepalive, fresh),
            }
        }
    }

    /// The state after the payloads `pending` were handed over in turn,
    /// and what is to be sent.
    pub open spec fn drain(self, now: u64, wg: Interface, pending: Seq<Seq<u8>>, fresh: Fresh) -> (
        PeerView,
        Seq<Seq<u8>>,
    )
        decreases pending.len(),
    {
        if pending.len() == 0 {
            (self, Seq::empty())
        } else {
            let first = self.write(now, wg, pending[0], false, fresh);
            let rest = first.0.drain(now, wg, pending.skip(1), fresh);
            (
                rest.0,
                (match first.1 {
                    Ok(out) => out,
                    Err(_) => Seq::empty(),
                }) + rest.1,
            )
        }
    }

    /// The state after the initiation of the peer was answered at `now`,
    /// and the response: `rcv_idx` is the session index of the initiator,
    /// `state` what the initiation left, and `rek` the ephemeral secret.
    pub open spec fn respond(self, now: u64, rcv_idx: u32, state: ResponderHandshake, rek: [u8; 32]) -> (
        PeerView,
        Seq<u8>,
    ) {
        let idx = self.fresh_idx();
        let ephemeral = x25519_public_spec(rek@);
        let a = answered(
            Transcript { hash: state.hash.0@, chain: state.chain.0@ },
            ephemeral,
            x25519_spec(rek@, state.iek@),
            x25519_spec(rek@, self.hs.key@),
            self.hs.preshared@,
        );
        let body = le32_bytes(RESPONSE) + le32_bytes(idx) + le32_bytes(rcv_idx) + ephemeral + sealed(
            Seq::empty(),
            a.1,
            a.0.hash,
        );
        let next = Next {
            sidx: rcv_idx,
            rkey: arr(derived(a.0.chain, Seq::empty(), 1)),
            skey: arr(derived(a.0.chain, Seq::empty(), 2)),
            time: now,
            mac: Mac1(arr(blake2s_mac_spec(self.hs.mac.mac1@, body))),
        };
        (
            PeerView {
                next: Some((idx, next)),
                hs: Noise { idx_cur: bump(idx), mac: self.hs.mac.swept(now), ..self.hs },
                ..self
            },
            closed(self.hs.mac, now, body),
        )
    }

    /// The state after the response `msg` arrived at `now`, and what is to
    /// be sent. A response to the initiation that waits, which confirms,
    /// makes the current session: the session before it is retired, and
    /// the payloads that waited go out.
    pub open spec fn response(self, now: u64, wg: Interface, msg: Response, fresh: Fresh) -> (
        PeerView,
        Result<Seq<Seq<u8>>, Error>,
    ) {
        match self.sent {
            None => (self, Err(Error::SessionExpired)),
            Some(s) => if s.idx != msg.rcv_idx {
                (self, Err(Error::SessionExpired))
            } else {
                match s.state.confirmed(
                    wg.key@,
                    self.hs.preshared@,
                    msg.ephemeral@,
                    msg.empty@,
                ) {
                    None => (self, Err(Error::DecryptErr)),
                    Some(c) => {
                        let t = TunnelView {
                            recv: SimplexView {
                                key: arr(derived(c, Seq::empty(), 2)),
                                win: WindowView::empty(),
                                time: now,
                            },
                            role: Role::Initiator,
                            send: arr(derived(c, Seq::empty(), 1)),
                            sctr: 0,
                            sidx: msg.idx,
                        };
                        let r = (PeerView {
                            prev: retired(self.pair),
                            pair: Some((s.idx, t)),
                            sent: None,
                            timers: self.timers.received_resp(now),
                            queue: Seq::empty(),
                            ..self
                        }).drain(now, wg, self.queue, fresh);
                        (r.0, Ok(r.1))
                    },
                }
            },
        }
    }

    /// The state after the data message `packet` arrived at `now`, the
    /// payload that it carried, and what is to be sent. The message is
    /// for the current session, for the one before it, or for the one
    /// that waits; the first message for the session that waits makes it
    /// the current one. A message for the session before the current one
    /// leaves the timers alone.
    pub open spec fn data(self, now: u64, wg: Interface, packet: Seq<u8>, fresh: Fresh) -> (
        PeerView,
        Result<(Seq<u8>, Seq<Seq<u8>>), Error>,
    ) {
        let h = Data::parse_spec(packet);
        let body = packet.skip(DATA_LEN as int);
        if packet.len() < DATA_LEN + TAG_LEN {
            (self, Err(Error::MalformedPacket))
        } else if self.pair matches Some(p) && p.0 == h.idx {
            let p = self.pair->Some_0;
            match p.1.recv.verdict(now, h.ctr, body) {
                Err(e) => (self, Err(e)),
                Ok(payload) => {
                    let s1 = PeerView {
                        pair: Some((p.0, TunnelView { recv: p.1.recv.marked(h.ctr), ..p.1 })),
                        ..self
                    };
                    let r = if Tunnel::rekey_on_recv(p.1.role, elapsed_spec(now, p.1.recv.time)) {
                        s1.rekey(now, wg, fresh)
                    } else {
                        (s1, Seq::empty())
                    };
                    (
                        PeerView {
                            timers: r.0.timers.received_data(now, payload.len() == 0),
                            ..r.0
                        },
                        Ok((payload, r.1)),
                    )
                },
            }
        } else if self.prev matches Some(p) && p.0 == h.idx {
            let p = self.prev->Some_0;
            match p.1.verdict(now, h.ctr, body) {
                Err(e) => (self, Err(e)),
                Ok(payload) => (
                    PeerView { prev: Some((p.0, p.1.marked(h.ctr))), ..self },
                    Ok((payload, Seq::empty())),
                ),
            }
        } else if self.next matches Some(p) && p.0 == h.idx {
            let p = self.next->Some_0;
            match opened(p.1.rkey@, h.ctr, body) {
                None => (self, Err(Error::DecryptErr)),
                Some(payload) => {
                    let r = (PeerView {
                        prev: retired(self.pair),
                        pair: Some((p.0, p.1.confirmed(h.ctr))),
                        next: None,
                        queue: Seq::empty(),
                        timers: self.timers.received_data(now, payload.len() == 0),
                        ..self
                    }).drain(now, wg, self.queue, fresh);
                    (r.0, Ok((payload, r.1)))
                },
            }
        } else {
            (self, Err(Error::SessionExpired))
        }
    }

    /// The first MAC of the handshake message that carried the local
    /// index `idx`: of the response of the session that waits, or of the
    /// initiation that waits.
    pub open spec fn mac_for(self, idx: u32) -> Option<Mac1> {
        if self.next matches Some(p) && p.0 == idx {
            Some(self.next->Some_0.1.mac)
        } else if self.sent matches Some(s) && s.idx == idx {
            Some(self.sent->Some_0.mac)
        } else {
            None
        }
    }

    /// The state after the cookie message `msg` arrived at `now`.
    pub open spec fn cookie(self, now: u64, msg: Cookie) -> (PeerView, Result<(), Error>) {
        match self.mac_for(msg.idx) {
            None => (self, Err(Error::SessionExpired)),
            Some(m) => match self.hs.mac.cookie_of(msg, m) {
                None => (self, Err(Error::DecryptErr)),
                Some(v) => (
                    PeerView {
                        hs: Noise {
                            mac: CookieMac {
                                mac2: Some(Tau { value: arr(v), time: now }),
                                ..self.hs.mac
                            },
                            ..self.hs
                        },
                        ..self
                    },
                    Ok(()),
                ),
            },
        }
    }
}

/// The view of what a step hands back to be sent.
pub open spec fn sent_view(r: Result<Vec<Vec<u8>>, Error>) -> Result<Seq<Seq<u8>>, Error> {
    match r {
        Ok(v) => Ok(deep(v@)),
        Err(e) => Err(e),
    }
}

/// The view of what the arrival of a data message hands back.
pub open spec fn data_view(r: Result<(Vec<u8>, Vec<Vec<u8>>), Error>) -> Result<
    (Seq<u8>, Seq<Seq<u8>>),
    Error,
> {
    match r {
        Ok(p) => Ok((p.0@, deep(p.1@))),
        Err(e) => Err(e),
    }
}

impl Peer {
    /// A peer with the static public key `key`, with whom `preshared` is
    /// shared: no session, nothing that waits, no timer set.
    pub fn init(i: &Interface, key: [u8; 32], preshared: [u8; 32], idx: u32) -> (p: Peer)
        ensures
            p.hs.wf(i),
            p.hs.key == key,
            p.hs.preshared == preshared,
            p.hs.idx_cur == idx,
            p.hs.timestamp is None,
            p.hs.mac.mac2 is None,
            p@.prev is None && p@.pair is None && p@.next is None && p@.sent is None,
            p@.queue == Seq::<Seq<u8>>::empty(),
            p@.timers == (Timers { rekey: None, keepalive: None, rekey_start: None }),
            p@.wf(),
    {
        let p = Peer {
            wheel: Wheel { prev: None, pair: None, next: None, sent: None },
            queue: Vec::new(),
            timers: Timers::new(),
            hs: Noise::new(i, key, preshared, idx),
        };
        assert(p@.queue =~= Seq::<Seq<u8>>::empty());
        p
    }

    /// Whether something is held under the local index `idx`.
    fn uses(&self, idx: u32) -> (b: bool)
        ensures
            b == self@.uses(idx),
    {
        let a: bool = match &self.wheel.prev {
            Some(p) => p.0 == idx,
            None => false,
        };
        let b: bool = match &self.wheel.pair {
            Some(p) => p.0 == idx,
            None => false,
        };
        let c: bool = match &self.wheel.next {
            Some(p) => p.0 == idx,
            None => false,
        };
        let d: bool = match &self.wheel.sent {
            Some(s) => s.idx == idx,
            None => false,
        };
        a || b || c || d
    }

    /// Hand out the next local session index, under which nothing is held.
    fn alloc_idx(&mut self) -> (idx: u32)
        ensures
            idx == old(self)@.fresh_idx(),
            final(self)@ == (PeerView {
                hs: Noise { idx_cur: bump(idx), ..old(self).hs },
                ..old(self)@
            }),
    {
        let mut idx: u32 = self.hs.new_idx();
        if self.uses(idx) {
            idx = self.hs.new_idx();
            if self.uses(idx) {
                idx = self.hs.new_idx();
                if self.uses(idx) {
                    idx = self.hs.new_idx();
                    if self.uses(idx) {
                        idx = self.hs.new_idx();
                    }
                }
            }
        }
        idx
    }

    /// Make an initiation and hold its state until the response arrives.
    pub fn create_initiation(&mut self, now: u64, wg: &Interface, fresh: &Fresh) -> (r: Vec<u8>)
        ensures
            final(self)@ == old(self)@.initiate(now, *wg, *fresh).0,
            r@ == old(self)@.initiate(now, *wg, *fresh).1,
            r@.len() == INITIATION_LEN + MAC_LEN,
            ({
                let s = started(
                    wg.pubkey@,
                    old(self).hs.hash.0@,
                    old(self).hs.key@,
                    old(self).hs.s_agree@,
                    fresh.ephemeral@,
                    fresh.stamp@,
                );
                &&& final(self).wheel.sent matches Some(h)
                &&& h.idx == old(self)@.fresh_idx()
                &&& h.idx == le32(r@.skip(4))
                &&& h.mac.0@ == r@.subrange(INITIATION_LEN as int, INITIATION_LEN + 16)
                &&& h.state.iek == fresh.ephemeral
                &&& h.state.hash.0@ == s.state.hash
                &&& h.state.chain.0@ == s.state.chain
            }),
            old(self)@.wf() ==> final(self)@.wf(),
    {
        let idx: u32 = self.alloc_idx();
        let (state, msg) = InitiatorHandshake::create_initiation(
            wg,
            &self.hs,
            idx,
            fresh.ephemeral,
            fresh.stamp,
        );
        let mut packet: Vec<u8> = msg.emit();
        let ghost body = packet@;
        let (mac1, mac2) = self.hs.mac.write(now, packet.as_slice());
        append(&mut packet, mac1.0.as_slice());
        append(&mut packet, mac2.as_slice());
        self.wheel.sent = Some(SentHandshake { state, idx, mac: mac1 });
        self.timers.send_init(now, fresh.jitter);
        proof {
            lemma_arr::<32>(state.hash.0);
            lemma_arr::<32>(state.chain.0);
            lemma_arr::<16>(mac1.0);
            crate::wireguard::packet::law_initiation_round_trip(msg, mac1.0@ + mac2@);
            assert(packet@ =~= msg.emit_spec() + (mac1.0@ + mac2@));
            assert(packet@.subrange(INITIATION_LEN as int, INITIATION_LEN + 16) =~= mac1.0@);
        }
        packet
    }

    /// Ask for a new handshake: an initiation is made unless a handshake
    /// is under way.
    pub fn rekey(&mut self, now: u64, wg: &Interface, fresh: &Fresh) -> (r: Vec<Vec<u8>>)
        ensures
            final(self)@ == old(self)@.rekey(now, *wg, *fresh).0,
            deep(r@) == old(self)@.rekey(now, *wg, *fresh).1,
            r@.len() == (if old(self).timers.rekey_start is Some {
                0nat
            } else {
                1nat
            }),
            forall|i: int| 0 <= i < r@.len() ==> (#[trigger] r@[i])@.len() == INITIATION_LEN + MAC_LEN,
            old(self)@.wf() ==> final(self)@.wf(),
    {
        proof {
            lemma_rekey_keeps_queue(self@, now, *wg, *fresh);
        }
        let mut out: Vec<Vec<u8>> = Vec::new();
        if !self.timers.is_rekeying() {
            // Only make an initiation if none waits already.
            let packet: Vec<u8> = self.create_initiation(now, wg, fresh);
            out.push(packet);
            proof {
                assert(deep(out@) =~= seq![packet@]);
            }
        } else {
            proof {
                assert(deep(out@) =~= Seq::<Seq<u8>>::empty());
            }
        }
        out
    }

    /// Hand over a payload for the peer. Hands back what is to be sent: a
    /// data message, or nothing while the payload waits for a session, and
    /// an initiation where a new handshake starts.
    pub fn write(
        &mut self,
        now: u64,
        wg: &Interface,
        payload: Vec<u8>,
        is_keepalive: bool,
        fresh: &Fresh,
    ) -> (r: Result<Vec<Vec<u8>>, Error>)
        ensures
            final(self)@ == old(self)@.write(now, *wg, payload@, is_keepalive, *fresh).0,
            sent_view(r) == old(self)@.write(now, *wg, payload@, is_keepalive, *fresh).1,
            r matches Ok(out) ==> {
                let on_session = old(self)@.pair is Some && !old(self)@.pair->Some_0.1.send_expired(
                    now,
                );
                let first = if on_session {
                    1int
                } else {
                    0int
                };
                &&& first <= out@.len() <= first + 1
                &&& on_session ==> out@[0]@.len() == DATA_LEN + padded(payload@).len() + TAG_LEN
                &&& is_keepalive ==> on_session
                &&& forall|i: int|
                    first <= i < out@.len() ==> (#[trigger] out@[i])@.len() == INITIATION_LEN
                        + MAC_LEN
            },
            old(self)@.wf() ==> final(self)@.wf(),
    {
        proof {
            if self@.wf() {
                lemma_write_wf(self@, now, *wg, payload@, is_keepalive, *fresh);
            }
        }
        if payload.len() > MAX_PAYLOAD {
            return Err(Error::MalformedPacket);
        }
        let ghost before = self@;
        let taken: Option<(u32, Tunnel)> = self.wheel.pair.take();
        match taken {
            Some(p) => {
                let (key, mut tun) = p;
                if !tun.is_send_expired(now) {
                    let (packet, rekey) = tun.send(now, payload.as_slice());
                    self.wheel.pair = Some((key, tun));
                    self.timers.send_data(now, is_keepalive);
                    let mut out: Vec<Vec<u8>> = Vec::new();
                    out.push(packet);
                    if rekey {
                        let mut more: Vec<Vec<u8>> = self.rekey(now, wg, fresh);
                        let ghost head = deep(out@);
                        let ghost tail = deep(more@);
                        out.append(&mut more);
                        proof {
                            assert(deep(out@) =~= head + tail);
                            assert(head =~= seq![packet@]);
                        }
                    } else {
                        proof {
                            assert(deep(out@) =~= seq![packet@]);
                        }
                    }
                    return Ok(out);
                }
                self.wheel.pair = Some((key, tun));
            },
            None => {},
        }
        assert(self@ == before);
        if is_keepalive {
            return Err(Error::SessionExpired);
        }
        self.wheel.pair = None;
        let ghost waiting = payload@;
        self.queue.push(payload);
        proof {
            assert(self@.queue =~= before.queue.push(waiting));
        }
        Ok(self.rekey(now, wg, fresh))
    }

    /// Hand over the payloads `pending` in turn. Hands back what is to be sent.
    pub fn drain(&mut self, now: u64, wg: &Interface, pending: Vec<Vec<u8>>, fresh: &Fresh) -> (r:
        Vec<Vec<u8>>)
        ensures
            final(self)@ == old(self)@.drain(now, *wg, deep(pending@), *fresh).0,
            deep(r@) == old(self)@.drain(now, *wg, deep(pending@), *fresh).1,
            old(self)@.wf() ==> final(self)@.wf(),
    {
        proof {
            if self@.wf() {
                lemma_drain_wf(self@, now, *wg, deep(pending@), *fresh);
            }
        }
        let mut out: Vec<Vec<u8>> = Vec::new();
        let n: usize = pending.len();
        let mut i: usize = 0;
        let ghost all = deep(pending@);
        proof {
            assert(all.skip(0) =~= all);
            assert(deep(out@) =~= Seq::<Seq<u8>>::empty());
            assert(deep(out@) + self@.drain(now, *wg, all, *fresh).1 =~= self@.drain(
                now,
                *wg,
                all,
                *fresh,
            ).1);
        }
        while i < n
            invariant
                0 <= i <= n,
                n == pending@.len(),
                all == deep(pending@),
                old(self)@.drain(now, *wg, all, *fresh).0 == self@.drain(
                    now,
                    *wg,
                    all.skip(i as int),
                    *fresh,
                ).0,
                old(self)@.drain(now, *wg, all, *fresh).1 == deep(out@) + self@.drain(
                    now,
                    *wg,
                    all.skip(i as int),
                    *fresh,
                ).1,
            decreases n - i,
        {
            let payload: Vec<u8> = vstd::slice::slice_to_vec(pending[i].as_slice());
            let ghost here = self@;
            let ghost rest = all.skip(i as int);
            let ghost done = deep(out@);
            proof {
                assert(rest[0] == payload@);
                assert(rest.skip(1) =~= all.skip(i + 1));
            }
            match self.write(now, wg, payload, false, fresh) {
                Ok(mut more) => {
                    let ghost tail = deep(more@);
                    out.append(&mut more);
                    proof {
                        assert(deep(out@) =~= done + tail);
                        assert(done + (tail + self@.drain(now, *wg, rest.skip(1), *fresh).1) =~= (
                        done + tail) + self@.drain(now, *wg, rest.skip(1), *fresh).1);
                    }
                },
                Err(_) => {
                    proof {
                        assert(done + (Seq::<Seq<u8>>::empty() + self@.drain(
                            now,
                            *wg,
                            rest.skip(1),
                            *fresh,
                        ).1) =~= done + self@.drain(now, *wg, rest.skip(1), *fresh).1);
                    }
                },
            }
            i = i + 1;
        }
        proof {
            assert(all.skip(n as int).len() == 0);
            assert(deep(out@) + Seq::<Seq<u8>>::empty() =~= deep(out@));
        }
        out
    }

    /// Answer an initiation of the peer: make the response, and hold the
    /// session that it offers until its first message arrives.
    pub fn create_response(
        &mut self,
        now: u64,
        rcv_idx: u32,
        state: ResponderHandshake,
        rek: [u8; 32],
    ) -> (r: Vec<u8>)
        ensures
            final(self)@ == old(self)@.respond(now, rcv_idx, state, rek).0,
            r@ == old(self)@.respond(now, rcv_idx, state, rek).1,
            r@.len() == RESPONSE_LEN + MAC_LEN,
            ({
                let a = answered(
                    Transcript { hash: state.hash.0@, chain: state.chain.0@ },
                    x25519_public_spec(rek@),
                    x25519_spec(rek@, state.iek@),
                    x25519_spec(rek@, old(self).hs.key@),
                    old(self).hs.preshared@,
                );
                &&& final(self).wheel.next matches Some(n)
                &&& n.0 == old(self)@.fresh_idx()
                &&& n.0 == le32(r@.skip(4))
                &&& rcv_idx == le32(r@.skip(8))
                &&& n.1.sidx == rcv_idx
                &&& n.1.time == now
                &&& n.1.mac.0@ == r@.subrange(RESPONSE_LEN as int, RESPONSE_LEN + 16)
                &&& n.1.rkey@ == derived(a.0.chain, Seq::empty(), 1)
                &&& n.1.skey@ == derived(a.0.chain, Seq::empty(), 2)
            }),
            old(self)@.wf() ==> final(self)@.wf(),
    {
        let idx: u32 = self.alloc_idx();
        let (chain, msg) = state.create_response(&self.hs, idx, rcv_idx, rek);
        let mut packet: Vec<u8> = msg.emit();
        let (mac1, mac2) = self.hs.mac.write(now, packet.as_slice());
        append(&mut packet, mac1.0.as_slice());
        append(&mut packet, mac2.as_slice());
        let next: Next = Next::new(now, chain, rcv_idx, mac1);
        self.wheel.next = Some((idx, next));
        self.timers.send_resp(now);
        proof {
            lemma_arr::<32>(next.rkey);
            lemma_arr::<32>(next.skey);
            lemma_arr::<16>(mac1.0);
            crate::wireguard::packet::law_response_round_trip(msg, mac1.0@ + mac2@);
            assert(packet@ =~= msg.emit_spec() + (mac1.0@ + mac2@));
            assert(packet@.subrange(RESPONSE_LEN as int, RESPONSE_LEN + 16) =~= mac1.0@);
        }
        packet
    }

    /// Take in a response. Hands back what is to be sent: the payloads
    /// that waited for the session.
    pub fn handle_response(&mut self, now: u64, wg: &Interface, msg: &Response, fresh: &Fresh) -> (r:
        Result<Vec<Vec<u8>>, Error>)
        ensures
            final(self)@ == old(self)@.response(now, *wg, *msg, *fresh).0,
            sent_view(r) == old(self)@.response(now, *wg, *msg, *fresh).1,
            old(self)@.wf() ==> final(self)@.wf(),
    {
        proof {
            if self@.wf() {
                lemma_arrival_wf(
                    self@,
                    now,
                    *wg,
                    *msg,
                    Seq::empty(),
                    Cookie { idx: 0, nonce: arr(Seq::empty()), cookie: arr(Seq::empty()) },
                    *fresh,
                );
            }
        }
        let sent: SentHandshake = match self.wheel.sent {
            Some(s) => s,
            None => {
                return Err(Error::SessionExpired);
            },
        };
        if sent.idx != msg.rcv_idx {
            return Err(Error::SessionExpired);
        }
        let chain: Chain = match sent.state.consume_response(wg, &self.hs, msg) {
            Ok(c) => c,
            Err(e) => {
                return Err(e);
            },
        };
        let ghost before = self@;
        let tunnel: Tunnel = Tunnel::new(now, chain, msg.idx);
        proof {
            lemma_arr::<32>(tunnel.send);
            lemma_arr::<32>(tunnel.recv.key);
        }
        let old_pair: Option<(u32, Tunnel)> = self.wheel.pair.take();
        self.wheel.prev = match old_pair {
            Some(p) => Some((p.0, p.1.recv)),
            None => None,
        };
        self.wheel.pair = Some((sent.idx, tunnel));
        self.wheel.sent = None;
        self.timers.recv_resp(now);
        let mut pending: Vec<Vec<u8>> = Vec::new();
        core::mem::swap(&mut self.queue, &mut pending);
        proof {
            assert(self@.queue =~= Seq::<Seq<u8>>::empty());
        }
        Ok(self.drain(now, wg, pending, fresh))
    }

    /// Take in a data message. Hands back the payload that it carried,
    /// which is empty for a keepalive, and what is to be sent.
    pub fn handle_data(&mut self, now: u64, wg: &Interface, packet: &[u8], fresh: &Fresh) -> (r:
        Result<(Vec<u8>, Vec<Vec<u8>>), Error>)
        ensures
            final(self)@ == old(self)@.data(now, *wg, packet@, *fresh).0,
            data_view(r) == old(self)@.data(now, *wg, packet@, *fresh).1,
            old(self)@.wf() ==> final(self)@.wf(),
    {
        proof {
            if self@.wf() {
                lemma_arrival_wf(
                    self@,
                    now,
                    *wg,
                    Response {
                        idx: 0,
                        rcv_idx: 0,
                        ephemeral: arr(Seq::empty()),
                        empty: arr(Seq::empty()),
                    },
                    packet@,
                    Cookie { idx: 0, nonce: arr(Seq::empty()), cookie: arr(Seq::empty()) },
                    *fresh,
                );
            }
        }
        let n: usize = packet.len();
        if n < DATA_LEN + TAG_LEN {
            return Err(Error::MalformedPacket);
        }
        let msg: Data = Data::parse(packet);
        let body: &[u8] = part(packet, DATA_LEN, n);
        proof {
            assert(body@ =~= packet@.skip(DATA_LEN as int));
        }
        let ghost before = self@;
        let on_pair: bool = match &self.wheel.pair {
            Some(p) => p.0 == msg.idx,
            None => false,
        };
        let on_prev: bool = match &self.wheel.prev {
            Some(p) => p.0 == msg.idx,
            None => false,
        };
        let on_next: bool = match &self.wheel.next {
            Some(p) => p.0 == msg.idx,
            None => false,
        };
        if on_pair {
            let taken: Option<(u32, Tunnel)> = self.wheel.pair.take();
            let (key, mut tun) = taken.unwrap();
            let opened = tun.open(now, msg.ctr, body);
            self.wheel.pair = Some((key, tun));
            match opened {
                Err(e) => {
                    assert(self@ == before);
                    Err(e)
                },
                Ok((payload, rekey)) => {
                    let out: Vec<Vec<u8>> = if rekey {
                        self.rekey(now, wg, fresh)
                    } else {
                        let none: Vec<Vec<u8>> = Vec::new();
                        assert(deep(none@) =~= Seq::<Seq<u8>>::empty());
                        none
                    };
                    // Only the current session moves the timers.
                    self.timers.recv_data(now, payload.len() == 0);
                    Ok((payload, out))
                },
            }
        } else if on_prev {
            let taken: Option<(u32, Simplex)> = self.wheel.prev.take();
            let (key, mut simplex) = taken.unwrap();
            let opened = simplex.open(now, msg.ctr, body);
            self.wheel.prev = Some((key, simplex));
            match opened {
                Err(e) => {
                    assert(self@ == before);
                    Err(e)
                },
                Ok(payload) => {
                    let none: Vec<Vec<u8>> = Vec::new();
                    assert(deep(none@) =~= Seq::<Seq<u8>>::empty());
                    Ok((payload, none))
                },
            }
        } else if on_next {
            let (key, next) = self.wheel.next.unwrap();
            match next.recv(msg.ctr, body) {
                Err(e) => Err(e),
                Ok((tunnel, payload)) => {
                    let old_pair: Option<(u32, Tunnel)> = self.wheel.pair.take();
                    self.wheel.prev = match old_pair {
                        Some(p) => Some((p.0, p.1.recv)),
                        None => None,
                    };
                    self.wheel.pair = Some((key, tunnel));
                    self.wheel.next = None;
                    self.timers.recv_data(now, payload.len() == 0);
                    let mut pending: Vec<Vec<u8>> = Vec::new();
                    core::mem::swap(&mut self.queue, &mut pending);
                    proof {
                        assert(self@.queue =~= Seq::<Seq<u8>>::empty());
                    }
                    let out: Vec<Vec<u8>> = self.drain(now, wg, pending, fresh);
                    Ok((payload, out))
                },
            }
        } else {
            Err(Error::SessionExpired)
        }
    }

    /// Give up the handshake that is under way.
    pub fn give_up(&mut self)
        ensures
            final(self)@ == (PeerView {
                sent: None,
                timers: Timers { rekey_start: None, ..old(self)@.timers },
                ..old(self)@
            }),
            old(self)@.wf() ==> final(self)@.wf(),
    {
        self.wheel.sent = None;
        self.timers.rekey_start = None;
    }

    /// Take the timer that is due at `now`, if any.
    pub fn take_due(&mut self, now: u64) -> (r: Option<super::timers::Fired>)
        ensures
            r == old(self)@.timers.due_spec(now),
            final(self)@ == (PeerView {
                timers: match r {
                    Some(super::timers::Fired::Keepalive) => Timers {
                        keepalive: None,
                        ..old(self)@.timers
                    },
                    Some(super::timers::Fired::Rekey) => Timers { rekey: None, ..old(self)@.timers },
                    None => old(self)@.timers,
                },
                ..old(self)@
            }),
            r is None ==> *final(self) == *old(self),
            old(self)@.wf() ==> final(self)@.wf(),
    {
        self.timers.poll(now)
    }

    /// Take in a cookie message: it replies to the response of the session
    /// that waits, or to the initiation that waits.
    pub fn handle_cookie(&mut self, now: u64, msg: &Cookie) -> (r: Result<(), Error>)
        ensures
            final(self)@ == old(self)@.cookie(now, *msg).0,
            r == old(self)@.cookie(now, *msg).1,
            old(self)@.wf() ==> final(self)@.wf(),
    {
        let from_next: Option<Mac1> = match &self.wheel.next {
            Some(p) => if p.0 == msg.idx {
                Some(p.1.mac)
            } else {
                None
            },
            None => None,
        };
        let mac: Mac1 = match from_next {
            Some(m) => m,
            None => match &self.wheel.sent {
                Some(s) => if s.idx == msg.idx {
                    s.mac
                } else {
                    return Err(Error::SessionExpired);
                },
                None => {
                    return Err(Error::SessionExpired);
                },
            },
        };
        match self.hs.mac.handle_cookie(now, msg, &mac) {
            Ok(()) => {
                proof {
                    lemma_arr::<16>(self.hs.mac.mac2->Some_0.value);
                }
                Ok(())
            },
            Err(e) => Err(e),
        }
    }
}

/// Handing over a payload leaves payloads that fit.
pub proof fn lemma_write_wf(
    s: PeerView,
    now: u64,
    wg: Interface,
    payload: Seq<u8>,
    is_keepalive: bool,
    fresh: Fresh,
)
    requires
        s.wf(),
    ensures
        s.write(now, wg, payload, is_keepalive, fresh).0.wf(),
{
    if payload.len() <= MAX_PAYLOAD {
        let late = PeerView { pair: None, queue: s.queue.push(payload), ..s };
        assert(late.wf()) by {
            assert forall|i: int| 0 <= i < late.queue.len() implies (#[trigger] late.queue[i]).len()
                <= MAX_PAYLOAD by {
                if i < s.queue.len() {
                    assert(late.queue[i] == s.queue[i]);
                }
            }
        }
        lemma_rekey_keeps_queue(late, now, wg, fresh);
        match s.pair {
            Some(p) => {
                lemma_rekey_keeps_queue(
                    PeerView {
                        pair: Some((p.0, p.1.advanced())),
                        timers: s.timers.sent_data(now, is_keepalive),
                        ..s
                    },
                    now,
                    wg,
                    fresh,
                );
            },
            None => {},
        }
    }
}

/// Handing over payloads in turn leaves payloads that fit.
pub proof fn lemma_drain_wf(s: PeerView, now: u64, wg: Interface, pending: Seq<Seq<u8>>, fresh: Fresh)
    requires
        s.wf(),
    ensures
        s.drain(now, wg, pending, fresh).0.wf(),
    decreases pending.len(),
{
    if pending.len() > 0 {
        lemma_write_wf(s, now, wg, pending[0], false, fresh);
        lemma_drain_wf(
            s.write(now, wg, pending[0], false, fresh).0,
            now,
            wg,
            pending.skip(1),
            fresh,
        );
    }
}

/// The arrival of a message leaves payloads that fit.
pub proof fn lemma_arrival_wf(
    s: PeerView,
    now: u64,
    wg: Interface,
    msg: Response,
    packet: Seq<u8>,
    cookie: Cookie,
    fresh: Fresh,
)
    requires
        s.wf(),
    ensures
        s.response(now, wg, msg, fresh).0.wf(),
        s.data(now, wg, packet, fresh).0.wf(),
        s.cookie(now, cookie).0.wf(),
{
    match s.sent {
        Some(h) => {
            match h.state.confirmed(wg.key@, s.hs.preshared@, msg.ephemeral@, msg.empty@) {
                Some(c) => {
                    let t = TunnelView {
                        recv: SimplexView {
                            key: arr(derived(c, Seq::empty(), 2)),
                            win: WindowView::empty(),
                            time: now,
                        },
                        role: Role::Initiator,
                        send: arr(derived(c, Seq::empty(), 1)),
                        sctr: 0,
                        sidx: msg.idx,
                    };
                    lemma_drain_wf(
                        PeerView {
                            prev: retired(s.pair),
                            pair: Some((h.idx, t)),
                            sent: None,
                            timers: s.timers.received_resp(now),
                            queue: Seq::empty(),
                            ..s
                        },
                        now,
                        wg,
                        s.queue,
                        fresh,
                    );
                },
                None => {},
            }
        },
        None => {},
    }
    let h = Data::parse_spec(packet);
    let body = packet.skip(DATA_LEN as int);
    if s.pair is Some && s.pair->Some_0.0 == h.idx {
        let p = s.pair->Some_0;
        lemma_rekey_keeps_queue(
            PeerView { pair: Some((p.0, TunnelView { recv: p.1.recv.marked(h.ctr), ..p.1 })), ..s },
            now,
            wg,
            fresh,
        );
    } else if s.prev is Some && s.prev->Some_0.0 == h.idx {
    } else if s.next is Some && s.next->Some_0.0 == h.idx {
        let p = s.next->Some_0;
        match opened(p.1.rkey@, h.ctr, body) {
            Some(payload) => {
                lemma_drain_wf(
                    PeerView {
                        prev: retired(s.pair),
                        pair: Some((p.0, p.1.confirmed(h.ctr))),
                        next: None,
                        queue: Seq::empty(),
                        timers: s.timers.received_data(now, payload.len() == 0),
                        ..s
                    },
                    now,
                    wg,
                    s.queue,
                    fresh,
                );
            },
            None => {},
        }
    }
}

/// Asking for a new handshake leaves the payloads that wait as they are.
pub proof fn lemma_rekey_keeps_queue(s: PeerView, now: u64, wg: Interface, fresh: Fresh)
    ensures
        s.rekey(now, wg, fresh).0.queue == s.queue,
        s.wf() ==> s.rekey(now, wg, fresh).0.wf(),
{
}

/// Nothing is held under the session index that is handed out next.
pub proof fn law_fresh_idx_is_free(s: PeerView)
    ensures
        !s.uses(s.fresh_idx()),
{
    let c0 = s.hs.idx_cur;
    let c1 = bump(c0);
    let c2 = bump(c1);
    let c3 = bump(c2);
    let c4 = bump(c3);
    assert(c0 != c1 && c0 != c2 && c0 != c3 && c0 != c4 && c1 != c2 && c1 != c3 && c1 != c4 && c2
        != c3 && c2 != c4 && c3 != c4);
}

/// The sessions of a peer never share a session index: a step that
/// starts from indices that differ leaves indices that differ. This holds
/// of making an initiation, of answering one, and of handing over a payload.
pub proof fn law_indices_stay_distinct(
    s: PeerView,
    now: u64,
    wg: Interface,
    fresh: Fresh,
    payload: Seq<u8>,
    is_keepalive: bool,
    rcv_idx: u32,
    state: ResponderHandshake,
)
    requires
        s.distinct(),
    ensures
        s.initiate(now, wg, fresh).0.distinct(),
        s.rekey(now, wg, fresh).0.distinct(),
        s.write(now, wg, payload, is_keepalive, fresh).0.distinct(),
        s.respond(now, rcv_idx, state, fresh.ephemeral).0.distinct(),
{
    law_fresh_idx_is_free(s);
    match s.pair {
        Some(p) => {
            let s1 = PeerView {
                pair: Some((p.0, p.1.advanced())),
                timers: s.timers.sent_data(now, is_keepalive),
                ..s
            };
            law_fresh_idx_is_free(s1);
            assert(s1.fresh_idx() == s.fresh_idx());
        },
        None => {},
    }
    let s2 = PeerView { pair: None, queue: s.queue.push(payload), ..s };
    law_fresh_idx_is_free(s2);
}

/// Handing over payloads in turn leaves indices that differ.
pub proof fn law_drain_keeps_distinct(
    s: PeerView,
    now: u64,
    wg: Interface,
    pending: Seq<Seq<u8>>,
    fresh: Fresh,
)
    requires
        s.distinct(),
    ensures
        s.drain(now, wg, pending, fresh).0.distinct(),
    decreases pending.len(),
{
    if pending.len() > 0 {
        let state = ResponderHandshake {
            hash: crate::wireguard::noise::hash::Hash(arr(Seq::empty())),
            chain: Chain(arr(Seq::empty())),
            iek: fresh.ephemeral,
        };
        law_indices_stay_distinct(s, now, wg, fresh, pending[0], false, 0, state);
        law_drain_keeps_distinct(
            s.write(now, wg, pending[0], false, fresh).0,
            now,
            wg,
            pending.skip(1),
            fresh,
        );
    }
}

/// The sessions of a peer never share a session index across a rotation
/// either: a response or a data message that arrives leaves indices that
/// differ, and where it makes a new current session, the session before
/// it is the receiving half of the former current session and nothing else.
pub proof fn law_rotation(
    s: PeerView,
    now: u64,
    wg: Interface,
    msg: Response,
    packet: Seq<u8>,
    fresh: Fresh,
)
    requires
        s.distinct(),
    ensures
        s.response(now, wg, msg, fresh).0.distinct(),
        s.data(now, wg, packet, fresh).0.distinct(),
        s.response(now, wg, msg, fresh).1 is Ok ==> s.response(now, wg, msg, fresh).0.prev
            == retired(s.pair),
        s.data(now, wg, packet, fresh).1 is Ok && s.promotes(Data::parse_spec(packet).idx)
            ==> s.data(now, wg, packet, fresh).0.prev == retired(s.pair),
{
    let state = ResponderHandshake {
        hash: crate::wireguard::noise::hash::Hash(arr(Seq::empty())),
        chain: Chain(arr(Seq::empty())),
        iek: fresh.ephemeral,
    };
    // a response
    match s.sent {
        Some(h) => {
            if h.idx == msg.rcv_idx {
                match h.state.confirmed(wg.key@, s.hs.preshared@, msg.ephemeral@, msg.empty@) {
                    Some(c) => {
                        let t = TunnelView {
                            recv: SimplexView {
                                key: arr(derived(c, Seq::empty(), 2)),
                                win: WindowView::empty(),
                                time: now,
                            },
                            role: Role::Initiator,
                            send: arr(derived(c, Seq::empty(), 1)),
                            sctr: 0,
                            sidx: msg.idx,
                        };
                        let s1 = PeerView {
                            prev: retired(s.pair),
                            pair: Some((h.idx, t)),
                            sent: None,
                            timers: s.timers.received_resp(now),
                            queue: Seq::empty(),
                            ..s
                        };
                        law_drain_keeps_distinct(s1, now, wg, s.queue, fresh);
                        lemma_drain_keeps_prev(s1, now, wg, s.queue, fresh);
                    },
                    None => {},
                }
            }
        },
        None => {},
    }
    // a data message
    let h = Data::parse_spec(packet);
    let body = packet.skip(DATA_LEN as int);
    if packet.len() >= DATA_LEN + TAG_LEN {
        if s.pair matches Some(p) && p.0 == h.idx {
            let p = s.pair->Some_0;
            match p.1.recv.verdict(now, h.ctr, body) {
                Ok(payload) => {
                    let s1 = PeerView {
                        pair: Some((p.0, TunnelView { recv: p.1.recv.marked(h.ctr), ..p.1 })),
                        ..s
                    };
                    law_indices_stay_distinct(s1, now, wg, fresh, payload, false, 0, state);
                },
                Err(_) => {},
            }
        } else if s.prev matches Some(p) && p.0 == h.idx {
        } else if s.next matches Some(p) && p.0 == h.idx {
            let p = s.next->Some_0;
            match opened(p.1.rkey@, h.ctr, body) {
                Some(payload) => {
                    let s1 = PeerView {
                        prev: retired(s.pair),
                        pair: Some((p.0, p.1.confirmed(h.ctr))),
                        next: None,
                        queue: Seq::empty(),
                        timers: s.timers.received_data(now, payload.len() == 0),
                        ..s
                    };
                    law_drain_keeps_distinct(s1, now, wg, s.queue, fresh);
                    lemma_drain_keeps_prev(s1, now, wg, s.queue, fresh);
                },
                None => {},
            }
        }
    }
}

/// Handing over payloads leaves the session before the current one as it is.
proof fn lemma_drain_keeps_prev(
    s: PeerView,
    now: u64,
    wg: Interface,
    pending: Seq<Seq<u8>>,
    fresh: Fresh,
)
    ensures
        s.drain(now, wg, pending, fresh).0.prev == s.prev,
    decreases pending.len(),
{
    if pending.len() > 0 {
        lemma_drain_keeps_prev(
            s.write(now, wg, pending[0], false, fresh).0,
            now,
            wg,
            pending.skip(1),
            fresh,
        );
    }
}

/// A payload that is handed over while no session is held and no
/// handshake is under way goes out as soon as the handshake is through:
/// it waits and an initiation is sent, and when the response to the
/// initiation arrives and confirms, the payload is sent as the first data
/// message of the new session and waits no longer.
pub proof fn law_queue_drains(
    s: PeerView,
    now: u64,
    wg: Interface,
    payload: Seq<u8>,
    fresh: Fresh,
    later: u64,
    msg: Response,
    fresh2: Fresh,
)
    requires
        s.pair is None,
        s.timers.rekey_start is None,
        s.queue.len() == 0,
        payload.len() <= MAX_PAYLOAD,
        ({
            let waiting = s.write(now, wg, payload, false, fresh).0;
            &&& msg.rcv_idx == waiting.sent->Some_0.idx
            &&& waiting.sent->Some_0.state.confirmed(
                wg.key@,
                waiting.hs.preshared@,
                msg.ephemeral@,
                msg.empty@,
            ) is Some
        }),
    ensures
        ({
            let first = s.write(now, wg, payload, false, fresh);
            let second = first.0.response(later, wg, msg, fresh2);
            &&& first.1 == Ok::<Seq<Seq<u8>>, Error>(seq![s.initiate(now, wg, fresh).1])
            &&& first.0.queue == seq![payload]
            &&& first.0.sent is Some
            &&& second.0.pair matches Some(p)
            &&& p.0 == first.0.sent->Some_0.idx
            &&& p.1.sctr == 1
            &&& p.1.sidx == msg.idx
            &&& second.1 matches Ok(out)
            &&& out == seq![(TunnelView { sctr: 0, ..p.1 }).message(payload)]
            &&& second.0.queue.len() == 0
            &&& second.0.sent is None
        }),
{
    let first = s.write(now, wg, payload, false, fresh);
    let s0 = PeerView { pair: None, queue: s.queue.push(payload), ..s };
    assert(first.0 == s0.initiate(now, wg, fresh).0);
    assert(s0.queue =~= seq![payload]);
    assert(s0.fresh_idx() == s.fresh_idx());
    let h = first.0.sent->Some_0;
    let c = h.state.confirmed(wg.key@, first.0.hs.preshared@, msg.ephemeral@, msg.empty@)->Some_0;
    let t = TunnelView {
        recv: SimplexView {
            key: arr(derived(c, Seq::empty(), 2)),
            win: WindowView::empty(),
            time: later,
        },
        role: Role::Initiator,
        send: arr(derived(c, Seq::empty(), 1)),
        sctr: 0,
        sidx: msg.idx,
    };
    let s1 = PeerView {
        prev: retired(first.0.pair),
        pair: Some((h.idx, t)),
        sent: None,
        timers: first.0.timers.received_resp(later),
        queue: Seq::empty(),
        ..first.0
    };
    let pending = first.0.queue;
    assert(pending.len() == 1 && pending[0] == payload);
    let w = s1.write(later, wg, payload, false, fresh2);
    assert(!t.send_expired(later));
    assert(!Tunnel::rekey_on_send(t.role, elapsed_spec(later, t.recv.time), t.sctr));
    assert(pending.skip(1).len() == 0);
    assert(s1.drain(later, wg, pending, fresh2).0 == w.0.drain(
        later,
        wg,
        pending.skip(1),
        fresh2,
    ).0);
    assert(w.1->Ok_0 + Seq::<Seq<u8>>::empty() =~= w.1->Ok_0);
}

} // verus!
