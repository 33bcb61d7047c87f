//! The WireGuard tunnel core: one local interface and its peers. What
//! arrives from the link is classified by its tag and taken in; what is
//! handed over is sealed; timers that come due are served. Every step
//! hands back what is to be sent on the link.

use vstd::prelude::*;

use crate::crypto::random_u32;
use crate::error::Error;
use crate::utils::bytes::{deep, same};
use crate::utils::endian::le32;
use noise::{claimed, stamped, ResponderHandshake};
use crate::crypto::TAG_LEN;
use packet::{
    Cookie, Initiation, Response, Tag, Timestamp, COOKIE, COOKIE_LEN, DATA, DATA_LEN, INITIATION,
    INITIATION_LEN, MAC_LEN, RESPONSE, RESPONSE_LEN,
};
use state::padded;
use peer::{sent_view, Fresh, Peer, PeerView};
use timers::{elapsed_spec, Fired, Timers, REKEY_ATTEMPT_TIME};
use tunnel::{Interface, Noise};

pub mod mac;
pub mod noise;
pub mod packet;
pub mod peer;
pub mod state;
pub mod timers;
pub mod tunnel;
pub mod window;

verus! {

/// What the arrival of a message leads to.
pub struct Output {
    /// What is to be sent on the link, in this order.
    pub send: Vec<Vec<u8>>,
    /// The packet that a data message carried, for the network side; a
    /// keepalive carries none.
    pub deliver: Option<Vec<u8>>,
}

/// What an output stands for.
pub ghost struct OutputView {
    pub send: Seq<Seq<u8>>,
    pub deliver: Option<Seq<u8>>,
}

impl View for Output {
    type V = OutputView;

    open spec fn view(&self) -> OutputView {
        OutputView {
            send: deep(self.send@),
            deliver: match self.deliver {
                Some(p) => Some(p@),
                None => None,
            },
        }
    }
}

/// The view of the result of taking in a message.
pub open spec fn output_view(r: Result<Output, Error>) -> Result<OutputView, Error> {
    match r {
        Ok(o) => Ok(o@),
        Err(e) => Err(e),
    }
}

/// The view of a result that holds one message.
pub open spec fn packet_view(r: Result<Vec<u8>, Error>) -> Result<Seq<u8>, Error> {
    match r {
        Ok(p) => Ok(p@),
        Err(e) => Err(e),
    }
}

pub struct Wireguard {
    pub interface: Interface,
    pub peers: Vec<Peer>,
}

/// What a tunnel stands for.
pub ghost struct WireguardView {
    pub interface: Interface,
    pub peers: Seq<PeerView>,
}

impl View for Wireguard {
    type V = WireguardView;

    open spec fn view(&self) -> WireguardView {
        WireguardView { interface: self.interface, peers: peer_views(self.peers@) }
    }
}

/// The first of the peers that has the static public key `key`.
pub open spec fn find_peer(peers: Seq<PeerView>, key: Seq<u8>) -> Option<int>
    decreases peers.len(),
{
    if peers.len() == 0 {
        None
    } else if peers[0].hs.key@ == key {
        Some(0)
    } else {
        match find_peer(peers.skip(1), key) {
            Some(i) => Some(i + 1),
            None => None,
        }
    }
}

/// What a responder makes of the initiation `msg`: the peers after its
/// timestamp was taken in, the state that the initiation leaves, and the
/// place of the peer that sent it. The initiation is turned away where a
/// sealed field does not open, where no peer has the static key that it
/// claims, and where its timestamp is not later than the last of that peer.
pub open spec fn consumed(peers: Seq<PeerView>, r: Interface, msg: Initiation) -> (
    Seq<PeerView>,
    Result<(ResponderHandshake, int), Error>,
) {
    match claimed(r.key@, r.hash.0@, msg.ephemeral@, msg.pubkey@) {
        None => (peers, Err(Error::DecryptErr)),
        Some(c) => match find_peer(peers, c.0) {
            None => (peers, Err(Error::UnknownPeer)),
            Some(j) => match stamped(c.1, peers[j].hs.s_agree@, msg.timestamp@) {
                None => (peers, Err(Error::DecryptErr)),
                Some(t) => match peers[j].hs.stamp_verdict(t.0) {
                    Err(e) => (peers, Err(e)),
                    Ok(stamp) => (
                        peers.update(
                            j,
                            PeerView {
                                hs: Noise { timestamp: Some(stamp), ..peers[j].hs },
                                ..peers[j]
                            },
                        ),
                        Ok(
                            (
                                ResponderHandshake {
                                    hash: crate::wireguard::noise::hash::Hash(
                                        crate::utils::bytes::arr(t.1.hash),
                                    ),
                                    chain: noise::chain::Chain(crate::utils::bytes::arr(t.1.chain)),
                                    iek: msg.ephemeral,
                                },
                                j,
                            ),
                        ),
                    ),
                },
            },
        },
    }
}

/// The peers after the initiation `msg` was taken in and answered at
/// `now`, and the response.
pub open spec fn handled(peers: Seq<PeerView>, r: Interface, now: u64, msg: Initiation, rek: [u8; 32]) -> (
    Seq<PeerView>,
    Result<Seq<u8>, Error>,
) {
    let c = consumed(peers, r, msg);
    match c.1 {
        Err(e) => (c.0, Err(e)),
        Ok(p) => {
            let a = c.0[p.1].respond(now, msg.idx, p.0, rek);
            (c.0.update(p.1, a.0), Ok(a.1))
        },
    }
}

/// What the peers stand for.
pub open spec fn peer_views(peers: Seq<Peer>) -> Seq<PeerView> {
    Seq::new(peers.len(), |i: int| peers[i]@)
}

/// The place of the first of the peers that has the static public key `key`.
fn find(peers: &Vec<Peer>, key: &[u8; 32]) -> (r: Option<usize>)
    ensures
        match r {
            Some(i) => find_peer(peer_views(peers@), key@) == Some(i as int) && i < peers@.len(),
            None => find_peer(peer_views(peers@), key@) is None,
        },
{
    let n: usize = peers.len();
    let mut i: usize = 0;
    let ghost all = peer_views(peers@);
    proof {
        assert(all.skip(0) =~= all);
    }
    while i < n
        invariant
            0 <= i <= n,
            n == peers@.len(),
            all == peer_views(peers@),
            find_peer(all, key@) == (match find_peer(all.skip(i as int), key@) {
                Some(j) => Some(j + i),
                None => None::<int>,
            }),
        decreases n - i,
    {
        let ghost rest = all.skip(i as int);
        proof {
            assert(rest[0] == peers@[i as int]@);
            assert(rest.skip(1) =~= all.skip(i + 1));
        }
        if same(peers[i].hs.key.as_slice(), key.as_slice()) {
            return Some(i);
        }
        i = i + 1;
    }
    None
}

/// The view of the result of taking in an initiation.
pub open spec fn consumed_view(r: Result<(ResponderHandshake, usize), Error>) -> Result<
    (ResponderHandshake, int),
    Error,
> {
    match r {
        Ok(p) => Ok((p.0, p.1 as int)),
        Err(e) => Err(e),
    }
}

impl ResponderHandshake {
    /// Take in an initiation: find the peer that sent it among `peers`,
    /// and take in its timestamp. Hands back the state that the
    /// initiation leaves and the place of the peer.
    pub fn consume_initiation(peers: &mut Vec<Peer>, r: &Interface, msg: &Initiation) -> (out:
        Result<(ResponderHandshake, usize), Error>)
        ensures
            peer_views(final(peers)@) == consumed(peer_views(old(peers)@), *r, *msg).0,
            consumed_view(out) == consumed(peer_views(old(peers)@), *r, *msg).1,
            out matches Ok(p) ==> p.1 < old(peers)@.len(),
            final(peers)@.len() == old(peers)@.len(),
    {
        let ghost before = peer_views(peers@);
        let (s_pub, partial) = match ResponderHandshake::open_static(r, msg) {
            Ok(p) => p,
            Err(e) => {
                return Err(e);
            },
        };
        let j: usize = match find(peers, &s_pub) {
            Some(j) => j,
            None => {
                return Err(Error::UnknownPeer);
            },
        };
        let s_agree: [u8; 32] = peers[j].hs.s_agree;
        let (stamp, state) = match partial.open_timestamp(&s_agree, msg) {
            Ok(p) => p,
            Err(e) => {
                return Err(e);
            },
        };
        let taken = peers[j].hs.update_timestamp(Timestamp { bytes: stamp });
        proof {
            assert(peer_views(peers@) =~= before.update(j as int, peers@[j as int]@));
        }
        match taken {
            Ok(()) => {},
            Err(e) => {
                proof {
                    assert(before.update(j as int, before[j as int]) =~= before);
                }
                return Err(e);
            },
        }
        proof {
            crate::utils::bytes::lemma_arr::<32>(state.hash.0);
            crate::utils::bytes::lemma_arr::<32>(state.chain.0);
        }
        Ok((state, j))
    }
}

impl Interface {
    /// Take in an initiation and answer it: the peer that sent it holds
    /// the session that the response offers. Hands back the response.
    pub fn handle_initiation(
        &self,
        now: u64,
        peers: &mut Vec<Peer>,
        msg: &Initiation,
        rek: [u8; 32],
    ) -> (r: Result<Vec<u8>, Error>)
        ensures
            peer_views(final(peers)@) == handled(peer_views(old(peers)@), *self, now, *msg, rek).0,
            packet_view(r) == handled(peer_views(old(peers)@), *self, now, *msg, rek).1,
            final(peers)@.len() == old(peers)@.len(),
            r matches Ok(p) ==> p@.len() == RESPONSE_LEN + MAC_LEN,
    {
        let (state, j) = match ResponderHandshake::consume_initiation(peers, self, msg) {
            Ok(p) => p,
            Err(e) => {
                return Err(e);
            },
        };
        let ghost mid = peer_views(peers@);
        let packet: Vec<u8> = peers[j].create_response(now, msg.idx, state, rek);
        proof {
            assert(peer_views(peers@) =~= mid.update(j as int, peers@[j as int]@));
        }
        Ok(packet)
    }
}

impl WireguardView {
    /// There is a peer, and the payloads that wait for the peers fit.
    pub open spec fn wf(self) -> bool {
        &&& self.peers.len() > 0
        &&& forall|i: int| 0 <= i < self.peers.len() ==> (#[trigger] self.peers[i]).wf()
    }

    /// The same tunnel with the peer at `i` in the state `p`.
    pub open spec fn with_peer(self, i: int, p: PeerView) -> WireguardView {
        WireguardView { peers: self.peers.update(i, p), ..self }
    }

    /// The tunnel after the MACs of a message were checked at `now`: a
    /// cookie that is no longer good is forgotten.
    pub open spec fn checked(self, now: u64) -> WireguardView {
        WireguardView {
            interface: Interface { mac: self.interface.mac.swept(now), ..self.interface },
            ..self
        }
    }

    /// The state after the initiation `buf` arrived at `now`, and the
    /// response. The initiation is turned away where its length or its
    /// MACs are wrong, where a sealed field does not open, where no peer
    /// has the static key that it claims, and where its timestamp is not
    /// later than the last of that peer.
    pub open spec fn initiation(self, now: u64, buf: Seq<u8>, rek: [u8; 32]) -> (
        WireguardView,
        Result<Seq<u8>, Error>,
    ) {
        if buf.len() != INITIATION_LEN + MAC_LEN {
            (self, Err(Error::MalformedPacket))
        } else if !self.interface.mac.verifies(now, buf) {
            (self.checked(now), Err(Error::MacErr))
        } else {
            let msg = Initiation {
                idx: le32(buf.skip(4)),
                ephemeral: crate::utils::bytes::arr(buf.subrange(8, 40)),
                pubkey: crate::utils::bytes::arr(buf.subrange(40, 88)),
                timestamp: crate::utils::bytes::arr(buf.subrange(88, 116)),
            };
            let r = handled(self.peers, self.interface, now, msg, rek);
            (WireguardView { peers: r.0, ..self.checked(now) }, r.1)
        }
    }

    /// The state after the response `buf` arrived at `now`, and what it leads to.
    pub open spec fn response(self, now: u64, buf: Seq<u8>, fresh: Fresh) -> (
        WireguardView,
        Result<OutputView, Error>,
    ) {
        if buf.len() != RESPONSE_LEN + MAC_LEN {
            (self, Err(Error::MalformedPacket))
        } else if !self.interface.mac.verifies(now, buf) {
            (self.checked(now), Err(Error::MacErr))
        } else {
            let msg = Response {
                idx: le32(buf.skip(4)),
                rcv_idx: le32(buf.skip(8)),
                ephemeral: crate::utils::bytes::arr(buf.subrange(12, 44)),
                empty: crate::utils::bytes::arr(buf.subrange(44, 60)),
            };
            let r = self.peers[0].response(now, self.interface, msg, fresh);
            (
                self.checked(now).with_peer(0, r.0),
                match r.1 {
                    Ok(s) => Ok(OutputView { send: s, deliver: None }),
                    Err(e) => Err(e),
                },
            )
        }
    }

    /// The state after the cookie message `buf` arrived at `now`, and what it leads to.
    pub open spec fn cookie(self, now: u64, buf: Seq<u8>) -> (
        WireguardView,
        Result<OutputView, Error>,
    ) {
        if buf.len() != COOKIE_LEN {
            (self, Err(Error::MalformedPacket))
        } else {
            let msg = Cookie {
                idx: le32(buf.skip(4)),
                nonce: crate::utils::bytes::arr(buf.subrange(8, 32)),
                cookie: crate::utils::bytes::arr(buf.subrange(32, 64)),
            };
            let r = self.peers[0].cookie(now, msg);
            (
                self.with_peer(0, r.0),
                match r.1 {
                    Ok(()) => Ok(OutputView { send: Seq::empty(), deliver: None }),
                    Err(e) => Err(e),
                },
            )
        }
    }

    /// The state after the data message `buf` arrived at `now`, and what
    /// it leads to: its payload is for the network side, unless it is a
    /// keepalive, which carries none.
    pub open spec fn data(self, now: u64, buf: Seq<u8>, fresh: Fresh) -> (
        WireguardView,
        Result<OutputView, Error>,
    ) {
        let r = self.peers[0].data(now, self.interface, buf, fresh);
        (
            self.with_peer(0, r.0),
            match r.1 {
                Ok(p) => Ok(
                    OutputView {
                        send: p.1,
                        deliver: if p.0.len() == 0 {
                            None
                        } else {
                            Some(p.0)
                        },
                    },
                ),
                Err(e) => Err(e),
            },
        )
    }

    /// The state after the message `buf` arrived from the link at `now`,
    /// and what it leads to. The first four bytes say of which kind the
    /// message is; each kind has its length.
    pub open spec fn read(self, now: u64, buf: Seq<u8>, fresh: Fresh) -> (
        WireguardView,
        Result<OutputView, Error>,
    ) {
        if buf.len() < 4 {
            (self, Err(Error::MalformedPacket))
        } else if le32(buf) == INITIATION {
            let r = self.initiation(now, buf, fresh.ephemeral);
            (
                r.0,
                match r.1 {
                    Ok(p) => Ok(OutputView { send: seq![p], deliver: None }),
                    Err(e) => Err(e),
                },
            )
        } else if le32(buf) == RESPONSE {
            self.response(now, buf, fresh)
        } else if le32(buf) == COOKIE {
            self.cookie(now, buf)
        } else if le32(buf) == DATA {
            self.data(now, buf, fresh)
        } else {
            (self, Err(Error::MalformedPacket))
        }
    }

    /// The state after the rekey timer of the peer at `idx` came due at
    /// `now`, and what is to be sent: a new initiation, unless the
    /// handshake has lasted `REKEY_ATTEMPT_TIME`; a handshake that has is
    /// given up.
    pub open spec fn rekeyed(self, now: u64, idx: int, fresh: Fresh) -> (WireguardView, Seq<Seq<u8>>) {
        let p = self.peers[idx];
        if p.timers.rekey_start matches Some(t) && elapsed_spec(now, t) >= REKEY_ATTEMPT_TIME {
            (
                self.with_peer(
                    idx,
                    PeerView {
                        sent: None,
                        timers: Timers { rekey_start: None, ..p.timers },
                        ..p
                    },
                ),
                Seq::empty(),
            )
        } else {
            let r = p.initiate(now, self.interface, fresh);
            (self.with_peer(idx, r.0), seq![r.1])
        }
    }
}

impl WireguardView {
    /// The state after the timer `fired` of the peer at `i` was taken and
    /// served at `now`, and what is to be sent: an empty data message for
    /// the keepalive timer, which is not sent where no session can be sent
    /// on; for the rekey timer, see `rekeyed`.
    pub open spec fn served(self, now: u64, i: int, fired: Fired, fresh: Fresh) -> (
        WireguardView,
        Seq<Seq<u8>>,
    ) {
        let p = self.peers[i];
        match fired {
            Fired::Keepalive => {
                let taken = PeerView { timers: Timers { keepalive: None, ..p.timers }, ..p };
                let r = taken.write(now, self.interface, Seq::empty(), true, fresh);
                (
                    self.with_peer(i, r.0),
                    match r.1 {
                        Ok(out) => out,
                        Err(_) => Seq::empty(),
                    },
                )
            },
            Fired::Rekey => {
                let taken = PeerView { timers: Timers { rekey: None, ..p.timers }, ..p };
                self.with_peer(i, taken).rekeyed(now, i, fresh)
            },
        }
    }
}

impl Wireguard {
    /// A tunnel with the static private key `s_priv` and one peer, who has
    /// the static public key `p_pub` and with whom `q_pre` is shared. The
    /// local session indices count up from `idx`.
    pub fn with_index(s_priv: [u8; 32], p_pub: [u8; 32], q_pre: [u8; 32], idx: u32) -> (w:
        Wireguard)
        ensures
            w@.wf(),
            w.interface.wf(),
            w.interface.key == s_priv,
            w.peers@.len() == 1,
            w.peers@[0].hs.wf(&w.interface),
            w.peers@[0].hs.key == p_pub,
            w.peers@[0].hs.preshared == q_pre,
            w.peers@[0].hs.idx_cur == idx,
            w@.peers[0].pair is None && w@.peers[0].sent is None && w@.peers[0].next is None
                && w@.peers[0].prev is None,
            w@.peers[0].queue == Seq::<Seq<u8>>::empty(),
    {
        let interface = Interface::new(s_priv);
        let peer = Peer::init(&interface, p_pub, q_pre, idx);
        let mut peers: Vec<Peer> = Vec::new();
        peers.push(peer);
        Wireguard { interface, peers }
    }

    /// A tunnel with the static private key `s_priv` and one peer. The
    /// local session indices count up from a random number.
    pub fn init(s_priv: [u8; 32], p_pub: [u8; 32], q_pre: [u8; 32]) -> (w: Wireguard)
        ensures
            w@.wf(),
            w.interface.wf(),
            w.interface.key == s_priv,
            w.peers@.len() == 1,
            w.peers@[0].hs.wf(&w.interface),
            w.peers@[0].hs.key == p_pub,
            w.peers@[0].hs.preshared == q_pre,
            w@.peers[0].pair is None && w@.peers[0].sent is None && w@.peers[0].next is None
                && w@.peers[0].prev is None,
            w@.peers[0].queue == Seq::<Seq<u8>>::empty(),
    {
        Self::with_index(s_priv, p_pub, q_pre, random_u32())
    }

    /// The views of the peers after the peer at `j` changed.
    proof fn lemma_peer_changed(&self, before: WireguardView, j: int)
        requires
            0 <= j < before.peers.len(),
            self.peers@.len() == before.peers.len(),
            self.interface == before.interface,
            forall|i: int|
                0 <= i < before.peers.len() && i != j ==> (#[trigger] self.peers@[i])@
                    == before.peers[i],
        ensures
            self@ == before.with_peer(j, self.peers@[j]@),
    {
        assert(self@.peers =~= before.peers.update(j, self.peers@[j]@));
    }



    /// Take in an initiation. Hands back the response.
    pub fn initiation(&mut self, now: u64, buf: &[u8], rek: [u8; 32]) -> (r: Result<Vec<u8>, Error>)
        requires
            old(self)@.wf(),
        ensures
            final(self)@ == old(self)@.initiation(now, buf@, rek).0,
            packet_view(r) == old(self)@.initiation(now, buf@, rek).1,
            r matches Ok(p) ==> p@.len() == RESPONSE_LEN + MAC_LEN,
            final(self)@.wf(),
    {
        if buf.len() != INITIATION_LEN + MAC_LEN {
            return Err(Error::MalformedPacket);
        }
        let ghost before = self@;
        let interface: Interface = self.interface;
        let checked = self.interface.mac.check(now, buf);
        proof {
            assert(self@ == before.checked(now));
        }
        match checked {
            Ok(()) => {},
            Err(e) => {
                return Err(e);
            },
        }
        let msg: Initiation = Initiation::parse(buf);
        proof {
            crate::utils::bytes::lemma_arr::<32>(msg.ephemeral);
            crate::utils::bytes::lemma_arr::<48>(msg.pubkey);
            crate::utils::bytes::lemma_arr::<28>(msg.timestamp);
            lemma_handled_wf(before.peers, interface, now, msg, rek);
        }
        interface.handle_initiation(now, &mut self.peers, &msg, rek)
    }

    /// Hand over a packet for the peer. Hands back what is to be sent on
    /// the link.
    pub fn write(&mut self, now: u64, payload: Vec<u8>, fresh: &Fresh) -> (r: Result<
        Vec<Vec<u8>>,
        Error,
    >)
        requires
            old(self)@.wf(),
        ensures
            final(self)@ == old(self)@.with_peer(
                0,
                old(self)@.peers[0].write(now, old(self).interface, payload@, false, *fresh).0,
            ),
            sent_view(r) == old(self)@.peers[0].write(
                now,
                old(self).interface,
                payload@,
                false,
                *fresh,
            ).1,
            r matches Ok(out) ==> {
                let pair = old(self)@.peers[0].pair;
                let on_session = pair is Some && !pair->Some_0.1.send_expired(now);
                let first = if on_session {
                    1int
                } else {
                    0int
                };
                &&& first <= out@.len() <= first + 1
                &&& on_session ==> out@[0]@.len() == DATA_LEN + padded(payload@).len() + TAG_LEN
                &&& forall|i: int|
                    first <= i < out@.len() ==> (#[trigger] out@[i])@.len() == INITIATION_LEN
                        + MAC_LEN
            },
            final(self)@.wf(),
    {
        let ghost before = self@;
        let interface: Interface = self.interface;
        let r = self.peers[0].write(now, &interface, payload, false, fresh);
        proof {
            self.lemma_peer_changed(before, 0);
        }
        r
    }

    /// Take in a response. Hands back what it leads to.
    pub fn response(&mut self, now: u64, buf: &[u8], fresh: &Fresh) -> (r: Result<Output, Error>)
        requires
            old(self)@.wf(),
        ensures
            final(self)@ == old(self)@.response(now, buf@, *fresh).0,
            output_view(r) == old(self)@.response(now, buf@, *fresh).1,
            final(self)@.wf(),
    {
        if buf.len() != RESPONSE_LEN + MAC_LEN {
            return Err(Error::MalformedPacket);
        }
        let ghost before = self@;
        let interface: Interface = self.interface;
        let checked = self.interface.mac.check(now, buf);
        proof {
            assert(self@.peers =~= before.peers);
            assert(self@ == before.checked(now));
        }
        match checked {
            Ok(()) => {},
            Err(e) => {
                return Err(e);
            },
        }
        let ghost mid = self@;
        let msg: Response = Response::parse(buf);
        proof {
            crate::utils::bytes::lemma_arr::<32>(msg.ephemeral);
            crate::utils::bytes::lemma_arr::<16>(msg.empty);
        }
        let r = self.peers[0].handle_response(now, &interface, &msg, fresh);
        proof {
            self.lemma_peer_changed(mid, 0);
        }
        match r {
            Ok(send) => Ok(Output { send, deliver: None }),
            Err(e) => Err(e),
        }
    }

    /// Take in a cookie message. Hands back what it leads to: nothing to send.
    pub fn cookie(&mut self, now: u64, buf: &[u8]) -> (r: Result<Output, Error>)
        requires
            old(self)@.wf(),
        ensures
            final(self)@ == old(self)@.cookie(now, buf@).0,
            output_view(r) == old(self)@.cookie(now, buf@).1,
            final(self)@.wf(),
    {
        if buf.len() != COOKIE_LEN {
            return Err(Error::MalformedPacket);
        }
        let ghost before = self@;
        let msg: Cookie = Cookie::parse(buf);
        proof {
            crate::utils::bytes::lemma_arr::<24>(msg.nonce);
            crate::utils::bytes::lemma_arr::<32>(msg.cookie);
        }
        let r = self.peers[0].handle_cookie(now, &msg);
        proof {
            self.lemma_peer_changed(before, 0);
        }
        match r {
            Ok(()) => {
                let send: Vec<Vec<u8>> = Vec::new();
                assert(deep(send@) =~= Seq::<Seq<u8>>::empty());
                Ok(Output { send, deliver: None })
            },
            Err(e) => Err(e),
        }
    }

    /// Take in a data message. Hands back what it leads to.
    pub fn data(&mut self, now: u64, buf: &[u8], fresh: &Fresh) -> (r: Result<Output, Error>)
        requires
            old(self)@.wf(),
        ensures
            final(self)@ == old(self)@.data(now, buf@, *fresh).0,
            output_view(r) == old(self)@.data(now, buf@, *fresh).1,
            final(self)@.wf(),
    {
        let ghost before = self@;
        let interface: Interface = self.interface;
        let r = self.peers[0].handle_data(now, &interface, buf, fresh);
        proof {
            self.lemma_peer_changed(before, 0);
        }
        match r {
            Ok((payload, send)) => {
                if payload.len() == 0 {
                    // A keepalive.
                    Ok(Output { send, deliver: None })
                } else {
                    Ok(Output { send, deliver: Some(payload) })
                }
            },
            Err(e) => Err(e),
        }
    }

    /// Take in a message from the link. Hands back what it leads to.
    pub fn read(&mut self, now: u64, buf: &[u8], fresh: &Fresh) -> (r: Result<Output, Error>)
        requires
            old(self)@.wf(),
        ensures
            final(self)@ == old(self)@.read(now, buf@, *fresh).0,
            output_view(r) == old(self)@.read(now, buf@, *fresh).1,
            final(self)@.wf(),
    {
        if buf.len() < 4 {
            return Err(Error::MalformedPacket);
        }
        let tag: u32 = Tag::of(buf).0;
        if tag == INITIATION {
            match self.initiation(now, buf, fresh.ephemeral) {
                Ok(p) => {
                    let mut send: Vec<Vec<u8>> = Vec::new();
                    send.push(p);
                    assert(deep(send@) =~= seq![p@]);
                    Ok(Output { send, deliver: None })
                },
                Err(e) => Err(e),
            }
        } else if tag == RESPONSE {
            self.response(now, buf, fresh)
        } else if tag == COOKIE {
            self.cookie(now, buf)
        } else if tag == DATA {
            self.data(now, buf, fresh)
        } else {
            Err(Error::MalformedPacket)
        }
    }

    /// Serve the keepalive timer of the peer at `idx`: send an empty data
    /// message.
    pub fn send_keepalive(&mut self, now: u64, idx: usize, fresh: &Fresh) -> (r: Result<
        Vec<Vec<u8>>,
        Error,
    >)
        requires
            old(self)@.wf(),
            idx < old(self).peers@.len(),
        ensures
            final(self)@ == old(self)@.with_peer(
                idx as int,
                old(self)@.peers[idx as int].write(
                    now,
                    old(self).interface,
                    Seq::empty(),
                    true,
                    *fresh,
                ).0,
            ),
            sent_view(r) == old(self)@.peers[idx as int].write(
                now,
                old(self).interface,
                Seq::empty(),
                true,
                *fresh,
            ).1,
            r is Ok <==> old(self)@.peers[idx as int].pair is Some && !old(self)@.peers[idx as int].pair->Some_0.1.send_expired(
                now,
            ),
            r matches Ok(out) ==> {
                &&& 1 <= out@.len() <= 2
                &&& out@[0]@.len() == DATA_LEN + TAG_LEN
                &&& out@.len() == 2 ==> out@[1]@.len() == INITIATION_LEN + MAC_LEN
            },
            final(self)@.wf(),
    {
        let ghost before = self@;
        let empty: Vec<u8> = Vec::new();
        assert(empty@ =~= Seq::<u8>::empty());
        assert(padded(Seq::<u8>::empty()).len() == 0);
        let interface: Interface = self.interface;
        let r = self.peers[idx].write(now, &interface, empty, true, fresh);
        proof {
            self.lemma_peer_changed(before, idx as int);
        }
        r
    }

    /// Serve the rekey timer of the peer at `idx`: send a new initiation,
    /// or give the handshake up where it has lasted `REKEY_ATTEMPT_TIME`.
    pub fn rekey(&mut self, now: u64, idx: usize, fresh: &Fresh) -> (r: Vec<Vec<u8>>)
        requires
            old(self)@.wf(),
            idx < old(self).peers@.len(),
        ensures
            final(self)@ == old(self)@.rekeyed(now, idx as int, *fresh).0,
            deep(r@) == old(self)@.rekeyed(now, idx as int, *fresh).1,
            r@.len() <= 1,
            forall|i: int| 0 <= i < r@.len() ==> (#[trigger] r@[i])@.len() == INITIATION_LEN + MAC_LEN,
            final(self)@.wf(),
    {
        let ghost before = self@;
        let mut out: Vec<Vec<u8>> = Vec::new();
        let interface: Interface = self.interface;
        if self.peers[idx].timers.rekey_elapsed(now) {
            self.peers[idx].give_up();
            proof {
                assert(deep(out@) =~= Seq::<Seq<u8>>::empty());
            }
        } else {
            let packet: Vec<u8> = self.peers[idx].create_initiation(now, &interface, fresh);
            out.push(packet);
            proof {
                assert(deep(out@) =~= seq![packet@]);
            }
        }
        proof {
            self.lemma_peer_changed(before, idx as int);
        }
        out
    }

    /// When the next timer of any peer is due, if any is set.
    pub fn next_deadline(&self) -> (r: Option<u64>)
        ensures
            match r {
                Some(d) => {
                    &&& exists|i: int|
                        0 <= i < self.peers@.len() && (#[trigger] self.peers@[i]).timers.deadline_spec()
                            == Some(d)
                    &&& forall|i: int|
                        0 <= i < self.peers@.len() && (#[trigger] self.peers@[i]).timers.deadline_spec()
                            is Some ==> d <= self.peers@[i].timers.deadline_spec()->Some_0
                },
                None => forall|i: int|
                    0 <= i < self.peers@.len() ==> (#[trigger] self.peers@[i]).timers.deadline_spec()
                        is None,
            },
    {
        let n: usize = self.peers.len();
        let mut best: Option<u64> = None;
        let mut i: usize = 0;
        while i < n
            invariant
                0 <= i <= n,
                n == self.peers@.len(),
                match best {
                    Some(d) => {
                        &&& exists|k: int|
                            0 <= k < i && (#[trigger] self.peers@[k]).timers.deadline_spec() == Some(d)
                        &&& forall|k: int|
                            0 <= k < i && (#[trigger] self.peers@[k]).timers.deadline_spec() is Some
                                ==> d <= self.peers@[k].timers.deadline_spec()->Some_0
                    },
                    None => forall|k: int|
                        0 <= k < i ==> (#[trigger] self.peers@[k]).timers.deadline_spec() is None,
                },
            decreases n - i,
        {
            match self.peers[i].timers.next_deadline() {
                Some(d) => {
                    let better: bool = match best {
                        Some(b) => d < b,
                        None => true,
                    };
                    if better {
                        best = Some(d);
                    }
                },
                None => {},
            }
            i = i + 1;
        }
        best
    }

    /// Serve one timer that is due at `now`, if any: of the first peer
    /// that has one. Hands back which timer it was, of which peer, and
    /// what is to be sent.
    pub fn poll(&mut self, now: u64, fresh: &Fresh) -> (r: Option<(usize, Fired, Vec<Vec<u8>>)>)
        requires
            old(self)@.wf(),
        ensures
            final(self)@.wf(),
            final(self).peers@.len() == old(self).peers@.len(),
            match r {
                Some(p) => {
                    &&& p.0 < old(self).peers@.len()
                    &&& old(self).peers@[p.0 as int].timers.due_spec(now) == Some(p.1)
                    &&& forall|k: int|
                        0 <= k < p.0 ==> (#[trigger] old(self).peers@[k]).timers.due_spec(now) is None
                    &&& final(self)@ == old(self)@.served(now, p.0 as int, p.1, *fresh).0
                    &&& deep(p.2@) == old(self)@.served(now, p.0 as int, p.1, *fresh).1
                    &&& p.2@.len() <= 2
                    &&& forall|i: int|
                        0 <= i < p.2@.len() ==> (#[trigger] p.2@[i])@.len() == (if p.1
                            == Fired::Keepalive && i == 0 {
                            DATA_LEN + TAG_LEN
                        } else {
                            INITIATION_LEN + MAC_LEN
                        })
                },
                None => {
                    &&& final(self)@ == old(self)@
                    &&& forall|k: int|
                        0 <= k < old(self).peers@.len() ==> (#[trigger] old(self).peers@[k]).timers.due_spec(
                            now,
                        ) is None
                },
            },
    {
        let n: usize = self.peers.len();
        let mut i: usize = 0;
        while i < n
            invariant
                0 <= i <= n,
                n == self.peers@.len(),
                self.peers@ == old(self).peers@,
                self.interface == old(self).interface,
                self@.wf(),
                forall|k: int| 0 <= k < i ==> (#[trigger] self.peers@[k]).timers.due_spec(now) is None,
            decreases n - i,
        {
            let ghost before = self@;
            match self.peers[i].take_due(now) {
                Some(fired) => {
                    proof {
                        self.lemma_peer_changed(before, i as int);
                        assert(before.peers[i as int].wf());
                    }
                    let ghost taken = self@;
                    let out: Vec<Vec<u8>> = match fired {
                        Fired::Keepalive => match self.send_keepalive(now, i, fresh) {
                            Ok(out) => out,
                            Err(_) => {
                                let none: Vec<Vec<u8>> = Vec::new();
                                assert(deep(none@) =~= Seq::<Seq<u8>>::empty());
                                none
                            },
                        },
                        Fired::Rekey => self.rekey(now, i, fresh),
                    };
                    proof {
                        assert(taken.peers.update(i as int, self@.peers[i as int])
                            =~= before.peers.update(i as int, self@.peers[i as int]));
                    }
                    return Some((i, fired, out));
                },
                None => {
                    proof {
                        assert(self.peers@ =~= old(self).peers@);
                    }
                },
            }
            i = i + 1;
        }
        None
    }
}

/// Taking in an initiation leaves a peer for each peer, and payloads that fit.
pub proof fn lemma_handled_wf(peers: Seq<PeerView>, r: Interface, now: u64, msg: Initiation, rek: [u8; 32])
    requires
        peers.len() > 0,
        forall|i: int| 0 <= i < peers.len() ==> (#[trigger] peers[i]).wf(),
    ensures
        handled(peers, r, now, msg, rek).0.len() == peers.len(),
        forall|i: int|
            0 <= i < peers.len() ==> (#[trigger] handled(peers, r, now, msg, rek).0[i]).wf(),
{
    let c = consumed(peers, r, msg);
    match claimed(r.key@, r.hash.0@, msg.ephemeral@, msg.pubkey@) {
        Some(k) => {
            lemma_find_peer(peers, k.0);
        },
        None => {},
    }
}

/// A peer that is found is one of the peers.
pub proof fn lemma_find_peer(peers: Seq<PeerView>, key: Seq<u8>)
    ensures
        find_peer(peers, key) matches Some(j) ==> 0 <= j < peers.len(),
    decreases peers.len(),
{
    if peers.len() > 0 && peers[0].hs.key@ != key {
        lemma_find_peer(peers.skip(1), key);
    }
}

} // verus!
