//! A stub resolver for DNS of RFC 1035: the query for the address of a
//! name, the answer to it, and the requests that are under way.

use vstd::prelude::*;

use crate::error::Error;
use crate::map::SlotMap;
use crate::net::ip::IpAddr;
use crate::utils::bytes::part;
use crate::utils::endian::{append, be16, be16_bytes, be32, get_be16, get_be32, to_be16};

verus! {

/// The type of a host address.
pub const TY_A: u16 = 1;

/// The class of the Internet.
pub const CLASS_IN: u16 = 1;

/// The length of the header of a message.
pub const HEADER_LEN: usize = 12;

/// The longest label of a name.
pub const MAX_LABEL: usize = 63;

/// The longest name on the wire.
pub const MAX_NAME: usize = 255;

/// The port that servers hear.
pub const PORT: u16 = 53;

/// After how long a query is sent again, in nanoseconds: 10 seconds.
pub const TIMEOUT: u64 = 10_000_000_000;

/// How many requests can be under way.
pub const CAPACITY: usize = 4096;

/// The flags of a standard query that asks for recursion.
pub const QUERY_FLAGS: u16 = 0x0100;

/// Where the first dot of `name` stands; its length where it has none.
pub open spec fn first_dot(name: Seq<u8>) -> int
    decreases name.len(),
{
    if name.len() == 0 || name[0] == 46 {
        0
    } else {
        1 + first_dot(name.skip(1))
    }
}

/// The labels of `name` on the wire: each part between dots, with its
/// length before it.
pub open spec fn labels(name: Seq<u8>) -> Seq<u8>
    decreases name.len(),
{
    let d = first_dot(name);
    if 0 <= d < name.len() {
        seq![d as u8] + name.take(d) + labels(name.skip(d + 1))
    } else {
        seq![name.len() as u8] + name
    }
}

/// Whether no label of `name` is longer than 63 bytes.
pub open spec fn short_labels(name: Seq<u8>) -> bool
    decreases name.len(),
{
    let d = first_dot(name);
    if 0 <= d < name.len() {
        d <= MAX_LABEL && short_labels(name.skip(d + 1))
    } else {
        name.len() <= MAX_LABEL
    }
}

/// The identifier that follows `id`; the identifiers wrap around.
pub open spec fn next_id(id: u16) -> u16 {
    if id == 0xFFFF {
        0
    } else {
        (id + 1) as u16
    }
}

/// The first identifier that is not taken among `id` and the `n - 1` that follow it.
pub open spec fn free_id(taken: Set<u16>, id: u16, n: nat) -> Option<u16>
    decreases n,
{
    if n == 0 {
        None
    } else if !taken.contains(id) {
        Some(id)
    } else {
        free_id(taken, next_id(id), (n - 1) as nat)
    }
}

/// The query for the address of `name` with the identifier `id`: the
/// header of a standard query with one question that asks for recursion,
/// the labels of the name, the root label, and the type and class of a
/// host address on the Internet.
pub open spec fn query_spec(id: u16, name: Seq<u8>) -> Seq<u8> {
    be16_bytes(id) + be16_bytes(QUERY_FLAGS) + be16_bytes(1) + be16_bytes(0) + be16_bytes(0)
        + be16_bytes(0) + labels(name) + seq![0u8] + be16_bytes(TY_A) + be16_bytes(CLASS_IN)
}

/// Whether `name` can be asked for: no label is longer than 63 bytes, and
/// the name on the wire is no longer than 255.
pub open spec fn askable(name: Seq<u8>) -> bool {
    short_labels(name) && labels(name).len() + 1 <= MAX_NAME
}

proof fn lemma_first_dot(s: Seq<u8>, n: int)
    requires
        0 <= n <= s.len(),
        forall|k: int| 0 <= k < n ==> s[k] != 46,
        n < s.len() ==> s[n] == 46,
    ensures
        first_dot(s) == n,
    decreases n,
{
    if n > 0 {
        let t = s.skip(1);
        assert forall|k: int| 0 <= k < n - 1 implies t[k] != 46 by {
            assert(t[k] == s[k + 1]);
        }
        lemma_first_dot(t, n - 1);
    }
}

/// Write the query for the address of `name`. A name with a label of
/// more than 63 bytes, or of more than 255 bytes on the wire, cannot be
/// asked for.
pub fn query(id: u16, name: &[u8]) -> (r: Result<Vec<u8>, Error>)
    ensures
        match r {
            Ok(q) => askable(name@) && q@ == query_spec(id, name@),
            Err(e) => !askable(name@) && e == Error::MalformedPacket,
        },
{
    let n: usize = name.len();
    let mut body: Vec<u8> = Vec::new();
    let mut start: usize = 0;
    let mut short: bool = true;
    proof {
        assert(name@.skip(0) =~= name@);
        assert(body@ + labels(name@) =~= labels(name@));
    }
    // Each turn writes one label that ends in a dot; the last label follows.
    loop
        invariant_except_break
            short,
            labels(name@) == body@ + labels(name@.skip(start as int)),
            short_labels(name@) == short_labels(name@.skip(start as int)),
        invariant
            0 <= start <= n,
            n == name@.len(),
        ensures
            0 <= start <= n,
            short ==> labels(name@) == body@,
            short == short_labels(name@),
        decreases n - start,
    {
        let ghost rest = name@.skip(start as int);
        let mut end: usize = start;
        while end < n && name[end] != 46
            invariant
                start <= end <= n,
                n == name@.len(),
                forall|k: int| start <= k < end ==> name@[k] != 46,
            decreases n - end,
        {
            end = end + 1;
        }
        proof {
            assert forall|k: int| 0 <= k < end - start implies rest[k] != 46 by {
                assert(rest[k] == name@[start + k]);
            }
            lemma_first_dot(rest, end - start);
        }
        let len: usize = end - start;
        if len > MAX_LABEL {
            short = false;
            break;
        }
        let ghost before = body@;
        body.push(len as u8);
        append(&mut body, part(name, start, end));
        if end == n {
            proof {
                assert(name@.subrange(start as int, end as int) =~= rest);
            }
            break;
        }
        proof {
            assert(name@.subrange(start as int, end as int) =~= rest.take(len as int));
            assert(rest.skip(len + 1) =~= name@.skip(end + 1));
            assert(body@ + labels(name@.skip(end + 1)) =~= before + (seq![len as u8] + rest.take(
                len as int,
            ) + labels(rest.skip(len + 1))));
        }
        start = end + 1;
    }
    if !short || body.len() >= MAX_NAME {
        return Err(Error::MalformedPacket);
    }
    let mut out: Vec<u8> = Vec::new();
    append(&mut out, to_be16(id).as_slice());
    append(&mut out, to_be16(QUERY_FLAGS).as_slice());
    append(&mut out, to_be16(1).as_slice());
    append(&mut out, to_be16(0).as_slice());
    append(&mut out, to_be16(0).as_slice());
    append(&mut out, to_be16(0).as_slice());
    append(&mut out, body.as_slice());
    out.push(0);
    append(&mut out, to_be16(TY_A).as_slice());
    append(&mut out, to_be16(CLASS_IN).as_slice());
    proof {
        assert(out@ =~= query_spec(id, name@));
    }
    Ok(out)
}

/// Where the name that starts at `at` in `b` ends: behind the label of
/// length zero, or behind the two bytes of a pointer. `None` where the
/// message ends before the name does, or a label is of a kind that is not
/// known. At most `fuel` labels are stepped over.
pub open spec fn name_end(b: Seq<u8>, at: int, fuel: nat) -> Option<int>
    decreases fuel,
{
    if fuel == 0 || at < 0 || at >= b.len() {
        None
    } else if b[at] / 64 == 3 {
        if at + 2 <= b.len() {
            Some(at + 2)
        } else {
            None
        }
    } else if b[at] / 64 != 0 {
        None
    } else if b[at] == 0 {
        Some(at + 1)
    } else {
        name_end(b, at + 1 + b[at], (fuel - 1) as nat)
    }
}

/// Step over the name that starts at `at`.
pub fn skip_name(b: &[u8], at: usize) -> (r: Option<usize>)
    ensures
        match r {
            Some(end) => name_end(b@, at as int, b@.len()) == Some(end as int) && at < end
                <= b@.len(),
            None => name_end(b@, at as int, b@.len()) is None,
        },
{
    let n: usize = b.len();
    let mut pos: usize = at;
    let mut fuel: usize = n;
    while fuel > 0
        invariant
            n == b@.len(),
            fuel <= n,
            at <= pos,
            name_end(b@, at as int, n as nat) == name_end(b@, pos as int, fuel as nat),
        decreases fuel,
    {
        if pos >= n {
            return None;
        }
        let len: u8 = b[pos];
        if len / 64 == 3 {
            // A pointer: its second byte ends the name.
            if n - pos >= 2 {
                return Some(pos + 2);
            } else {
                return None;
            }
        } else if len / 64 != 0 {
            return None;
        } else if len == 0 {
            return Some(pos + 1);
        }
        if n - pos < 1 + len as usize {
            proof {
                lemma_name_end_beyond(b@, pos + 1 + len, (fuel - 1) as nat);
            }
            return None;
        }
        pos = pos + 1 + len as usize;
        fuel = fuel - 1;
    }
    None
}

proof fn lemma_name_end_beyond(b: Seq<u8>, at: int, fuel: nat)
    requires
        at >= b.len(),
    ensures
        name_end(b, at, fuel) is None,
{
}

/// What an answer says: the identifier of the query that it answers, and
/// the address.
#[derive(Clone, Copy, Debug, PartialEq, Eq, Structural)]
pub struct Answer {
    pub id: u16,
    pub addr: u32,
}

/// What the message `b` says, where it is the answer to a query for an
/// address: a response with one question and one answer, which is a host
/// address on the Internet of four bytes.
pub open spec fn answer_spec(b: Seq<u8>) -> Option<Answer> {
    if b.len() < HEADER_LEN || b[2] / 128 != 1 || be16(b[4], b[5]) != 1 || be16(b[6], b[7]) != 1
        || be16(b[8], b[9]) != 0 || be16(b[10], b[11]) != 0 {
        None
    } else {
        match name_end(b, HEADER_LEN as int, b.len()) {
            None => None,
            Some(q) => if q + 4 > b.len() {
                None
            } else {
                match name_end(b, q + 4, b.len()) {
                    None => None,
                    Some(r) => if r + 14 > b.len() || be16(b[r], b[r + 1]) != TY_A || be16(
                        b[r + 2],
                        b[r + 3],
                    ) != CLASS_IN || be16(b[r + 8], b[r + 9]) != 4 {
                        None
                    } else {
                        Some(Answer { id: be16(b[0], b[1]), addr: be32(b.skip(r + 10)) })
                    },
                }
            },
        }
    }
}

/// Read the answer to a query for an address.
pub fn answer(b: &[u8]) -> (r: Result<Answer, Error>)
    ensures
        match r {
            Ok(a) => answer_spec(b@) == Some(a),
            Err(e) => answer_spec(b@) is None && e == Error::MalformedPacket,
        },
{
    let n: usize = b.len();
    if n < HEADER_LEN {
        return Err(Error::MalformedPacket);
    }
    if b[2] / 128 != 1 || get_be16(b, 4) != 1 || get_be16(b, 6) != 1 || get_be16(b, 8) != 0
        || get_be16(b, 10) != 0 {
        return Err(Error::MalformedPacket);
    }
    // Step over the question: its name, its type and its class.
    let q: usize = match skip_name(b, HEADER_LEN) {
        Some(q) => q,
        None => {
            return Err(Error::MalformedPacket);
        },
    };
    if n - q < 4 {
        return Err(Error::MalformedPacket);
    }
    // Step over the name of the answer.
    let r: usize = match skip_name(b, q + 4) {
        Some(r) => r,
        None => {
            return Err(Error::MalformedPacket);
        },
    };
    if n - r < 14 {
        return Err(Error::MalformedPacket);
    }
    if get_be16(b, r) != TY_A || get_be16(b, r + 2) != CLASS_IN || get_be16(b, r + 8) != 4 {
        return Err(Error::MalformedPacket);
    }
    Ok(Answer { id: get_be16(b, 0), addr: get_be32(b, r + 10) })
}

/// The requests that are under way, each with the server that was asked.
pub struct Resolver {
    /// The address of the primary DNS server.
    primary: IpAddr,
    in_flight: SlotMap<IpAddr>,
}

impl Resolver {
    /// The address of the primary DNS server.
    pub closed spec fn primary(&self) -> IpAddr {
        self.primary
    }

    /// The server that was asked, for each identifier under way.
    pub closed spec fn in_flight(&self) -> Map<u16, IpAddr> {
        self.in_flight@
    }

    /// The table of requests is sound.
    pub closed spec fn wf(&self) -> bool {
        self.in_flight.wf() && self.in_flight.capacity() == CAPACITY
    }

    /// A resolver that asks `addr`, with no request under way.
    pub fn init(addr: IpAddr) -> (r: Resolver)
        ensures
            r.wf(),
            r.primary() == addr,
            r.in_flight() == Map::<u16, IpAddr>::empty(),
    {
        Resolver { primary: addr, in_flight: SlotMap::new(CAPACITY) }
    }

    /// An identifier for a new request: the first from `seed` on that is
    /// not under way; the search wraps around once. `None` where every
    /// identifier is under way.
    pub fn gen_id(&self, seed: u16) -> (r: Option<u16>)
        requires
            self.wf(),
        ensures
            r == free_id(self.in_flight().dom(), seed, 65536),
            r matches Some(id) ==> !self.in_flight().contains_key(id),
    {
        let mut id: u16 = seed;
        let mut left: u32 = 65536;
        while left > 0
            invariant
                self.wf(),
                left <= 65536,
                free_id(self.in_flight().dom(), seed, 65536) == free_id(
                    self.in_flight().dom(),
                    id,
                    left as nat,
                ),
            decreases left,
        {
            if !self.in_flight.contains(id) {
                return Some(id);
            }
            id = if id == 0xFFFF {
                0
            } else {
                id + 1
            };
            left = left - 1;
        }
        None
    }

    /// Ask `server` for the address of `name` under the identifier `id`.
    /// Hands back the query, which goes to port 53 of the server. Fails
    /// where the name cannot be asked for, and with `AddrInUse` where the
    /// identifier is under way or too many requests are.
    pub fn v4_with(&mut self, id: u16, name: &[u8], server: IpAddr) -> (r: Result<Vec<u8>, Error>)
        requires
            old(self).wf(),
        ensures
            final(self).wf(),
            final(self).primary() == old(self).primary(),
            match r {
                Ok(q) => {
                    &&& askable(name@)
                    &&& q@ == query_spec(id, name@)
                    &&& !old(self).in_flight().contains_key(id)
                    &&& final(self).in_flight() == old(self).in_flight().insert(id, server)
                },
                Err(e) => {
                    &&& final(self).in_flight() == old(self).in_flight()
                    &&& e == (if !askable(name@) {
                        Error::MalformedPacket
                    } else {
                        Error::AddrInUse
                    })
                    &&& askable(name@) ==> old(self).in_flight().contains_key(id) || old(
                        self,
                    ).in_flight().dom().len() == CAPACITY
                },
            },
    {
        let q: Vec<u8> = match query(id, name) {
            Ok(q) => q,
            Err(e) => {
                return Err(e);
            },
        };
        match self.in_flight.insert(id, server) {
            Ok(_) => Ok(q),
            Err(_) => Err(Error::AddrInUse),
        }
    }

    /// Ask the primary server for the address of `name`.
    pub fn v4(&mut self, id: u16, name: &[u8]) -> (r: Result<Vec<u8>, Error>)
        requires
            old(self).wf(),
        ensures
            final(self).wf(),
            final(self).primary() == old(self).primary(),
            match r {
                Ok(q) => {
                    &&& askable(name@)
                    &&& q@ == query_spec(id, name@)
                    &&& !old(self).in_flight().contains_key(id)
                    &&& final(self).in_flight() == old(self).in_flight().insert(
                        id,
                        old(self).primary(),
                    )
                },
                Err(e) => {
                    &&& final(self).in_flight() == old(self).in_flight()
                    &&& e == (if !askable(name@) {
                        Error::MalformedPacket
                    } else {
                        Error::AddrInUse
                    })
                    &&& askable(name@) ==> old(self).in_flight().contains_key(id) || old(
                        self,
                    ).in_flight().dom().len() == CAPACITY
                },
            },
    {
        let server: IpAddr = self.primary;
        self.v4_with(id, name, server)
    }

    /// Take in a message from `src`. Where it answers a request that is
    /// under way with the server that was asked, the request is done and
    /// the address is handed back.
    pub fn process(&mut self, src: IpAddr, b: &[u8]) -> (r: Result<u32, Error>)
        requires
            old(self).wf(),
        ensures
            final(self).wf(),
            final(self).primary() == old(self).primary(),
            match r {
                Ok(addr) => {
                    &&& answer_spec(b@) matches Some(a)
                    &&& a.addr == addr
                    &&& old(self).in_flight().contains_key(a.id)
                    &&& old(self).in_flight()[a.id] == src
                    &&& final(self).in_flight() == old(self).in_flight().remove(a.id)
                },
                Err(e) => {
                    &&& final(self).in_flight() == old(self).in_flight()
                    &&& e == (if b@.len() < 2 || !old(self).in_flight().contains_key(
                        be16(b@[0], b@[1]),
                    ) || old(self).in_flight()[be16(b@[0], b@[1])] != src {
                        Error::UnknownPeer
                    } else {
                        Error::MalformedPacket
                    })
                    &&& e == Error::MalformedPacket ==> answer_spec(b@) is None
                },
            },
    {
        if b.len() < 2 {
            return Err(Error::UnknownPeer);
        }
        let id: u16 = get_be16(b, 0);
        match self.in_flight.find(id) {
            Some(server) => {
                if *server != src {
                    return Err(Error::UnknownPeer);
                }
            },
            None => {
                return Err(Error::UnknownPeer);
            },
        }
        let a: Answer = match answer(b) {
            Ok(a) => a,
            Err(e) => {
                return Err(e);
            },
        };
        let _ = self.in_flight.remove(id);
        Ok(a.addr)
    }
}

} // verus!
