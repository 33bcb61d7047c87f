//! Packet fragmentation and reassembly.

use vstd::prelude::*;

use super::{IpAddr, Protocol};
use crate::bytes::Slice;
use crate::error::Error;
use crate::utils::assoc::{
    distinct, lemma_to_map_dom, lemma_to_map_get, lemma_to_map_push, lemma_to_map_remove, to_map,
};
use crate::utils::endian::append;

verus! {

/// The identifying attributes of a fragmented packet.
#[derive(Clone, Copy, Debug, PartialEq, Eq, Structural)]
pub struct Key {
    /// The source address of the packet.
    pub addr: IpAddr,
    /// The packet transport protocol.
    pub proto: Protocol,
    /// The identification value of the header. For IPv4, only 2 bytes of this value are used.
    pub ident: u32,
}

/// A single packet fragment.
pub struct Fragment {
    /// Whether there are more fragments.
    pub more: bool,
    /// The byte offset of the fragment.
    pub start: u16,
    /// The byte data of the fragment.
    pub buf: Slice,
}

/// What a fragment stands for.
pub ghost struct FragmentView {
    pub more: bool,
    pub start: nat,
    pub data: Seq<u8>,
}

impl FragmentView {
    /// The end offset of the fragment (non-inclusive).
    pub open spec fn end(self) -> nat {
        self.start + self.data.len()
    }
}

impl View for Fragment {
    type V = FragmentView;

    open spec fn view(&self) -> FragmentView {
        FragmentView { more: self.more, start: self.start as nat, data: self.buf@ }
    }
}

/// Fragment `a` may stand before fragment `b`: it says that more follow,
/// starts earlier and ends no later than `b` starts.
pub open spec fn before(a: FragmentView, b: FragmentView) -> bool {
    a.more && a.start < b.start && a.end() <= b.start
}

/// The fragments are in the order of their offsets, no two overlap, and
/// none but the last says that no more follow.
pub open spec fn ordered(s: Seq<FragmentView>) -> bool {
    forall|i: int, j: int| 0 <= i < j < s.len() ==> #[trigger] before(s[i], s[j])
}

/// How many fragments at the front of `s` start before `start`: where a
/// fragment that starts at `start` belongs.
pub open spec fn rank(s: Seq<FragmentView>, start: nat) -> int
    decreases s.len(),
{
    if s.len() == 0 {
        0
    } else if s[0].start < start {
        1 + rank(s.skip(1), start)
    } else {
        0
    }
}

/// Whether the fragment `f` may join the fragments `s`: it starts where
/// none of them starts, overlaps neither its predecessor nor its successor,
/// does not follow a fragment that was the last, and is not itself the last
/// while another follows.
pub open spec fn admits(s: Seq<FragmentView>, f: FragmentView) -> bool {
    let idx = rank(s, f.start);
    &&& idx < s.len() ==> s[idx].start != f.start
    &&& idx > 0 ==> s[idx - 1].more && s[idx - 1].end() <= f.start
    &&& idx < s.len() ==> f.more && f.end() <= s[idx].start
}

/// The fragments `s` with `f` put where it belongs.
pub open spec fn put(s: Seq<FragmentView>, f: FragmentView) -> Seq<FragmentView> {
    s.insert(rank(s, f.start), f)
}

/// Fragment `b` starts where fragment `a` ends.
pub open spec fn adjoins(a: FragmentView, b: FragmentView) -> bool {
    a.end() == b.start
}

/// Whether the fragments make up a whole packet: the last says that no more
/// follow, the first starts at zero, and each starts where the one before ends.
pub open spec fn complete(s: Seq<FragmentView>) -> bool {
    &&& s.len() > 0
    &&& !s.last().more
    &&& s[0].start == 0
    &&& forall|i: int, j: int| 0 <= i && j == i + 1 && j < s.len() ==> #[trigger] adjoins(s[i], s[j])
}

/// The data of the fragments laid end to end.
pub open spec fn join(s: Seq<FragmentView>) -> Seq<u8>
    decreases s.len(),
{
    if s.len() == 0 {
        Seq::empty()
    } else {
        join(s.drop_last()) + s.last().data
    }
}

/// What `rank` gives: a place within `s`, with only earlier starts before it
/// and no earlier start at it.
pub proof fn lemma_rank(s: Seq<FragmentView>, start: nat)
    ensures
        0 <= rank(s, start) <= s.len(),
        forall|i: int| 0 <= i < rank(s, start) ==> (#[trigger] s[i]).start < start,
        rank(s, start) < s.len() ==> s[rank(s, start)].start >= start,
    decreases s.len(),
{
    if s.len() > 0 && s[0].start < start {
        let t = s.skip(1);
        lemma_rank(t, start);
        assert forall|i: int| 0 <= i < rank(s, start) implies (#[trigger] s[i]).start < start by {
            if i > 0 {
                assert(s[i] == t[i - 1]);
            }
        }
        if rank(s, start) < s.len() {
            assert(s[rank(s, start)] == t[rank(t, start)]);
        }
    }
}

/// A place with only earlier starts before it and no earlier start at it is
/// the place that `rank` gives.
pub proof fn lemma_rank_is(s: Seq<FragmentView>, start: nat, idx: int)
    requires
        0 <= idx <= s.len(),
        forall|i: int| 0 <= i < idx ==> (#[trigger] s[i]).start < start,
        idx < s.len() ==> s[idx].start >= start,
    ensures
        rank(s, start) == idx,
    decreases s.len(),
{
    if idx > 0 {
        let t = s.skip(1);
        assert(s[0].start < start);
        assert forall|i: int| 0 <= i < idx - 1 implies (#[trigger] t[i]).start < start by {
            assert(t[i] == s[i + 1]);
        }
        lemma_rank_is(t, start, idx - 1);
    }
}

/// Putting a fragment that is admitted keeps the fragments ordered.
pub proof fn lemma_put_ordered(s: Seq<FragmentView>, f: FragmentView)
    requires
        ordered(s),
        admits(s, f),
    ensures
        ordered(put(s, f)),
        put(s, f).len() == s.len() + 1,
{
    lemma_rank(s, f.start);
    let idx = rank(s, f.start);
    let t = put(s, f);
    assert forall|i: int, j: int| 0 <= i < j < t.len() implies #[trigger] before(t[i], t[j]) by {
        if j < idx {
            assert(before(s[i], s[j]));
        } else if j == idx {
            if i < idx - 1 {
                assert(before(s[i], s[idx - 1]));
            }
        } else if i < idx {
            assert(before(s[i], s[j - 1]));
        } else if i == idx {
            if j - 1 > idx {
                assert(before(s[idx], s[j - 1]));
            }
        } else {
            assert(before(s[i - 1], s[j - 1]));
        }
    }
}

/// The fragments `pieces`, in the order of their offsets, are a cover of
/// the packet `whole` without overlap: none is empty, the first starts at
/// zero, each starts where the one before ends, the last ends where the
/// packet ends and is the only one that says no more follow, and each
/// carries its part of the packet.
pub open spec fn cuts(pieces: Seq<FragmentView>, whole: Seq<u8>) -> bool {
    &&& pieces.len() > 0
    &&& pieces[0].start == 0
    &&& pieces.last().end() == whole.len()
    &&& forall|i: int|
        0 <= i < pieces.len() ==> {
            &&& (#[trigger] pieces[i]).data.len() > 0
            &&& pieces[i].more == (i < pieces.len() - 1)
            &&& pieces[i].end() <= whole.len()
            &&& pieces[i].data == whole.subrange(pieces[i].start as int, pieces[i].end() as int)
        }
    &&& forall|i: int, j: int|
        0 <= i && j == i + 1 && j < pieces.len() ==> #[trigger] adjoins(pieces[i], pieces[j])
}

/// `order` names each of the places `0..n` once.
pub open spec fn permutation(order: Seq<int>, n: nat) -> bool {
    &&& order.len() == n
    &&& forall|k: int| 0 <= k < n ==> 0 <= #[trigger] order[k] < n
    &&& forall|a: int, b: int| 0 <= a < b < n ==> #[trigger] order[a] != #[trigger] order[b]
}

/// The fragments held after those of `pieces` named by `order` arrived in
/// turn, starting from `s`; `None` where one of them was turned away.
pub open spec fn feed(s: Seq<FragmentView>, pieces: Seq<FragmentView>, order: Seq<int>) -> Option<
    Seq<FragmentView>,
>
    decreases order.len(),
{
    if order.len() == 0 {
        Some(s)
    } else {
        match feed(s, pieces, order.drop_last()) {
            None => None,
            Some(t) => {
                let f = pieces[order.last()];
                if admits(t, f) {
                    Some(put(t, f))
                } else {
                    None
                }
            },
        }
    }
}

proof fn lemma_cuts_before(pieces: Seq<FragmentView>, whole: Seq<u8>, a: int, b: int)
    requires
        cuts(pieces, whole),
        0 <= a < b < pieces.len(),
    ensures
        before(pieces[a], pieces[b]),
    decreases b - a,
{
    if a + 1 < b {
        lemma_cuts_before(pieces, whole, a, b - 1);
        assert(pieces[b - 1].data.len() > 0);
        assert(adjoins(pieces[b - 1], pieces[b]));
    } else {
        assert(pieces[a].data.len() > 0);
        assert(adjoins(pieces[a], pieces[b]));
    }
}

/// Whether `x` is among the fragments `t`.
spec fn holds(t: Seq<FragmentView>, x: FragmentView) -> bool {
    exists|i: int| 0 <= i < t.len() && #[trigger] t[i] == x
}

/// Whether `x` is one of the first `k` pieces to arrive.
spec fn arrived(pieces: Seq<FragmentView>, order: Seq<int>, k: int, x: FragmentView) -> bool {
    exists|q: int| 0 <= q < k && pieces[#[trigger] order[q]] == x
}

/// What holds of the fragments held after the first `k` arrivals.
spec fn fed(t: Seq<FragmentView>, pieces: Seq<FragmentView>, order: Seq<int>, k: int) -> bool {
    &&& ordered(t)
    &&& t.len() == k
    &&& forall|i: int| 0 <= i < k ==> arrived(pieces, order, k, #[trigger] t[i])
    &&& forall|q: int| 0 <= q < k ==> #[trigger] holds(t, pieces[order[q]])
}

proof fn lemma_feed_step(
    pieces: Seq<FragmentView>,
    whole: Seq<u8>,
    order: Seq<int>,
    k: int,
    t: Seq<FragmentView>,
)
    requires
        cuts(pieces, whole),
        permutation(order, pieces.len()),
        1 <= k <= pieces.len(),
        fed(t, pieces, order, k - 1),
    ensures
        admits(t, pieces[order[k - 1]]),
        fed(put(t, pieces[order[k - 1]]), pieces, order, k),
{
    let j = order[k - 1];
    let f = pieces[j];
    lemma_rank(t, f.start);
    let idx = rank(t, f.start);
    // Each fragment held is a piece other than `f`, and lies on the side
    // of `f` that its place among the pieces gives.
    assert forall|i: int| 0 <= i < t.len() implies ((#[trigger] t[i]).start < f.start ==> before(
        t[i],
        f,
    )) && (t[i].start >= f.start ==> before(f, t[i])) by {
        assert(arrived(pieces, order, k - 1, t[i]));
        let q = choose|q: int| 0 <= q < k - 1 && pieces[#[trigger] order[q]] == t[i];
        let a = order[q];
        assert(order[q] != order[k - 1]);
        if a < j {
            lemma_cuts_before(pieces, whole, a, j);
        } else {
            lemma_cuts_before(pieces, whole, j, a);
        }
    }
    if idx < t.len() {
        assert(before(f, t[idx]));
    }
    if idx > 0 {
        assert(before(t[idx - 1], f));
    }
    assert(admits(t, f));
    lemma_put_ordered(t, f);
    let u = put(t, f);
    assert forall|i: int| 0 <= i < k implies arrived(pieces, order, k, #[trigger] u[i]) by {
        if i < idx {
            assert(arrived(pieces, order, k - 1, t[i]));
            let q = choose|q: int| 0 <= q < k - 1 && pieces[#[trigger] order[q]] == t[i];
            assert(pieces[order[q]] == u[i]);
        } else if i == idx {
            assert(pieces[order[k - 1]] == u[i]);
        } else {
            assert(arrived(pieces, order, k - 1, t[i - 1]));
            let q = choose|q: int| 0 <= q < k - 1 && pieces[#[trigger] order[q]] == t[i - 1];
            assert(pieces[order[q]] == u[i]);
        }
    }
    assert forall|q: int| 0 <= q < k implies #[trigger] holds(u, pieces[order[q]]) by {
        if q == k - 1 {
            assert(u[idx] == pieces[order[q]]);
        } else {
            assert(holds(t, pieces[order[q]]));
            let i = choose|i: int| 0 <= i < t.len() && #[trigger] t[i] == pieces[order[q]];
            if i < idx {
                assert(u[i] == pieces[order[q]]);
            } else {
                assert(u[i + 1] == pieces[order[q]]);
            }
        }
    }
}

proof fn lemma_feed_prefix(
    pieces: Seq<FragmentView>,
    whole: Seq<u8>,
    order: Seq<int>,
    k: int,
)
    requires
        cuts(pieces, whole),
        permutation(order, pieces.len()),
        0 <= k <= pieces.len(),
    ensures
        feed(Seq::empty(), pieces, order.take(k)) is Some,
        fed(feed(Seq::empty(), pieces, order.take(k))->Some_0, pieces, order, k),
    decreases k,
{
    if k == 0 {
        assert(order.take(0).len() == 0);
    } else {
        lemma_feed_prefix(pieces, whole, order, k - 1);
        let pre = order.take(k - 1);
        let cur = order.take(k);
        assert(cur.drop_last() =~= pre);
        assert(cur.last() == order[k - 1]);
        let t = feed(Seq::empty(), pieces, pre)->Some_0;
        lemma_feed_step(pieces, whole, order, k, t);
    }
}

/// The place in `t` of the piece at place `j`.
spec fn place(t: Seq<FragmentView>, pieces: Seq<FragmentView>, j: int) -> int {
    choose|i: int| 0 <= i < t.len() && #[trigger] t[i] == pieces[j]
}

/// Every piece is among the fragments `t`.
spec fn holds_all(t: Seq<FragmentView>, pieces: Seq<FragmentView>) -> bool {
    forall|j: int| 0 <= j < pieces.len() ==> #[trigger] holds(t, pieces[j])
}

proof fn lemma_place_rises(
    t: Seq<FragmentView>,
    pieces: Seq<FragmentView>,
    whole: Seq<u8>,
    a: int,
    b: int,
)
    requires
        cuts(pieces, whole),
        ordered(t),
        0 <= a < b < pieces.len(),
        holds_all(t, pieces),
    ensures
        0 <= place(t, pieces, a) < place(t, pieces, b) < t.len(),
        t[place(t, pieces, a)] == pieces[a],
        t[place(t, pieces, b)] == pieces[b],
{
    let pa = place(t, pieces, a);
    let pb = place(t, pieces, b);
    assert(holds(t, pieces[a]));
    assert(holds(t, pieces[b]));
    lemma_cuts_before(pieces, whole, a, b);
    if pb < pa {
        assert(before(t[pb], t[pa]));
    }
}

proof fn lemma_place_lower(
    t: Seq<FragmentView>,
    pieces: Seq<FragmentView>,
    whole: Seq<u8>,
    j: int,
)
    requires
        cuts(pieces, whole),
        ordered(t),
        0 <= j < pieces.len(),
        holds_all(t, pieces),
    ensures
        j <= place(t, pieces, j) < t.len(),
        t[place(t, pieces, j)] == pieces[j],
    decreases j,
{
    assert(holds(t, pieces[j]));
    if j > 0 {
        lemma_place_lower(t, pieces, whole, j - 1);
        lemma_place_rises(t, pieces, whole, j - 1, j);
    }
}

proof fn lemma_place_upper(
    t: Seq<FragmentView>,
    pieces: Seq<FragmentView>,
    whole: Seq<u8>,
    j: int,
)
    requires
        cuts(pieces, whole),
        ordered(t),
        t.len() == pieces.len(),
        0 <= j < pieces.len(),
        holds_all(t, pieces),
    ensures
        0 <= place(t, pieces, j) <= j,
    decreases pieces.len() - j,
{
    assert(holds(t, pieces[j]));
    if j + 1 < pieces.len() {
        lemma_place_upper(t, pieces, whole, j + 1);
        lemma_place_rises(t, pieces, whole, j, j + 1);
    }
}

proof fn lemma_join_cuts(pieces: Seq<FragmentView>, whole: Seq<u8>, k: int)
    requires
        cuts(pieces, whole),
        1 <= k <= pieces.len(),
    ensures
        join(pieces.take(k)) == whole.take(pieces[k - 1].end() as int),
    decreases k,
{
    let t = pieces.take(k);
    assert(t.last() == pieces[k - 1]);
    assert(pieces[k - 1].data.len() > 0);
    if k == 1 {
        assert(t.drop_last() =~= Seq::<FragmentView>::empty());
        assert(join(t.drop_last()) =~= Seq::<u8>::empty());
        assert(join(t) =~= whole.take(pieces[0].end() as int));
    } else {
        assert(t.drop_last() =~= pieces.take(k - 1));
        lemma_join_cuts(pieces, whole, k - 1);
        assert(pieces[k - 2].data.len() > 0);
        assert(adjoins(pieces[k - 2], pieces[k - 1]));
        assert(join(t) =~= whole.take(pieces[k - 1].end() as int));
    }
}

/// Fragments that are ordered, as many as the pieces, and hold every piece
/// are the pieces in their order.
proof fn lemma_same(t: Seq<FragmentView>, pieces: Seq<FragmentView>, whole: Seq<u8>)
    requires
        cuts(pieces, whole),
        ordered(t),
        t.len() == pieces.len(),
        holds_all(t, pieces),
    ensures
        t == pieces,
{
    assert forall|j: int| 0 <= j < pieces.len() implies t[j] == pieces[j] by {
        lemma_place_lower(t, pieces, whole, j);
        lemma_place_upper(t, pieces, whole, j);
    }
    assert(t =~= pieces);
}

/// Reassembly accepts the fragments of a packet in any order and gives
/// back the packet: when the fragments of a cover without overlap have
/// arrived in the order `order`, whatever that is, none was turned away,
/// those held are the cover in the order of its offsets, they are
/// complete, and laid end to end they are the bytes of the packet.
pub proof fn law_any_order_reassembles(
    pieces: Seq<FragmentView>,
    whole: Seq<u8>,
    order: Seq<int>,
)
    requires
        cuts(pieces, whole),
        permutation(order, pieces.len()),
    ensures
        feed(Seq::empty(), pieces, order) == Some(pieces),
        complete(pieces),
        join(pieces) == whole,
{
    let n = pieces.len() as int;
    lemma_feed_prefix(pieces, whole, order, n);
    assert(order.take(n) =~= order);
    let t = feed(Seq::empty(), pieces, order)->Some_0;
    // Every piece is held: a permutation names every place.
    lemma_permutation_onto(order, pieces.len());
    assert(holds_all(t, pieces)) by {
        assert forall|j: int| 0 <= j < n implies #[trigger] holds(t, pieces[j]) by {
            assert(names(order, j));
            let q = choose|q: int| 0 <= q < n && #[trigger] order[q] == j;
            assert(holds(t, pieces[order[q]]));
        }
    }
    lemma_same(t, pieces, whole);
    assert(complete(pieces)) by {
        assert(pieces[n - 1].more == (n - 1 < n - 1));
    }
    lemma_join_cuts(pieces, whole, n);
    assert(pieces.take(n) =~= pieces);
    assert(whole.take(whole.len() as int) =~= whole);
}

/// Whether `order` names the place `j`.
spec fn names(order: Seq<int>, j: int) -> bool {
    exists|q: int| 0 <= q < order.len() && #[trigger] order[q] == j
}

/// A sequence that names each of `0..n` at most once, `n` times, names each of them.
proof fn lemma_permutation_onto(order: Seq<int>, n: nat)
    requires
        permutation(order, n),
    ensures
        forall|j: int| 0 <= j < n ==> #[trigger] names(order, j),
    decreases n,
{
    if n > 0 {
        // Take out the place that names `n - 1`, if any, and argue on the rest.
        if exists|q: int| 0 <= q < n && #[trigger] order[q] == n - 1 {
            let q = choose|q: int| 0 <= q < n && #[trigger] order[q] == n - 1;
            let rest = order.remove(q);
            assert(permutation(rest, (n - 1) as nat)) by {
                assert forall|k: int| 0 <= k < n - 1 implies 0 <= #[trigger] rest[k] < n - 1 by {
                    let k2 = if k < q {
                        k
                    } else {
                        k + 1
                    };
                    assert(rest[k] == order[k2]);
                    assert(order[k2] != order[q]);
                }
                assert forall|a: int, b: int| 0 <= a < b < n - 1 implies #[trigger] rest[a]
                    != #[trigger] rest[b] by {
                    let a2 = if a < q {
                        a
                    } else {
                        a + 1
                    };
                    let b2 = if b < q {
                        b
                    } else {
                        b + 1
                    };
                    assert(rest[a] == order[a2] && rest[b] == order[b2]);
                }
            }
            lemma_permutation_onto(rest, (n - 1) as nat);
            assert forall|j: int| 0 <= j < n implies #[trigger] names(order, j) by {
                if j == n - 1 {
                    assert(order[q] == j);
                } else {
                    assert(names(rest, j));
                    let p = choose|p: int| 0 <= p < n - 1 && #[trigger] rest[p] == j;
                    let p2 = if p < q {
                        p
                    } else {
                        p + 1
                    };
                    assert(order[p2] == j);
                }
            }
        } else {
            // No place names `n - 1`: `n` places name `n - 1` values, each
            // at most once, which cannot be.
            let rest = order.drop_last();
            assert(permutation(rest, (n - 1) as nat)) by {
                assert forall|k: int| 0 <= k < n - 1 implies 0 <= #[trigger] rest[k] < n - 1 by {
                    assert(rest[k] == order[k]);
                }
                assert forall|a: int, b: int| 0 <= a < b < n - 1 implies #[trigger] rest[a]
                    != #[trigger] rest[b] by {
                    assert(rest[a] == order[a] && rest[b] == order[b]);
                }
            }
            lemma_permutation_onto(rest, (n - 1) as nat);
            let last = order[n - 1];
            assert(0 <= last < n - 1);
            assert(names(rest, last));
            let p = choose|p: int| 0 <= p < n - 1 && #[trigger] rest[p] == last;
            assert(order[p] == order[n - 1]);
            assert(false);
        }
    }
}

/// A partially reassembled packet.
pub struct State {
    fragments: Vec<Fragment>,
}

impl View for State {
    type V = Seq<FragmentView>;

    closed spec fn view(&self) -> Seq<FragmentView> {
        Seq::new(self.fragments@.len(), |i: int| self.fragments@[i]@)
    }
}

impl State {
    /// The fragments held are ordered.
    pub open spec fn wf(&self) -> bool {
        ordered(self@)
    }

    /// A state that holds no fragment yet.
    pub fn new() -> (s: State)
        ensures
            s@ == Seq::<FragmentView>::empty(),
            s.wf(),
    {
        let s = State { fragments: Vec::new() };
        assert(s@ =~= Seq::<FragmentView>::empty());
        s
    }

    /// The number of fragments held.
    pub fn len(&self) -> (n: usize)
        ensures
            n == self@.len(),
    {
        self.fragments.len()
    }

    /// Find where a fragment that starts at `start` belongs: `Ok` with the
    /// place of the fragment that starts there already, or `Err` with the
    /// place where it can be put.
    fn search(&self, start: u16) -> (r: Result<usize, usize>)
        requires
            self.wf(),
        ensures
            match r {
                Ok(i) => i < self@.len() && self@[i as int].start == start && rank(
                    self@,
                    start as nat,
                ) == i,
                Err(i) => i <= self@.len() && rank(self@, start as nat) == i && (i < self@.len()
                    ==> self@[i as int].start != start),
            },
    {
        let mut lo: usize = 0;
        let mut hi: usize = self.fragments.len();
        while lo < hi
            invariant
                0 <= lo <= hi <= self@.len(),
                self@.len() == self.fragments@.len(),
                ordered(self@),
                forall|i: int| 0 <= i < lo ==> (#[trigger] self@[i]).start < start,
                forall|i: int| hi <= i < self@.len() ==> (#[trigger] self@[i]).start > start,
            decreases hi - lo,
        {
            let mid: usize = lo + (hi - lo) / 2;
            let at: u16 = self.fragments[mid].start;
            assert(self@[mid as int].start == at);
            if at == start {
                proof {
                    assert forall|i: int| 0 <= i < mid implies (#[trigger] self@[i]).start
                        < start by {
                        assert(before(self@[i], self@[mid as int]));
                    }
                    lemma_rank_is(self@, start as nat, mid as int);
                }
                return Ok(mid);
            } else if at < start {
                proof {
                    assert forall|i: int| 0 <= i < mid + 1 implies (#[trigger] self@[i]).start
                        < start by {
                        if i < mid {
                            assert(before(self@[i], self@[mid as int]));
                        }
                    }
                }
                lo = mid + 1;
            } else {
                proof {
                    assert forall|i: int| mid <= i < self@.len() implies (#[trigger] self@[i]).start
                        > start by {
                        if i > mid {
                            assert(before(self@[mid as int], self@[i]));
                        }
                    }
                }
                hi = mid;
            }
        }
        proof {
            lemma_rank_is(self@, start as nat, lo as int);
        }
        Err(lo)
    }

    /// Attempts to put a fragment into the state. A fragment that is turned
    /// away comes back in the error.
    pub fn try_insert(&mut self, fragment: Fragment) -> (r: Result<(), Fragment>)
        requires
            old(self).wf(),
        ensures
            final(self).wf(),
            match r {
                Ok(()) => admits(old(self)@, fragment@) && final(self)@ == put(
                    old(self)@,
                    fragment@,
                ),
                Err(f) => !admits(old(self)@, fragment@) && f == fragment && final(self)@ == old(
                    self,
                )@,
            },
    {
        proof {
            lemma_rank(self@, fragment@.start);
        }
        // Get the place of the new fragment.
        let idx: usize = match self.search(fragment.start) {
            Err(idx) => idx,
            // A fragment that starts at the same offset overlaps.
            Ok(_) => {
                return Err(fragment);
            },
        };
        let len: usize = fragment.buf.len();
        // Check against the preceding fragment.
        if idx > 0 {
            let f = &self.fragments[idx - 1];
            assert(*f == self.fragments@[idx - 1]);
            assert(self@[idx - 1] == f@);
            let flen: usize = f.buf.len();
            // The preceding fragment was the last, or reaches into this one.
            if !f.more || ((fragment.start - f.start) as usize) < flen {
                return Err(fragment);
            }
        }
        // Check against the following fragment.
        if idx < self.fragments.len() {
            let f = &self.fragments[idx];
            assert(self@[idx as int] == f@);
            // This fragment says that it is the last, but another follows it.
            if !fragment.more {
                return Err(fragment);
            }
            // This fragment reaches into the following one.
            if ((f.start - fragment.start) as usize) < len {
                return Err(fragment);
            }
        }
        proof {
            lemma_put_ordered(self@, fragment@);
        }
        let ghost before = self@;
        let ghost fv = fragment@;
        // Put the fragment at the place that the search gave.
        self.fragments.insert(idx, fragment);
        proof {
            assert(self@ =~= before.insert(idx as int, fv));
        }
        Ok(())
    }

    /// Try to assemble the fragments into a full packet.
    pub fn assemble(&self) -> (r: Option<Slice>)
        ensures
            match r {
                Some(whole) => complete(self@) && whole@ == join(self@),
                None => !complete(self@),
            },
    {
        let n: usize = self.fragments.len();
        // Without a fragment that says it is the last, the packet is not done.
        if n == 0 || self.fragments[n - 1].more {
            assert(n > 0 ==> self@.last() == self.fragments@[n - 1]@);
            return None;
        }
        assert(self@.last() == self.fragments@[n - 1]@);
        let mut whole: Vec<u8> = Vec::new();
        let mut i: usize = 0;
        proof {
            assert(self@.take(0) =~= Seq::<FragmentView>::empty());
        }
        while i < n
            invariant
                0 <= i <= n,
                n == self.fragments@.len(),
                n == self@.len(),
                whole@ == join(self@.take(i as int)),
                i > 0 ==> self@[0].start == 0,
                forall|k: int, l: int|
                    0 <= k && l == k + 1 && l < i ==> #[trigger] adjoins(self@[k], self@[l]),
                i > 0 ==> self@[i - 1].end() == whole@.len(),
            decreases n - i,
        {
            let f = &self.fragments[i];
            assert(self@[i as int] == f@);
            // A fragment that does not start where the last one ended leaves a gap.
            if f.start as usize != whole.len() {
                proof {
                    if i > 0 {
                        assert(!adjoins(self@[i - 1], self@[i as int]));
                    }
                }
                return None;
            }
            append(&mut whole, f.buf.as_slice());
            proof {
                let t = self@.take(i + 1);
                assert(t.drop_last() =~= self@.take(i as int));
                assert(t.last() == self@[i as int]);
            }
            i = i + 1;
        }
        proof {
            assert(self@.take(n as int) =~= self@);
        }
        Some(Slice::from_vec(whole))
    }
}

/// The fragments of one packet under reassembly, with the key of the packet.
struct Slot {
    key: Key,
    state: State,
}

/// Stores IP packet fragments for reassembly.
pub struct Store {
    /// The packets under reassembly; no key occurs twice.
    slots: Vec<Slot>,
}

impl View for Store {
    type V = Map<Key, Seq<FragmentView>>;

    /// The fragments held for each packet under reassembly.
    closed spec fn view(&self) -> Map<Key, Seq<FragmentView>> {
        to_map(self.pairs())
    }
}

impl Default for Store {
    fn default() -> (s: Store)
        ensures
            s@ == Map::<Key, Seq<FragmentView>>::empty(),
            s.wf(),
    {
        Store { slots: Vec::new() }
    }
}

impl Store {
    spec fn pairs(&self) -> Seq<(Key, Seq<FragmentView>)> {
        Seq::new(self.slots@.len(), |i: int| (self.slots@[i].key, self.slots@[i].state@))
    }

    /// No packet is held twice, and the fragments of each are ordered.
    pub closed spec fn wf(&self) -> bool {
        &&& distinct(self.pairs())
        &&& forall|i: int| 0 <= i < self.slots@.len() ==> (#[trigger] self.slots@[i]).state.wf()
    }

    /// Whether no packet is under reassembly.
    pub fn is_empty(&self) -> (b: bool)
        requires
            self.wf(),
        ensures
            b == (self@ == Map::<Key, Seq<FragmentView>>::empty()),
    {
        proof {
            if self.slots@.len() > 0 {
                lemma_to_map_get(self.pairs(), 0);
            } else {
                assert(self.pairs() =~= Seq::<(Key, Seq<FragmentView>)>::empty());
            }
        }
        self.slots.len() == 0
    }

    /// Whether fragments of the packet `key` are held.
    pub fn contains(&self, key: Key) -> (b: bool)
        requires
            self.wf(),
        ensures
            b == self@.contains_key(key),
    {
        match self.find(key) {
            Some(i) => {
                proof {
                    lemma_to_map_get(self.pairs(), i as int);
                }
                true
            },
            None => false,
        }
    }

    /// The place of the packet `key`, if fragments of it are held.
    fn find(&self, key: Key) -> (r: Option<usize>)
        requires
            self.wf(),
        ensures
            match r {
                Some(i) => i < self.slots@.len() && self.slots@[i as int].key == key,
                None => !self@.contains_key(key),
            },
    {
        let n: usize = self.slots.len();
        let mut i: usize = 0;
        while i < n
            invariant
                0 <= i <= n,
                n == self.slots@.len(),
                forall|j: int| 0 <= j < i ==> (#[trigger] self.slots@[j]).key != key,
            decreases n - i,
        {
            if self.slots[i].key == key {
                return Some(i);
            }
            i = i + 1;
        }
        proof {
            lemma_to_map_dom(self.pairs(), key);
            if self@.contains_key(key) {
                let j = choose|j: int| 0 <= j < self.pairs().len() && (#[trigger] self.pairs()[j]).0
                    == key;
                assert(self.slots@[j].key == key);
            }
        }
        None
    }

    /// Consume a packet fragment. The fragment joins those held under
    /// `key`; where they now make up the whole packet, the packet is handed
    /// back and forgotten.
    pub fn handle_fragment(&mut self, key: Key, fragment: Fragment) -> (r: Result<
        Option<Slice>,
        Error,
    >)
        requires
            old(self).wf(),
        ensures
            final(self).wf(),
            ({
                let held = if old(self)@.contains_key(key) {
                    old(self)@[key]
                } else {
                    Seq::<FragmentView>::empty()
                };
                let now = put(held, fragment@);
                if !admits(held, fragment@) {
                    &&& r == Err::<Option<Slice>, Error>(Error::MalformedPacket)
                    &&& final(self)@ == old(self)@
                } else if complete(now) {
                    &&& r matches Ok(Some(whole))
                    &&& whole@ == join(now)
                    &&& final(self)@ == old(self)@.remove(key)
                } else {
                    &&& r == Ok::<Option<Slice>, Error>(None)
                    &&& final(self)@ == old(self)@.insert(key, now)
                }
            }),
    {
        let ghost before = self.pairs();
        let mut state: State = match self.find(key) {
            Some(i) => {
                proof {
                    lemma_to_map_get(before, i as int);
                    lemma_to_map_remove(before, i as int);
                }
                let slot: Slot = self.slots.remove(i);
                proof {
                    assert(self.pairs() =~= before.remove(i as int));
                }
                slot.state
            },
            None => State::new(),
        };
        let ghost rest = self.pairs();
        let ghost held = state@;
        assert(to_map(rest) == to_map(before).remove(key));
        assert(self.wf());
        let ghost fv = fragment@;
        match state.try_insert(fragment) {
            Err(_) => {
                if state.len() > 0 {
                    self.slots.push(Slot { key, state });
                    proof {
                        assert(self.pairs() =~= rest.push((key, held)));
                        lemma_to_map_push(rest, key, held);
                        lemma_store_put_back(rest, key, held);
                        assert(self@ =~= to_map(before));
                    }
                } else {
                    proof {
                        assert(to_map(rest) =~= to_map(before));
                    }
                }
                Err(Error::MalformedPacket)
            },
            Ok(()) => {
                match state.assemble() {
                    Some(whole) => {
                        Ok(Some(whole))
                    },
                    None => {
                        let ghost now = state@;
                        self.slots.push(Slot { key, state });
                        proof {
                            assert(self.pairs() =~= rest.push((key, now)));
                            lemma_to_map_push(rest, key, now);
                            lemma_store_put_back(rest, key, now);
                            assert(self@ =~= to_map(before).insert(key, now));
                        }
                        Ok(None)
                    },
                }
            },
        }
    }
}

/// A pair with a key that is not among the pairs keeps the keys distinct.
proof fn lemma_store_put_back(rest: Seq<(Key, Seq<FragmentView>)>, key: Key, v: Seq<FragmentView>)
    requires
        distinct(rest),
        !to_map(rest).contains_key(key),
    ensures
        distinct(rest.push((key, v))),
{
    let s = rest.push((key, v));
    assert forall|a: int, b: int| 0 <= a < b < s.len() implies (#[trigger] s[a]).0 != (
    #[trigger] s[b]).0 by {
        if b == rest.len() {
            lemma_to_map_dom(rest, key);
            assert(rest[a] == s[a]);
        } else {
            assert(rest[a].0 != rest[b].0);
        }
    }
}

} // verus!
