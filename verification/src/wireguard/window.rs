//! The replay window of a receiving session: a sliding bitmap over the
//! neighbourhood of the highest counter seen.

use vstd::prelude::*;

use crate::error::Error;

verus! {

/// The number of bits in a word of the bitmap.
pub const WORD_LEN: u64 = 64;

/// The number of words in the bitmap.
pub const LEN: usize = 128;

/// What a window stands for: the word index of its head, and the counters
/// it holds as seen.
pub ghost struct WindowView {
    pub head: u64,
    pub seen: Set<u64>,
}

impl WindowView {
    /// The word index of counter `n`.
    pub open spec fn word(n: u64) -> u64 {
        n / WORD_LEN
    }

    /// Every counter held as seen lies in the span of 128 words that ends at the head.
    pub open spec fn wf(self) -> bool {
        forall|m: u64| #[trigger]
            self.seen.contains(m) ==> Self::word(m) <= self.head && self.head - Self::word(m)
                < LEN
    }

    /// Why counter `n` is turned away, or `None` where it is let through to the action.
    pub open spec fn verdict(self, n: u64) -> Option<Error> {
        if Self::word(n) > self.head {
            None
        } else if self.head - Self::word(n) >= LEN {
            Some(Error::TooOld)
        } else if self.seen.contains(n) {
            Some(Error::Replay)
        } else {
            None
        }
    }

    /// The window after counter `n` was consumed: the head moves up to the
    /// word of `n` if that is ahead, what fell out of the span is forgotten,
    /// and `n` is held as seen.
    pub open spec fn mark(self, n: u64) -> WindowView {
        let head = if Self::word(n) > self.head {
            Self::word(n)
        } else {
            self.head
        };
        WindowView {
            head,
            seen: Set::new(|m: u64| m == n || (self.seen.contains(m) && head - Self::word(m) < LEN)),
        }
    }
}

impl WindowView {
    /// The window in which nothing was seen yet.
    pub open spec fn empty() -> WindowView {
        WindowView { head: 0, seen: Set::empty() }
    }

    /// The window after one more counter arrived whose action succeeds
    /// whenever it runs.
    pub open spec fn step(self, n: u64) -> WindowView {
        if self.verdict(n) is None {
            self.mark(n)
        } else {
            self
        }
    }

    /// The window after the counters of `ns` arrived in turn, each with an
    /// action that succeeds whenever it runs.
    pub open spec fn feed(self, ns: Seq<u64>) -> WindowView
        decreases ns.len(),
    {
        if ns.len() == 0 {
            self
        } else {
            self.feed(ns.drop_last()).step(ns.last())
        }
    }
}

/// No counter of `ns` lies 128 words or more behind one that came before it.
pub open spec fn within_span(ns: Seq<u64>) -> bool {
    forall|i: int, j: int|
        0 <= j < i < ns.len() ==> WindowView::word(#[trigger] ns[j]) - WindowView::word(
            #[trigger] ns[i],
        ) < LEN
}

/// A counter that the window lets through is held as seen once it is
/// marked, and the same counter is turned away as a replay from then on.
pub proof fn law_marked_is_replay(w: WindowView, n: u64)
    requires
        w.wf(),
        w.verdict(n) is None,
    ensures
        w.mark(n).wf(),
        w.mark(n).seen.contains(n),
        w.mark(n).verdict(n) == Some(Error::Replay),
{
}

/// Marking a counter forgets no other counter that is still inside the span.
pub proof fn law_mark_keeps_others(w: WindowView, n: u64, m: u64)
    requires
        w.wf(),
        w.verdict(n) is None,
        m != n,
    ensures
        w.mark(n).seen.contains(m) <==> (w.seen.contains(m) && w.mark(n).head - WindowView::word(
            m,
        ) < LEN),
{
}

proof fn lemma_feed_prefix(ns: Seq<u64>, k: int)
    requires
        within_span(ns),
        0 <= k <= ns.len(),
    ensures
        ({
            let w = WindowView::empty().feed(ns.take(k));
            &&& w.wf()
            &&& forall|j: int| 0 <= j < k ==> WindowView::word(#[trigger] ns[j]) <= w.head
            &&& w.head == 0 || exists|j: int| 0 <= j < k && WindowView::word(#[trigger] ns[j]) == w.head
            &&& forall|m: u64| #[trigger]
                w.seen.contains(m) <==> (ns.take(k).contains(m) && w.head - WindowView::word(m) < LEN)
        }),
    decreases k,
{
    if k == 0 {
        assert(ns.take(0).len() == 0);
    } else {
        lemma_feed_prefix(ns, k - 1);
        let prev = WindowView::empty().feed(ns.take(k - 1));
        let n = ns[k - 1];
        assert(ns.take(k).drop_last() =~= ns.take(k - 1));
        assert(ns.take(k).last() == n);
        let w = WindowView::empty().feed(ns.take(k));
        assert(w == prev.step(n));
        let pre = ns.take(k - 1);
        let cur = ns.take(k);
        assert forall|m: u64| cur.contains(m) <==> (pre.contains(m) || m == n) by {
            if cur.contains(m) {
                let j = choose|j: int| 0 <= j < cur.len() && cur[j] == m;
                if j < k - 1 {
                    assert(pre[j] == m);
                }
            }
            if pre.contains(m) {
                let j = choose|j: int| 0 <= j < pre.len() && pre[j] == m;
                assert(cur[j] == m);
            }
            if m == n {
                assert(cur[k - 1] == m);
            }
        }
        assert forall|m: u64| pre.contains(m) implies WindowView::word(m) <= prev.head by {
            let j = choose|j: int| 0 <= j < pre.len() && pre[j] == m;
            assert(ns[j] == m);
        }
        if prev.head != 0 {
            let j = choose|j: int| 0 <= j < k - 1 && WindowView::word(#[trigger] ns[j]) == prev.head;
            assert(WindowView::word(ns[j]) - WindowView::word(ns[k - 1]) < LEN);
        }
        if prev.verdict(n) is None {
            assert(WindowView::word(ns[k - 1]) == WindowView::word(n));
            assert forall|m: u64| #[trigger]
                w.seen.contains(m) <==> (ns.take(k).contains(m) && w.head - WindowView::word(m)
                    < LEN) by {}
        } else {
            assert(prev.verdict(n) == Some(Error::Replay));
            assert(prev.seen.contains(n));
        }
    }
}

/// Fed the counters of `ns` in turn, a fresh window lets the counter at
/// place `i` through exactly if it did not occur before place `i`:
/// acceptance is membership in the plain set of counters that came before.
pub proof fn law_feed_matches_set(ns: Seq<u64>, i: int)
    requires
        within_span(ns),
        0 <= i < ns.len(),
    ensures
        WindowView::empty().feed(ns.take(i)).wf(),
        (WindowView::empty().feed(ns.take(i)).verdict(ns[i]) is None) <==> !ns.take(i).contains(
            ns[i],
        ),
        ns.take(i).contains(ns[i]) ==> WindowView::empty().feed(ns.take(i)).verdict(ns[i]) == Some(
            Error::Replay,
        ),
{
    lemma_feed_prefix(ns, i);
    let w = WindowView::empty().feed(ns.take(i));
    let n = ns[i];
    if w.head != 0 {
        let j = choose|j: int| 0 <= j < i && WindowView::word(#[trigger] ns[j]) == w.head;
        assert(WindowView::word(ns[j]) - WindowView::word(ns[i]) < LEN);
    }
    if ns.take(i).contains(n) {
        let pre = ns.take(i);
        let j = choose|j: int| 0 <= j < pre.len() && pre[j] == n;
        assert(ns[j] == n);
    }
}

/// The bitmask of counter `n` within its word; bit positions count from the
/// least significant.
pub open spec fn mask_spec(n: u64) -> u64 {
    1u64 << (n % WORD_LEN)
}

/// The slot of the ring that holds the word of counter `n`.
pub open spec fn slot_spec(n: u64) -> int {
    ((n / WORD_LEN) % (LEN as u64)) as int
}

/// How many words behind word `idx` the slot `slot` of the ring lies.
pub open spec fn lag(idx: u64, slot: int) -> int {
    (idx - slot) % (LEN as int)
}

proof fn lemma_same_slot(a: u64, b: u64)
    requires
        a <= b,
        b - a < 128,
        a % 128 == b % 128,
    ensures
        a == b,
{
}

proof fn lemma_mask_bits(x: u64, a: u64, b: u64)
    requires
        a < 64,
        b < 64,
    ensures
        ((x | (1u64 << a)) & (1u64 << b) != 0) <==> ((x & (1u64 << b) != 0) || a == b),
        (0u64 & (1u64 << b)) == 0,
{
    assert(((x | (1u64 << a)) & (1u64 << b) != 0) <==> ((x & (1u64 << b) != 0) || a == b))
        by (bit_vector)
        requires
            a < 64,
            b < 64,
    ;
    assert((0u64 & (1u64 << b)) == 0) by (bit_vector);
}

/// Get the bitmask to access the bit of counter `n` in its word.
pub fn mask(n: u64) -> (m: u64)
    ensures
        m == mask_spec(n),
{
    1u64 << (n % WORD_LEN)
}

pub struct Window {
    /// The bit vector of seen counters.
    bits: [u64; 128],
    /// The highest word index seen.
    head: u64,
}

impl View for Window {
    type V = WindowView;

    closed spec fn view(&self) -> WindowView {
        WindowView {
            head: self.head,
            seen: Set::new(
                |m: u64|
                    m / WORD_LEN <= self.head && self.head - m / WORD_LEN < LEN && (self.bits[slot_spec(
                        m,
                    )] & mask_spec(m)) != 0,
            ),
        }
    }
}

impl Window {
    /// Initialise a new window with no counter seen.
    pub fn empty() -> (w: Window)
        ensures
            w@.head == 0,
            w@.seen == Set::<u64>::empty(),
            w@.wf(),
    {
        let w = Window { bits: [0u64;128], head: 0 };
        proof {
            assert forall|m: u64| !w@.seen.contains(m) by {
                lemma_mask_bits(0, 0, m % 64);
            }
            assert(w@.seen =~= Set::<u64>::empty());
        }
        w
    }

    /// Initialise a new window with counter `n` seen and nothing else.
    pub fn new(n: u64) -> (w: Window)
        ensures
            w@.head == n / WORD_LEN,
            w@.seen == set![n],
            w@.wf(),
    {
        let mut bits: [u64; 128] = [0u64;128];
        let head: u64 = n / WORD_LEN;
        let slot: usize = (head % (LEN as u64)) as usize;
        let word: u64 = bits[slot] | mask(n);
        bits[slot] = word;
        let w = Window { bits, head };
        proof {
            assert forall|m: u64| w@.seen.contains(m) <==> m == n by {
                lemma_mask_bits(0, n % 64, m % 64);
                if m / 64 <= head && head - m / 64 < 128 {
                    if (m / 64) % 128 == head % 128 {
                        lemma_same_slot(m / 64, head);
                    }
                }
            }
            assert(w@.seen =~= set![n]);
        }
        w
    }

    /// Whatever its bits hold, a window keeps as seen only counters inside its span.
    pub proof fn lemma_view_wf(&self)
        ensures
            self@.wf(),
    {
    }

    /// Whether the window would let counter `n` through, and why not.
    pub fn check(&self, n: u64) -> (r: Result<(), Error>)
        ensures
            r == match self@.verdict(n) {
                None => Ok::<(), Error>(()),
                Some(e) => Err(e),
            },
    {
        let index: u64 = n / WORD_LEN;
        if index > self.head {
            Ok(())
        } else if self.head - index >= LEN as u64 {
            Err(Error::TooOld)
        } else if self.bits[(index % (LEN as u64)) as usize] & mask(n) != 0 {
            Err(Error::Replay)
        } else {
            Ok(())
        }
    }

    /// Hold counter `n` as seen, sliding the window forward where `n` is ahead of it.
    pub fn commit(&mut self, n: u64)
        requires
            old(self)@.verdict(n) is None,
        ensures
            final(self)@ == old(self)@.mark(n),
    {
        let index: u64 = n / WORD_LEN;
        let ghost before = *self;
        if index > self.head {
            let gap: u64 = index - self.head;
            let steps: u64 = if gap >= LEN as u64 {
                LEN as u64
            } else {
                gap
            };
            let mut k: u64 = 0;
            while k < steps
                invariant
                    k <= steps <= LEN,
                    steps <= index,
                    self.head == before.head,
                    forall|j: int|
                        0 <= j < LEN ==> #[trigger] self.bits[j] == (if lag(index, j) < k {
                            0u64
                        } else {
                            before.bits[j]
                        }),
                decreases steps - k,
            {
                let slot: usize = ((index - k) % (LEN as u64)) as usize;
                self.bits[slot] = 0;
                k = k + 1;
            }
            self.head = index;
        }
        let slot: usize = (index % (LEN as u64)) as usize;
        let ghost middle = *self;
        let word: u64 = self.bits[slot] | mask(n);
        self.bits[slot] = word;
        proof {
            let after = before@.mark(n);
            assert forall|m: u64| self@.seen.contains(m) <==> after.seen.contains(m) by {
                let wm = m / 64;
                let j = (wm % 128) as int;
                lemma_mask_bits(middle.bits[slot as int], n % 64, m % 64);
                if wm <= index && index - wm < 128 && wm <= self.head && self.head - wm < 128 {
                    if j == slot {
                        assert(wm == index);
                    }
                }
            }
            assert(self@.seen =~= after.seen);
        }
    }

    /// Guard counter `n` before calling the action: the action runs only if
    /// the window lets `n` through, and `n` is held as seen only if the
    /// action succeeds.
    pub fn guard<X, F: FnOnce() -> Result<X, Error>>(&mut self, n: u64, f: F) -> (r: Result<
        X,
        Error,
    >)
        requires
            old(self)@.verdict(n) is None ==> f.requires(()),
        ensures
            old(self)@.verdict(n) matches Some(e) ==> r == Err::<X, Error>(e) && final(self)@
                == old(self)@,
            old(self)@.verdict(n) is None ==> f.ensures((), r),
            old(self)@.verdict(n) is None && r is Ok ==> final(self)@ == old(self)@.mark(n),
            old(self)@.verdict(n) is None && r is Err ==> final(self)@ == old(self)@,
    {
        match self.check(n) {
            Err(e) => Err(e),
            Ok(()) => {
                match f() {
                    Ok(x) => {
                        self.commit(n);
                        Ok(x)
                    },
                    Err(e) => Err(e),
                }
            },
        }
    }
}

} // verus!
