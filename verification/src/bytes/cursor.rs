//! A bump-pointer writer for nested headers. A cursor owns a buffer, writes
//! into a window of it, and tracks a pivot: the farthest point written, at
//! which the buffer is cut when the cursor is finished. A cursor can be
//! forked: the fork works on the same buffer and moves the same pivot, and
//! when it is joined the cursor stands on its own window again.

use vstd::prelude::*;

verus! {

/// A stretch of the buffer: a record that was set aside to be filled in
/// later, or a window to come back to.
#[derive(Clone, Copy, Debug, PartialEq, Eq, Structural)]
pub struct Region {
    /// Where the stretch starts within the whole buffer.
    pub at: usize,
    /// The length of the stretch.
    pub len: usize,
}

impl Region {
    /// Whether the stretch from `lo` up to `hi` lies inside this one.
    pub open spec fn holds(self, lo: nat, hi: nat) -> bool {
        self.at <= lo && hi <= self.at + self.len
    }
}

/// Whether the windows `saved` lie inside a buffer of `total` bytes and
/// around each other, the later inside the earlier, and around the stretch
/// from `lo` up to `hi`.
pub open spec fn nested(saved: Seq<Region>, lo: nat, hi: nat, total: nat) -> bool {
    &&& forall|i: int|
        0 <= i < saved.len() ==> (#[trigger] saved[i]).at + saved[i].len <= total && saved[i].holds(
            lo,
            hi,
        )
    &&& forall|i: int, j: int|
        0 <= i < j < saved.len() ==> (#[trigger] saved[i]).holds(
            (#[trigger] saved[j]).at as nat,
            (saved[j].at + saved[j].len) as nat,
        )
}

/// Windows that lie around a stretch lie around every stretch inside it.
pub proof fn lemma_narrow(saved: Seq<Region>, lo: nat, hi: nat, total: nat, lo2: nat, hi2: nat)
    requires
        nested(saved, lo, hi, total),
        lo <= lo2 <= hi2 <= hi,
    ensures
        nested(saved, lo2, hi2, total),
{
}

/// A utility structure for writing into a byte buffer.
pub struct Cursor {
    /// The underlying buffer.
    buf: Vec<u8>,
    /// Where the window starts within the buffer.
    lo: usize,
    /// Where the window ends within the buffer.
    hi: usize,
    /// A place within the buffer, at or after the start of the window.
    pivot: usize,
    /// The windows of the cursors that this one was forked from, the
    /// nearest last.
    saved: Vec<Region>,
}

/// The bytes `all` with those from `at` on overwritten by `t`.
pub open spec fn overwrite(all: Seq<u8>, at: int, t: Seq<u8>) -> Seq<u8> {
    all.take(at) + t + all.skip(at + t.len())
}

/// Overwrite the bytes of `buf` from `at` on by those of `src`.
pub fn write_at(buf: &mut Vec<u8>, at: usize, src: &[u8])
    requires
        at + src@.len() <= old(buf)@.len(),
    ensures
        final(buf)@ == overwrite(old(buf)@, at as int, src@),
{
    let n: usize = src.len();
    let total: usize = buf.len();
    let mut i: usize = 0;
    while i < n
        invariant
            0 <= i <= n,
            n == src@.len(),
            at + n <= total,
            total == buf@.len(),
            total == old(buf)@.len(),
            forall|k: int|
                0 <= k < total ==> buf@[k] == (if at <= k < at + i {
                    src@[k - at]
                } else {
                    old(buf)@[k]
                }),
        decreases n - i,
    {
        buf[at + i] = src[i];
        i = i + 1;
    }
    proof {
        assert(buf@ =~= overwrite(old(buf)@, at as int, src@));
    }
}

impl Cursor {
    /// The whole buffer under the cursor.
    pub closed spec fn all(&self) -> Seq<u8> {
        self.buf@
    }

    /// Where the window starts within the buffer.
    pub closed spec fn lo(&self) -> nat {
        self.lo as nat
    }

    /// Where the window ends within the buffer.
    pub closed spec fn hi(&self) -> nat {
        self.hi as nat
    }

    /// Where the pivot stands within the buffer.
    pub closed spec fn mark(&self) -> nat {
        self.pivot as nat
    }

    /// The windows of the cursors that this one was forked from, the
    /// nearest last.
    pub closed spec fn saved(&self) -> Seq<Region> {
        self.saved@
    }

    /// The window lies inside the buffer, and the pivot at or after its
    /// start; the windows of the cursors that this one was forked from lie
    /// inside the buffer and around each other, the window of this cursor
    /// innermost.
    pub open spec fn wf(&self) -> bool {
        &&& self.lo() <= self.hi() <= self.all().len() <= usize::MAX
        &&& self.lo() <= self.mark() <= self.all().len()
        &&& nested(self.saved(), self.lo(), self.hi(), self.all().len())
    }

    /// The bytes inside the window.
    pub open spec fn window(&self) -> Seq<u8> {
        self.all().subrange(self.lo() as int, self.hi() as int)
    }

    /// Whether this is a cursor that starts out over the bytes `all`.
    pub open spec fn starts_over(&self, all: Seq<u8>) -> bool {
        &&& self.all() == all
        &&& self.lo() == 0
        &&& self.hi() == all.len()
        &&& self.mark() == 0
        &&& self.saved().len() == 0
    }

    /// Whether this cursor stands on the same buffer as `other`, with the
    /// same forks behind it.
    pub open spec fn beside(&self, other: &Cursor) -> bool {
        self.all().len() == other.all().len() && self.saved() == other.saved()
    }

    /// A cursor over the whole of `buf`, with the pivot at its start.
    pub fn over(buf: Vec<u8>) -> (c: Cursor)
        ensures
            c.wf(),
            c.starts_over(buf@),
    {
        let hi: usize = buf.len();
        Cursor { buf, lo: 0, hi, pivot: 0, saved: Vec::new() }
    }

    /// Give the buffer back, cut off at the pivot.
    pub fn finish(self) -> (r: Vec<u8>)
        requires
            self.wf(),
        ensures
            r@ == self.all().take(self.mark() as int),
    {
        let mut buf = self.buf;
        buf.truncate(self.pivot);
        proof {
            assert(buf@ =~= self.all().take(self.mark() as int));
        }
        buf
    }

    /// Run `f` on a cursor over `vec`, and cut `vec` off at the pivot of
    /// the cursor that `f` hands back.
    pub fn vec<X, F: FnOnce(Cursor) -> (Cursor, X)>(vec: &mut Vec<u8>, f: F) -> (x: X)
        requires
            forall|c: Cursor| c.wf() && c.starts_over(old(vec)@) ==> f.requires((c,)),
            forall|c: Cursor, d: Cursor, y: X| f.ensures((c,), (d, y)) ==> d.wf(),
        ensures
            exists|c: Cursor, d: Cursor|
                c.wf() && c.starts_over(old(vec)@) && f.ensures((c,), (d, x)) && final(vec)@
                    == d.all().take(d.mark() as int),
    {
        let mut taken: Vec<u8> = Vec::new();
        core::mem::swap(vec, &mut taken);
        let c = Cursor::over(taken);
        let (d, x) = f(c);
        let mut done: Vec<u8> = d.finish();
        core::mem::swap(vec, &mut done);
        x
    }

    /// Gets the index of the pivot within the window.
    pub fn pivot(&self) -> (r: usize)
        requires
            self.wf(),
        ensures
            r == self.mark() - self.lo(),
    {
        self.pivot - self.lo
    }

    /// The number of bytes in the window.
    pub fn len(&self) -> (r: usize)
        requires
            self.wf(),
        ensures
            r == self.hi() - self.lo(),
    {
        self.hi - self.lo
    }

    /// The bytes inside the window.
    pub fn as_slice(&self) -> (r: &[u8])
        requires
            self.wf(),
        ensures
            r@ == self.window(),
    {
        vstd::slice::slice_subrange(self.buf.as_slice(), self.lo, self.hi)
    }

    /// Pushes bytes to the start of the window, and moves the start of the
    /// window and the pivot behind them.
    pub fn push(self, t: &[u8]) -> (r: Cursor)
        requires
            self.wf(),
            t@.len() <= self.hi() - self.lo(),
        ensures
            r.wf(),
            r.saved() == self.saved(),
            r.all() == overwrite(self.all(), self.lo() as int, t@),
            r.lo() == self.lo() + t@.len(),
            r.hi() == self.hi(),
            r.mark() == self.lo() + t@.len(),
    {
        proof {
            lemma_narrow(
                self.saved(),
                self.lo(),
                self.hi(),
                self.all().len(),
                self.lo() + t@.len(),
                self.hi(),
            );
        }
        let mut buf = self.buf;
        write_at(&mut buf, self.lo, t);
        let lo: usize = self.lo + t.len();
        Cursor { buf, lo, hi: self.hi, pivot: lo, saved: self.saved }
    }

    /// Narrows the window to its first `n` bytes, which are to hold one
    /// record, and moves the pivot to the end of the record.
    pub fn cast(self, n: usize) -> (r: Cursor)
        requires
            self.wf(),
            n <= self.hi() - self.lo(),
        ensures
            r.wf(),
            r.saved() == self.saved(),
            r.all() == self.all(),
            r.lo() == self.lo(),
            r.hi() == self.lo() + n,
            r.mark() == self.lo() + n,
    {
        proof {
            lemma_narrow(
                self.saved(),
                self.lo(),
                self.hi(),
                self.all().len(),
                self.lo(),
                (self.lo() + n) as nat,
            );
        }
        let hi: usize = self.lo + n;
        Cursor { buf: self.buf, lo: self.lo, hi, pivot: hi, saved: self.saved }
    }

    /// Splits a record of `n` bytes off the start of the window, to be
    /// filled in later, and moves the start of the window and the pivot
    /// behind it.
    pub fn split(self, n: usize) -> (r: (Region, Cursor))
        requires
            self.wf(),
            n <= self.hi() - self.lo(),
        ensures
            r.1.wf(),
            r.1.saved() == self.saved(),
            r.0.at as nat == self.lo(),
            r.0.len == n,
            r.1.all() == self.all(),
            r.1.lo() == self.lo() + n,
            r.1.hi() == self.hi(),
            r.1.mark() == self.lo() + n,
    {
        proof {
            lemma_narrow(
                self.saved(),
                self.lo(),
                self.hi(),
                self.all().len(),
                (self.lo() + n) as nat,
                self.hi(),
            );
        }
        let lo: usize = self.lo + n;
        (
            Region { at: self.lo, len: n },
            Cursor { buf: self.buf, lo, hi: self.hi, pivot: lo, saved: self.saved },
        )
    }

    /// Splits a record of `n` bytes off behind the pivot, to be filled in
    /// later: the window ends where the pivot stood, and the pivot moves
    /// to the end of the record.
    pub fn rsplit(self, n: usize) -> (r: (Cursor, Region))
        requires
            self.wf(),
            self.mark() + n <= self.hi(),
        ensures
            r.0.wf(),
            r.0.saved() == self.saved(),
            r.1.at as nat == self.mark(),
            r.1.len == n,
            r.0.all() == self.all(),
            r.0.lo() == self.lo(),
            r.0.hi() == self.mark(),
            r.0.mark() == self.mark() + n,
    {
        proof {
            lemma_narrow(
                self.saved(),
                self.lo(),
                self.hi(),
                self.all().len(),
                self.lo(),
                self.mark(),
            );
        }
        let at: usize = self.pivot;
        (
            Cursor { buf: self.buf, lo: self.lo, hi: at, pivot: at + n, saved: self.saved },
            Region { at, len: n },
        )
    }

    /// Limits the window to its first `len` bytes.
    pub fn lim(self, len: usize) -> (r: Cursor)
        requires
            self.wf(),
            len <= self.hi() - self.lo(),
        ensures
            r.wf(),
            r.saved() == self.saved(),
            r.all() == self.all(),
            r.lo() == self.lo(),
            r.hi() == self.lo() + len,
            r.mark() == self.mark(),
    {
        proof {
            lemma_narrow(
                self.saved(),
                self.lo(),
                self.hi(),
                self.all().len(),
                self.lo(),
                (self.lo() + len) as nat,
            );
        }
        let hi: usize = self.lo + len;
        Cursor { buf: self.buf, lo: self.lo, hi, pivot: self.pivot, saved: self.saved }
    }

    /// Limits the window to `len` bytes less than it has.
    pub fn rlim(self, len: usize) -> (r: Cursor)
        requires
            self.wf(),
            len <= self.hi() - self.lo(),
        ensures
            r.wf(),
            r.saved() == self.saved(),
            r.all() == self.all(),
            r.lo() == self.lo(),
            r.hi() == self.hi() - len,
            r.mark() == self.mark(),
    {
        proof {
            lemma_narrow(
                self.saved(),
                self.lo(),
                self.hi(),
                self.all().len(),
                self.lo(),
                (self.hi() - len) as nat,
            );
        }
        let hi: usize = self.hi - len;
        Cursor { buf: self.buf, lo: self.lo, hi, pivot: self.pivot, saved: self.saved }
    }

    /// How many bytes lie between a pivot at index `pivot` of the window
    /// and the next multiple of `n`.
    pub open spec fn padding(pivot: nat, n: nat) -> nat {
        ((n - pivot % n) % (n as int)) as nat
    }

    /// Pads from the pivot to the nearest multiple of `n` from the start of
    /// the window with zeros, and moves the pivot behind them. A pivot that
    /// stands on a multiple of `n` is left where it is.
    pub fn pad_to(self, n: usize) -> (r: Cursor)
        requires
            self.wf(),
            n > 0,
            self.mark() + Self::padding((self.mark() - self.lo()) as nat, n as nat) <= self.hi(),
        ensures
            r.wf(),
            r.saved() == self.saved(),
            r.lo() == self.lo(),
            r.hi() == self.hi(),
            r.mark() == self.mark() + Self::padding((self.mark() - self.lo()) as nat, n as nat),
            (r.mark() - r.lo()) % (n as int) == 0,
            r.mark() - self.mark() < n,
            r.all() == overwrite(
                self.all(),
                self.mark() as int,
                Seq::new(Self::padding((self.mark() - self.lo()) as nat, n as nat), |i: int| 0u8),
            ),
    {
        let pivot: usize = self.pivot - self.lo;
        let rem: usize = (n - pivot % n) % n;
        let mut buf = self.buf;
        let ghost zeros = Seq::new(rem as nat, |i: int| 0u8);
        let mut i: usize = 0;
        while i < rem
            invariant
                0 <= i <= rem,
                self.pivot + rem <= self.hi <= buf@.len(),
                buf@.len() == self.all().len(),
                forall|k: int|
                    0 <= k < buf@.len() ==> buf@[k] == (if self.pivot <= k < self.pivot + i {
                        0u8
                    } else {
                        self.all()[k]
                    }),
            decreases rem - i,
        {
            buf[self.pivot + i] = 0;
            i = i + 1;
        }
        proof {
            assert(buf@ =~= overwrite(self.all(), self.pivot as int, zeros));
            assert((pivot + rem) % (n as int) == 0) by (nonlinear_arith)
                requires
                    n > 0,
                    rem == (n - pivot % n) % (n as int),
            ;
        }
        Cursor { buf, lo: self.lo, hi: self.hi, pivot: self.pivot + rem, saved: self.saved }
    }

    /// Fills in a record that was split off earlier.
    pub fn fill(self, region: Region, t: &[u8]) -> (r: Cursor)
        requires
            self.wf(),
            t@.len() == region.len,
            region.at + region.len <= self.all().len(),
        ensures
            r.wf(),
            r.saved() == self.saved(),
            r.all() == overwrite(self.all(), region.at as int, t@),
            r.lo() == self.lo(),
            r.hi() == self.hi(),
            r.mark() == self.mark(),
    {
        let mut buf = self.buf;
        write_at(&mut buf, region.at, t);
        Cursor { buf, lo: self.lo, hi: self.hi, pivot: self.pivot, saved: self.saved }
    }

    /// A cursor on the same window that shares the buffer and the pivot
    /// with this one: what is written through it is written to the same
    /// buffer, and a push through it moves the pivot of this cursor, whose
    /// window stays as it is and is come back to by `join`.
    pub fn fork(self) -> (r: Cursor)
        requires
            self.wf(),
        ensures
            r.wf(),
            r.all() == self.all(),
            r.lo() == self.lo(),
            r.hi() == self.hi(),
            r.mark() == self.mark(),
            r.saved().len() == self.saved().len() + 1,
            r.saved().drop_last() == self.saved(),
            r.saved().last().at as nat == self.lo(),
            r.saved().last().at + r.saved().last().len == self.hi(),
    {
        let mut saved: Vec<Region> = self.saved;
        saved.push(Region { at: self.lo, len: self.hi - self.lo });
        let r = Cursor { buf: self.buf, lo: self.lo, hi: self.hi, pivot: self.pivot, saved };
        proof {
            let old_saved = self.saved();
            let now = r.saved();
            assert(now.drop_last() =~= old_saved);
            assert forall|i: int| 0 <= i < now.len() implies (#[trigger] now[i]).at + now[i].len
                <= r.all().len() && now[i].holds(r.lo(), r.hi()) by {
                if i < old_saved.len() {
                    assert(now[i] == old_saved[i]);
                }
            }
            assert forall|i: int, j: int| 0 <= i < j < now.len() implies (#[trigger] now[i]).holds(
                (#[trigger] now[j]).at as nat,
                (now[j].at + now[j].len) as nat,
            ) by {
                assert(now[i] == old_saved[i]);
                if j < old_saved.len() {
                    assert(now[j] == old_saved[j]);
                }
            }
        }
        r
    }

    /// Ends a fork: the cursor that was forked stands on its own window
    /// again, over the buffer as the fork left it and with the pivot where
    /// the fork left it.
    pub fn join(self) -> (r: Cursor)
        requires
            self.wf(),
            self.saved().len() > 0,
        ensures
            r.wf(),
            r.all() == self.all(),
            r.lo() == self.saved().last().at,
            r.hi() == self.saved().last().at + self.saved().last().len,
            r.mark() == self.mark(),
            r.saved() == self.saved().drop_last(),
    {
        let mut saved: Vec<Region> = self.saved;
        let ghost before = saved@;
        let w: Region = saved.pop().unwrap();
        let r = Cursor { buf: self.buf, lo: w.at, hi: w.at + w.len, pivot: self.pivot, saved };
        proof {
            let now = r.saved();
            let last = before.len() - 1;
            assert(w == before[last]);
            assert(now =~= before.drop_last());
            assert forall|i: int| 0 <= i < now.len() implies (#[trigger] now[i]).at + now[i].len
                <= r.all().len() && now[i].holds(r.lo(), r.hi()) by {
                assert(now[i] == before[i]);
                assert(before[i].holds(
                    before[last].at as nat,
                    (before[last].at + before[last].len) as nat,
                ));
            }
            assert forall|i: int, j: int| 0 <= i < j < now.len() implies (#[trigger] now[i]).holds(
                (#[trigger] now[j]).at as nat,
                (now[j].at + now[j].len) as nat,
            ) by {
                assert(now[i] == before[i] && now[j] == before[j]);
            }
        }
        r
    }
}

} // verus!
