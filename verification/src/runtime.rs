//! The decisions of the event loop: how long to wait, what a system call's
//! return value means, what to do with a descriptor that is ready, and
//! what stands in the write queue of a descriptor. The loop itself, which
//! polls, reads and sends, is run by the program around this library.

use std::collections::VecDeque;
use vstd::prelude::*;

use crate::bytes::Slice;
use crate::error::Error;
use crate::utils::bytes::deep;

verus! {

/// The largest datagram that is read at once.
pub const MTU: usize = 1500;

/// A millisecond, in nanoseconds.
pub const MILLISECOND: u64 = 1_000_000;

/// The timeout for `poll`, in milliseconds, that stands for the wait `t`
/// in nanoseconds: forever, written -1, where no wait is given, and that
/// only; a wait that does not fit is cut to the longest that does, so that
/// a timer that is set always bounds the wait.
pub open spec fn as_timeout_spec(t: Option<u64>) -> i32 {
    match t {
        Some(d) => if d / MILLISECOND <= i32::MAX {
            (d / MILLISECOND) as i32
        } else {
            i32::MAX
        },
        None => -1i32,
    }
}

/// The timeout for `poll` that stands for the wait `t`.
pub fn as_timeout(t: Option<u64>) -> (r: i32)
    ensures
        r == as_timeout_spec(t),
        t is Some ==> 0 <= r,
        t is None ==> r == -1,
{
    match t {
        Some(d) => {
            let ms: u64 = d / MILLISECOND;
            if ms <= 0x7FFF_FFFF {
                ms as i32
            } else {
                0x7FFF_FFFF
            }
        },
        None => -1,
    }
}

/// What the return value `val` of a system call means: so many bytes
/// were moved; or nothing was, because the call would block, which is no
/// error; or the call failed for good.
pub fn ret_to_err(val: isize, would_block: bool) -> (r: Result<Option<usize>, Error>)
    ensures
        r == (if val >= 0 {
            Ok::<Option<usize>, Error>(Some(val as usize))
        } else if would_block {
            Ok::<Option<usize>, Error>(None)
        } else {
            Err::<Option<usize>, Error>(Error::IoFatal)
        }),
{
    if val >= 0 {
        Ok(Some(val as usize))
    } else if would_block {
        Ok(None)
    } else {
        Err(Error::IoFatal)
    }
}

/// What the return value `val` of sending `len` bytes means: the datagram
/// is out, or it has to wait because the call would block. A datagram of
/// which only a part went out is a failure.
pub fn send(val: isize, would_block: bool, len: usize) -> (r: Result<bool, Error>)
    ensures
        r == (if val >= 0 {
            if val == len {
                Ok::<bool, Error>(true)
            } else {
                Err::<bool, Error>(Error::IoFatal)
            }
        } else if would_block {
            Ok::<bool, Error>(false)
        } else {
            Err::<bool, Error>(Error::IoFatal)
        }),
{
    match ret_to_err(val, would_block) {
        Err(e) => Err(e),
        Ok(None) => Ok(false),
        Ok(Some(n)) => if n != len {
            Err(Error::IoFatal)
        } else {
            Ok(true)
        },
    }
}

/// What the return value `val` of receiving into `buf` means: a datagram
/// has arrived, and `buf` is cut to its length, or none is there because
/// the call would block. A length beyond the buffer is a failure.
pub fn recv(val: isize, would_block: bool, buf: &mut Slice) -> (r: Result<bool, Error>)
    ensures
        r == (if val >= 0 {
            if val <= old(buf)@.len() {
                Ok::<bool, Error>(true)
            } else {
                Err::<bool, Error>(Error::IoFatal)
            }
        } else if would_block {
            Ok::<bool, Error>(false)
        } else {
            Err::<bool, Error>(Error::IoFatal)
        }),
        final(buf)@ == (if 0 <= val <= old(buf)@.len() {
            old(buf)@.take(val as int)
        } else {
            old(buf)@
        }),
{
    match ret_to_err(val, would_block) {
        Err(e) => Err(e),
        Ok(None) => Ok(false),
        Ok(Some(n)) => if n > buf.len() {
            Err(Error::IoFatal)
        } else {
            buf.truncate(n);
            Ok(true)
        },
    }
}

/// What `poll` reports of a descriptor.
#[derive(Clone, Copy, Debug, PartialEq, Eq, Structural)]
pub struct Ready {
    pub readable: bool,
    pub writable: bool,
    pub error: bool,
    pub hangup: bool,
    pub invalid: bool,
}

/// What a descriptor is polled for.
#[derive(Clone, Copy, Debug, PartialEq, Eq, Structural)]
pub struct Interest {
    pub read: bool,
    pub write: bool,
}

/// What is to be done with a descriptor that is ready.
#[derive(Clone, Copy, Debug, PartialEq, Eq, Structural)]
pub struct Tasks {
    /// Receive until the call would block.
    pub read: bool,
    /// Send what stands in the write queue until the call would block.
    pub write: bool,
}

/// The state of one descriptor: the datagrams that wait to be sent.
pub struct Entry {
    queue: VecDeque<Vec<u8>>,
}

impl View for Entry {
    type V = Seq<Seq<u8>>;

    /// The datagrams that wait, the one that goes out first at the front.
    closed spec fn view(&self) -> Seq<Seq<u8>> {
        deep(self.queue@)
    }
}

impl Entry {
    /// A descriptor with nothing to send.
    pub fn new() -> (e: Entry)
        ensures
            e@ == Seq::<Seq<u8>>::empty(),
    {
        let e = Entry { queue: VecDeque::new() };
        assert(e@ =~= Seq::<Seq<u8>>::empty());
        e
    }

    /// What the descriptor is polled for: always for reading, and for
    /// writing while a datagram waits.
    pub fn interest(&self) -> (i: Interest)
        ensures
            i == (Interest { read: true, write: self@.len() > 0 }),
    {
        Interest { read: true, write: self.queue.len() > 0 }
    }

    /// What is to be done now that `poll` reports `ready`. A descriptor in
    /// error, hung up or invalid is not served.
    pub fn serve(&self, ready: Ready) -> (t: Tasks)
        requires
            !ready.error && !ready.hangup && !ready.invalid,
        ensures
            t == (Tasks { read: ready.readable, write: ready.writable && self@.len() > 0 }),
    {
        Tasks { read: ready.readable, write: ready.writable && self.queue.len() > 0 }
    }

    /// A datagram could not be sent at once: it waits behind those that
    /// wait already.
    pub fn enqueue(&mut self, datagram: Vec<u8>)
        ensures
            final(self)@ == old(self)@.push(datagram@),
    {
        self.queue.push_back(datagram);
        assert(self@ =~= old(self)@.push(datagram@));
    }

    /// The datagram that goes out next, if any waits.
    pub fn front(&self) -> (r: Option<&[u8]>)
        ensures
            match r {
                Some(d) => self@.len() > 0 && d@ == self@[0],
                None => self@.len() == 0,
            },
    {
        if self.queue.len() > 0 {
            Some(self.queue[0].as_slice())
        } else {
            None
        }
    }

    /// The datagram at the front is out: the next moves up.
    pub fn advance(&mut self)
        requires
            old(self)@.len() > 0,
        ensures
            final(self)@ == old(self)@.skip(1),
    {
        let _ = self.queue.pop_front();
        assert(self@ =~= old(self)@.skip(1));
    }
}

/// What the loop does next.
#[derive(Clone, Copy, Debug, PartialEq, Eq, Structural)]
pub enum Step {
    /// An exit was asked for: run the exit closure and what it deferred,
    /// and leave.
    Shutdown,
    /// Nothing is left to wait for: leave.
    Done,
    /// Poll the descriptors for this long; forever where no wait is given.
    Poll { timeout: Option<u64> },
}

/// What the loop does next: leave in order where an exit was asked for;
/// poll without waiting where deferred work is pending, else until the
/// next timer is due, else forever, unless no descriptor is registered,
/// in which case nothing is left to wait for.
pub open spec fn plan_spec(exit: bool, idle_pending: bool, next_wait: Option<u64>, is_io: bool) -> Step {
    if exit {
        Step::Shutdown
    } else if idle_pending {
        Step::Poll { timeout: Some(0) }
    } else if next_wait is None && !is_io {
        Step::Done
    } else {
        Step::Poll { timeout: next_wait }
    }
}

/// What the loop does next.
pub fn plan(exit: bool, idle_pending: bool, next_wait: Option<u64>, is_io: bool) -> (s: Step)
    ensures
        s == plan_spec(exit, idle_pending, next_wait, is_io),
{
    if exit {
        Step::Shutdown
    } else if idle_pending {
        Step::Poll { timeout: Some(0) }
    } else if next_wait.is_none() && !is_io {
        Step::Done
    } else {
        Step::Poll { timeout: next_wait }
    }
}

/// What follows a poll.
#[derive(Clone, Copy, Debug, PartialEq, Eq, Structural)]
pub struct Next {
    /// Ask for an exit: the poll failed.
    pub exit: bool,
    /// Run the idle queue with the timers and the deferred work: nothing
    /// was ready after a poll that was made for the sake of idle work.
    pub idle: bool,
}

/// What follows a poll that reported `polled`: whether any descriptor was
/// ready, or a failure.
pub fn after_poll(polled: Result<bool, Error>, idle_pending: bool) -> (n: Next)
    ensures
        n == (match polled {
            Ok(ready) => Next { exit: false, idle: idle_pending && !ready },
            Err(_) => Next { exit: true, idle: false },
        }),
{
    match polled {
        Ok(ready) => Next { exit: false, idle: idle_pending && !ready },
        Err(_) => Next { exit: true, idle: false },
    }
}

/// What the return value of `poll` means: whether any descriptor is
/// ready, or a failure.
pub fn polled(ret: i32) -> (r: Result<bool, Error>)
    ensures
        r == (if ret < 0 {
            Err::<bool, Error>(Error::IoFatal)
        } else {
            Ok::<bool, Error>(ret > 0)
        }),
{
    if ret < 0 {
        Err(Error::IoFatal)
    } else {
        Ok(ret > 0)
    }
}

/// The time of day that lies `since_start` nanoseconds after the time of
/// day `start`, both in nanoseconds since the start of 1970: the time of
/// day as the monotonic clock has it.
pub fn system(start: u64, since_start: u64) -> (t: u64)
    ensures
        t == crate::wireguard::timers::after_spec(start, since_start),
{
    crate::wireguard::timers::after(start, since_start)
}

/// The time of day `t`, in nanoseconds since the start of 1970, in whole
/// seconds; `None` where they do not fit 32 bits.
pub fn unix(t: u64) -> (r: Option<u32>)
    ensures
        r == (if t / 1_000_000_000 <= u32::MAX {
            Some((t / 1_000_000_000) as u32)
        } else {
            None::<u32>
        }),
{
    let secs: u64 = t / 1_000_000_000;
    if secs <= 0xFFFF_FFFF {
        Some(secs as u32)
    } else {
        None
    }
}

} // verus!
