//! The timer state of a peer: when to send a keepalive, when to start
//! another handshake, and when to give up on one. Times are nanoseconds on
//! a clock that never runs backwards.

use vstd::prelude::*;

use crate::crypto::random_below;

verus! {

/// A second, in nanoseconds.
pub const SECOND: u64 = 1_000_000_000;

/// A millisecond, in nanoseconds.
pub const MILLISECOND: u64 = 1_000_000;

/// How long to wait for the response to an initiation.
pub const REKEY_TIMEOUT: u64 = 5_000_000_000;

/// After how long a handshake that gets no response is given up.
pub const REKEY_ATTEMPT_TIME: u64 = 90_000_000_000;

/// After how long without sending a keepalive answers what was received.
pub const KEEPALIVE_TIMEOUT: u64 = 10_000_000_000;

/// The age of a session from which its initiator starts a new handshake.
pub const REKEY_AFTER_TIME: u64 = 120_000_000_000;

/// The age of a session from which it is no longer used.
pub const REJECT_AFTER_TIME: u64 = 180_000_000_000;

/// The jitter that is added to the wait for a response lies below this
/// many milliseconds.
pub const JITTER_MILLIS: u64 = 333;

/// The time that lies `d` after `now`; the end of time where that would be past it.
pub open spec fn after_spec(now: u64, d: u64) -> u64 {
    if now + d > u64::MAX {
        u64::MAX
    } else {
        (now + d) as u64
    }
}

/// How much time has passed at `now` since `since`; none where `since` is ahead.
pub open spec fn elapsed_spec(now: u64, since: u64) -> u64 {
    if now >= since {
        (now - since) as u64
    } else {
        0
    }
}

/// The later of two deadlines, where there is an earlier one at all.
pub open spec fn later_spec(held: Option<u64>, deadline: u64) -> u64 {
    match held {
        Some(d) => if d >= deadline {
            d
        } else {
            deadline
        },
        None => deadline,
    }
}

/// The time that lies `d` after `now`.
pub fn after(now: u64, d: u64) -> (t: u64)
    ensures
        t == after_spec(now, d),
{
    if d > u64::MAX - now {
        u64::MAX
    } else {
        now + d
    }
}

/// How much time has passed at `now` since `since`.
pub fn elapsed(now: u64, since: u64) -> (t: u64)
    ensures
        t == elapsed_spec(now, since),
{
    if now >= since {
        now - since
    } else {
        0
    }
}

/// A timer that has come due.
#[derive(Clone, Copy, Debug, PartialEq, Eq, Structural)]
pub enum Fired {
    /// Send an empty data message.
    Keepalive,
    /// Send a new initiation, unless the handshake is to be given up.
    Rekey,
}

/// The timer state for a peer.
#[derive(Clone, Copy, Debug, PartialEq, Eq, Structural)]
pub struct Timers {
    /// When a new initiation is due. This timer takes the latest of the
    /// deadlines that it is set to.
    pub rekey: Option<u64>,
    /// When a keepalive is due. This timer keeps the deadline that it was
    /// first set to.
    pub keepalive: Option<u64>,
    /// When the handshake that is under way was started.
    pub rekey_start: Option<u64>,
}

impl Timers {
    /// No timer is set and no handshake is under way.
    pub fn new() -> (t: Timers)
        ensures
            t == (Timers { rekey: None, keepalive: None, rekey_start: None }),
    {
        Timers { rekey: None, keepalive: None, rekey_start: None }
    }

    /// The state after a data message was sent at `now`.
    pub open spec fn sent_data(self, now: u64, is_keepalive: bool) -> Timers {
        Timers {
            keepalive: None,
            rekey: if is_keepalive {
                self.rekey
            } else {
                Some(later_spec(self.rekey, after_spec(now, 15_000_000_000)))
            },
            rekey_start: self.rekey_start,
        }
    }

    /// The state after a data message was received at `now`.
    pub open spec fn received_data(self, now: u64, is_keepalive: bool) -> Timers {
        Timers {
            rekey: None,
            keepalive: if is_keepalive || self.keepalive is Some {
                self.keepalive
            } else {
                Some(after_spec(now, KEEPALIVE_TIMEOUT))
            },
            rekey_start: self.rekey_start,
        }
    }

    /// The state after an initiation was sent at `now`.
    pub open spec fn sent_init(self, now: u64, jitter: u64) -> Timers {
        Timers {
            rekey: Some(later_spec(self.rekey, after_spec(now, after_spec(REKEY_TIMEOUT, jitter)))),
            keepalive: self.keepalive,
            rekey_start: if self.rekey_start is Some {
                self.rekey_start
            } else {
                Some(now)
            },
        }
    }

    /// The state after a response was received at `now`.
    pub open spec fn received_resp(self, now: u64) -> Timers {
        Timers {
            rekey: None,
            keepalive: if self.keepalive is Some {
                self.keepalive
            } else {
                Some(now)
            },
            rekey_start: None,
        }
    }

    /// Whether a handshake is under way.
    pub fn is_rekeying(&self) -> (b: bool)
        ensures
            b == self.rekey_start is Some,
    {
        self.rekey_start.is_some()
    }

    /// Whether the handshake under way has lasted `REKEY_ATTEMPT_TIME` at `now`.
    pub fn rekey_elapsed(&self, now: u64) -> (b: bool)
        ensures
            b == (self.rekey_start matches Some(t) && elapsed_spec(now, t) >= REKEY_ATTEMPT_TIME),
    {
        match self.rekey_start {
            Some(t) => elapsed(now, t) >= REKEY_ATTEMPT_TIME,
            None => false,
        }
    }

    /// Whether the keepalive timer, if set, is due no later than
    /// `KEEPALIVE_TIMEOUT` after `now`: it is, where it was set at `now`
    /// or earlier.
    pub open spec fn fresh(&self, now: u64) -> bool {
        self.keepalive matches Some(d) ==> d <= after_spec(now, KEEPALIVE_TIMEOUT)
    }

    /// Call when a data message was sent. The keepalive timer is cleared;
    /// a message that is no keepalive also sets the rekey timer, to
    /// `KEEPALIVE_TIMEOUT + REKEY_TIMEOUT` from `now`.
    pub fn send_data(&mut self, now: u64, is_keepalive: bool)
        ensures
            *final(self) == old(self).sent_data(now, is_keepalive),
    {
        if !is_keepalive {
            self.reset_rekey(now, KEEPALIVE_TIMEOUT + REKEY_TIMEOUT);
        }
        self.keepalive = None;
    }

    /// Call when a data message was received. The rekey timer is deleted;
    /// a message that is no keepalive also sets the keepalive timer, to
    /// `KEEPALIVE_TIMEOUT` from `now`, unless it is set already.
    pub fn recv_data(&mut self, now: u64, is_keepalive: bool)
        ensures
            *final(self) == old(self).received_data(now, is_keepalive),
            !is_keepalive ==> final(self).keepalive is Some,
            old(self).fresh(now) ==> final(self).fresh(now),
    {
        self.rekey = None;
        if !is_keepalive {
            self.reset_keepalive(now, KEEPALIVE_TIMEOUT);
        }
    }

    /// Call when an initiation was sent. The first of a handshake stamps
    /// its start; each sets the rekey timer, to `REKEY_TIMEOUT` and the
    /// jitter from `now`.
    pub fn send_init(&mut self, now: u64, jitter: u64)
        ensures
            *final(self) == old(self).sent_init(now, jitter),
    {
        if self.rekey_start.is_none() {
            self.rekey_start = Some(now);
        }
        self.reset_rekey(now, after(REKEY_TIMEOUT, jitter));
    }

    /// Call when a response was received. The handshake is over, the rekey
    /// timer is deleted, and the keepalive timer is set to fire at once,
    /// unless it is set already.
    pub fn recv_resp(&mut self, now: u64)
        ensures
            *final(self) == old(self).received_resp(now),
    {
        self.rekey_start = None;
        self.rekey = None;
        self.reset_keepalive(now, 0);
    }

    /// Call when a response was sent. Nothing changes.
    pub fn send_resp(&mut self, now: u64)
        ensures
            *final(self) == *old(self),
    {
    }

    /// Defer sending a keepalive until `duration` has passed, unless the
    /// timer is set already.
    pub fn reset_keepalive(&mut self, now: u64, duration: u64)
        ensures
            *final(self) == (Timers {
                keepalive: if old(self).keepalive is Some {
                    old(self).keepalive
                } else {
                    Some(after_spec(now, duration))
                },
                ..*old(self)
            }),
    {
        if self.keepalive.is_none() {
            self.keepalive = Some(after(now, duration));
        }
    }

    /// Defer rekeying until `duration` has passed; a later deadline that
    /// the timer holds already stands.
    pub fn reset_rekey(&mut self, now: u64, duration: u64)
        ensures
            *final(self) == (Timers {
                rekey: Some(later_spec(old(self).rekey, after_spec(now, duration))),
                ..*old(self)
            }),
    {
        let deadline: u64 = after(now, duration);
        self.rekey = match self.rekey {
            Some(d) => if d >= deadline {
                Some(d)
            } else {
                Some(deadline)
            },
            None => Some(deadline),
        };
    }

    /// Random jitter for the wait for a response: a whole number of
    /// milliseconds, fewer than 333, in nanoseconds. Which number is left
    /// to chance.
    pub fn jitter() -> (j: u64)
        ensures
            j < JITTER_MILLIS * MILLISECOND,
            j % MILLISECOND == 0,
            j / MILLISECOND < JITTER_MILLIS,
    {
        let millis: u64 = random_below(JITTER_MILLIS);
        let j: u64 = millis * MILLISECOND;
        assert(j % MILLISECOND == 0 && j / MILLISECOND == millis) by (nonlinear_arith)
            requires
                j == millis * MILLISECOND,
                MILLISECOND == 1_000_000,
        ;
        j
    }

    /// The timer that is due first, if any is set.
    pub open spec fn next_spec(&self) -> Option<(u64, Fired)> {
        match (self.keepalive, self.rekey) {
            (Some(k), Some(r)) => if k <= r {
                Some((k, Fired::Keepalive))
            } else {
                Some((r, Fired::Rekey))
            },
            (Some(k), None) => Some((k, Fired::Keepalive)),
            (None, Some(r)) => Some((r, Fired::Rekey)),
            (None, None) => None,
        }
    }

    /// When the next timer is due, if any is set.
    pub open spec fn deadline_spec(&self) -> Option<u64> {
        match self.next_spec() {
            Some(p) => Some(p.0),
            None => None,
        }
    }

    /// When the next timer is due, if any is set.
    pub fn next_deadline(&self) -> (r: Option<u64>)
        ensures
            r == self.deadline_spec(),
    {
        match (self.keepalive, self.rekey) {
            (Some(k), Some(r)) => if k <= r {
                Some(k)
            } else {
                Some(r)
            },
            (Some(k), None) => Some(k),
            (None, Some(r)) => Some(r),
            (None, None) => None,
        }
    }

    /// The timer that is taken at `now`, if any: the one that is due
    /// first, where it is due.
    pub open spec fn due_spec(&self, now: u64) -> Option<Fired> {
        match self.next_spec() {
            Some(p) => if p.0 <= now {
                Some(p.1)
            } else {
                None
            },
            None => None,
        }
    }

    /// Take the timer that is due at `now`, if any: the one with the
    /// earlier deadline first, the keepalive first of two that are due
    /// together. A timer that is taken is no longer set.
    pub fn poll(&mut self, now: u64) -> (r: Option<Fired>)
        ensures
            r == old(self).due_spec(now),
            *final(self) == (match r {
                Some(Fired::Keepalive) => Timers { keepalive: None, ..*old(self) },
                Some(Fired::Rekey) => Timers { rekey: None, ..*old(self) },
                None => *old(self),
            }),
    {
        let k_due: bool = match self.keepalive {
            Some(k) => k <= now,
            None => false,
        };
        let r_due: bool = match self.rekey {
            Some(r) => r <= now,
            None => false,
        };
        let k_first: bool = match (self.keepalive, self.rekey) {
            (Some(k), Some(r)) => k <= r,
            (Some(_), None) => true,
            _ => false,
        };
        if k_due && k_first {
            self.keepalive = None;
            Some(Fired::Keepalive)
        } else if r_due && !k_first {
            self.rekey = None;
            Some(Fired::Rekey)
        } else {
            None
        }
    }
}

/// After a data message that is no keepalive was received, a keepalive is
/// due within `KEEPALIVE_TIMEOUT` and no new initiation is due: the
/// keepalive timer is set, to no later than `KEEPALIVE_TIMEOUT` from `now`
/// where it was not set to anything later before, and the rekey timer is
/// not set.
pub proof fn law_receiving_arms_keepalive(t: Timers, now: u64)
    requires
        t.fresh(now),
    ensures
        ({
            let u = t.received_data(now, false);
            &&& u.keepalive matches Some(d)
            &&& d <= after_spec(now, KEEPALIVE_TIMEOUT)
            &&& u.rekey is None
            &&& u.next_spec() == Some((d, Fired::Keepalive))
        }),
{
}

/// Time that passes keeps the keepalive timer fresh.
pub proof fn law_fresh_is_kept(t: Timers, now: u64, later: u64)
    requires
        t.fresh(now),
        now <= later,
    ensures
        t.fresh(later),
{
}

} // verus!
