//! The error kinds that the stack reports.

use vstd::prelude::*;

verus! {

/// Why a packet was dropped or a call refused.
#[derive(Clone, Copy, Debug, PartialEq, Eq, Structural)]
pub enum Error {
    /// A length, tag or field of the packet is not what the wire format asks for.
    MalformedPacket,
    /// A handshake message carries a wrong MAC.
    MacErr,
    /// An authenticated ciphertext did not open.
    DecryptErr,
    /// The counter was received before.
    Replay,
    /// The counter lies behind the replay window.
    TooOld,
    /// No peer has the static key that a handshake claims.
    UnknownPeer,
    /// No socket is bound to the destination port.
    UnknownPort,
    /// The session is past its time or message limit.
    SessionExpired,
    /// The port is bound already.
    AddrInUse,
    /// The operating system reported a failure that is not transient.
    IoFatal,
}

/// A result that can be turned into an option while its error is handed
/// to a closure, which reports it.
pub trait Ext<T, E> {
    fn ok_or<F: FnOnce(E)>(self, f: F) -> (r: Option<T>)
        requires
            forall|e: E| f.requires((e,)),
    ;
}

impl<T, E> Ext<T, E> for Result<T, E> {
    fn ok_or<F: FnOnce(E)>(self, f: F) -> (r: Option<T>)
        ensures
            r == (match self {
                Ok(v) => Some(v),
                Err(_) => None::<T>,
            }),
            self matches Err(e) ==> f.ensures((e,), ()),
    {
        match self {
            Ok(v) => Some(v),
            Err(e) => {
                f(e);
                None
            },
        }
    }
}

/// An option that runs a closure where it holds nothing, which reports it.
pub trait ExtOpaque<T> {
    fn some_or<F: FnOnce()>(self, f: F) -> (r: Option<T>)
        requires
            f.requires(()),
    ;
}

impl<T> ExtOpaque<T> for Option<T> {
    fn some_or<F: FnOnce()>(self, f: F) -> (r: Option<T>)
        ensures
            r == self,
            self is None ==> f.ensures((), ()),
    {
        match &self {
            Some(_) => {},
            None => f(),
        }
        self
    }
}

} // verus!
