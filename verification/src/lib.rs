//! A userspace network stack layered above a WireGuard tunnel: the protocol
//! core, free of I/O, with every rule stated as a contract and proved.

pub mod bytes;
pub mod crypto;
pub mod error;
pub mod map;
pub mod net;
pub mod runtime;
pub mod sparse;
pub mod utils;
pub mod wireguard;
