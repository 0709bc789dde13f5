//! The RMTT client's decisions: where to dial, how a handshake ends, what a
//! connected link does next, when to reconnect.
//!
//! Each is a function or a small machine on plain values; sockets, clocks and
//! threads are the caller's.

pub mod address;
pub mod handshake;
pub mod reconnect;
pub mod session;
pub mod tls;
