//! DISCONNECT return codes.

use vstd::prelude::*;

verus! {

pub const NORMAL: u8 = 0x00;

pub const CREDENTIAL_EXPIRED: u8 = 0x01;

pub const SESSION_TAKEN_OVER: u8 = 0x02;

pub const SERVER_SHUTDOWN: u8 = 0x03;

pub const PROTOCOL_VIOLATION: u8 = 0x04;

pub const KEEPALIVE_TIMEOUT: u8 = 0x05;

pub const KICKED_BY_ADMIN: u8 = 0x06;

pub const RATE_LIMITED: u8 = 0x07;

pub const CREDENTIAL_REJECTED: u8 = 0x08;

pub const UNKNOWN: u8 = 0xfe;

} // verus!
