//! CONNACK return codes.

use vstd::prelude::*;

verus! {

pub const ACCEPTED: u8 = 0x00;

pub const BAD_PROTOCOL_VERSION: u8 = 0x01;

pub const SERVER_UNAVAILABLE: u8 = 0x02;

pub const NOT_AUTHORISED: u8 = 0x03;

pub const NETWORK_ERROR: u8 = 0xfe;

pub const UNSUPPORTED: u8 = 0xff;

} // verus!
