//! Packet type identifiers (fixed header high nibble).

use vstd::prelude::*;

verus! {

pub const CONNECT: u8 = 0x01;

pub const CONNACK: u8 = 0x02;

pub const PUSH: u8 = 0x03;

pub const PINGREQ: u8 = 0x05;

pub const PINGRESP: u8 = 0x06;

pub const DISCONNECT: u8 = 0x0e;

} // verus!
