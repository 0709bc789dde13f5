//! RMTT wire codec: packet encode/decode for the RMTT wire format.
//!
//! A frame is one byte (packet type in the high nibble, flags in the low one),
//! the remaining length (base-128 digits, least significant first, the top bit
//! set on every digit but the last) and a body of that many bytes.

use crate::error::Error;
use crate::text;
use vstd::prelude::*;
use vstd::slice::*;
use vstd::string::*;
use vstd::utf8::*;

pub mod disconnect;
pub mod laws;
pub mod mtype;
pub mod returncode;

verus! {

/// Fixed magic number "czqu".
pub const MAGIC_NUMBER: u32 = 0x637A_7175;

pub const CONNECT_MAGIC_OFF: usize = 0;

pub const CONNECT_VER_OFF: usize = 4;

pub const CONNECT_FLAGS_OFF: usize = 5;

pub const CONNECT_KEEPALIVE_OFF: usize = 6;

pub const CONNECT_CRED_LEN_OFF: usize = 8;

pub const CONNECT_CRED_OFF: usize = 10;

/// Most bytes that a credential may have: its length is carried in 16 bits.
pub const MAX_CREDENTIAL: usize = 0xffff;

/// Most digits that a remaining length may have.
pub const MAX_LENGTH_DIGITS: usize = 4;

/// A decoded inbound packet.
#[derive(Debug, Clone, PartialEq, Eq)]
pub enum Packet {
    Connack { return_code: u8, server_keepalive: u16 },
    Push(Vec<u8>),
    Pingreq,
    Pingresp,
    Disconnect(u8),
}

/// The value of a [`Packet`].
#[verifier::ext_equal]
pub enum PacketView {
    Connack { return_code: u8, server_keepalive: u16 },
    Push(Seq<u8>),
    Pingreq,
    Pingresp,
    Disconnect(u8),
}

impl View for Packet {
    type V = PacketView;

    open spec fn view(&self) -> PacketView {
        match *self {
            Packet::Connack { return_code, server_keepalive } => PacketView::Connack {
                return_code,
                server_keepalive,
            },
            Packet::Push(payload) => PacketView::Push(payload@),
            Packet::Pingreq => PacketView::Pingreq,
            Packet::Pingresp => PacketView::Pingresp,
            Packet::Disconnect(code) => PacketView::Disconnect(code),
        }
    }
}

/// The two bytes of `value`, most significant first.
pub open spec fn be16(value: u16) -> Seq<u8> {
    seq![(value / 256) as u8, (value % 256) as u8]
}

/// The four bytes of `value`, most significant first.
pub open spec fn be32(value: u32) -> Seq<u8> {
    seq![
        (value / 0x100_0000) as u8,
        (value / 0x1_0000 % 256) as u8,
        (value / 0x100 % 256) as u8,
        (value % 256) as u8,
    ]
}

/// The remaining-length field of a body of `length` bytes.
pub open spec fn length_digits(length: nat) -> Seq<u8>
    decreases length,
{
    if length < 128 {
        seq![length as u8]
    } else {
        seq![(length % 128 + 128) as u8] + length_digits(length / 128)
    }
}

/// The frame of a packet of type `msg_type` with the given body.
pub open spec fn frame(msg_type: u8, body: Seq<u8>) -> Seq<u8> {
    seq![(msg_type * 16) as u8] + length_digits(body.len()) + body
}

/// The body of a CONNECT packet:
/// `U32(magic) | U8(ver) | U8(flags) | U16(keepalive) | String(credential)`,
/// where a string is its length in bytes as a U16 and then those bytes.
pub open spec fn connect_body(protocol_version: u8, keepalive: u16, credential: Seq<u8>) -> Seq<
    u8,
>
    recommends
        credential.len() <= MAX_CREDENTIAL,
{
    be32(MAGIC_NUMBER) + seq![protocol_version, 0x00u8] + be16(keepalive) + be16(
        credential.len() as u16,
    ) + credential
}

/// The CONNECT frame.
pub open spec fn connect_frame(
    protocol_version: u8,
    keepalive: u16,
    credential: Seq<char>,
) -> Seq<u8> {
    frame(mtype::CONNECT, connect_body(protocol_version, keepalive, encode_utf8(credential)))
}

/// The PUSH frame: the reserved byte 0x00 and the payload.
pub open spec fn push_frame(payload: Seq<u8>) -> Seq<u8> {
    frame(mtype::PUSH, seq![0x00u8] + payload)
}

/// The PINGREQ frame.
pub open spec fn pingreq_frame() -> Seq<u8> {
    frame(mtype::PINGREQ, seq![])
}

/// The DISCONNECT frame with the given return code.
pub open spec fn disconnect_frame(return_code: u8) -> Seq<u8> {
    frame(mtype::DISCONNECT, seq![return_code])
}

/// What stands where a remaining length is expected.
pub enum LengthField {
    /// The bytes end before the last digit.
    Partial,
    /// There are more digits than allowed.
    Malformed,
    /// A length, written in `width` bytes.
    Value { length: nat, width: nat },
}

/// Reads a remaining length of at most `budget` digits off the front of `bytes`.
pub open spec fn length_field(bytes: Seq<u8>, budget: nat) -> LengthField
    decreases budget,
{
    if budget == 0 {
        LengthField::Malformed
    } else if bytes.len() == 0 {
        LengthField::Partial
    } else if bytes[0] < 128 {
        LengthField::Value { length: bytes[0] as nat, width: 1 }
    } else {
        match length_field(bytes.skip(1), (budget - 1) as nat) {
            LengthField::Value { length, width } => LengthField::Value {
                length: (bytes[0] - 128 + 128 * length) as nat,
                width: width + 1,
            },
            other => other,
        }
    }
}

/// The packet of type `msg_type` with the given body, or what is wrong with it.
pub open spec fn packet_of(msg_type: u8, body: Seq<u8>) -> Result<PacketView, Seq<char>> {
    if msg_type == mtype::CONNACK {
        if body.len() < 3 {
            Err("CONNACK body too short"@)
        } else {
            Ok(
                PacketView::Connack {
                    return_code: body[0],
                    server_keepalive: (body[1] * 256 + body[2]) as u16,
                },
            )
        }
    } else if msg_type == mtype::PUSH {
        if body.len() == 0 {
            Err("PUSH body missing reserved byte"@)
        } else {
            Ok(PacketView::Push(body.skip(1)))
        }
    } else if msg_type == mtype::PINGREQ {
        Ok(PacketView::Pingreq)
    } else if msg_type == mtype::PINGRESP {
        Ok(PacketView::Pingresp)
    } else if msg_type == mtype::DISCONNECT {
        if body.len() == 0 {
            Err("DISCONNECT body too short"@)
        } else {
            Ok(PacketView::Disconnect(body[0]))
        }
    } else {
        Err("unsupported packet type "@ + text::hex_byte(msg_type))
    }
}

/// What a buffer holds at its front.
#[verifier::ext_equal]
pub enum Decoded {
    /// Not yet a whole frame.
    Partial,
    /// Bytes that violate the wire format, and how.
    Violation(Seq<char>),
    /// A packet, in a frame of `consumed` bytes.
    Complete { packet: PacketView, consumed: nat },
}

/// Reads one frame off the front of `buf`.
pub open spec fn decoded(buf: Seq<u8>) -> Decoded {
    if buf.len() == 0 {
        Decoded::Partial
    } else if buf[0] % 16 != 0 {
        Decoded::Violation("non-zero fixed header flags "@ + text::hex_byte(buf[0] % 16))
    } else {
        match length_field(buf.skip(1), MAX_LENGTH_DIGITS as nat) {
            LengthField::Partial => Decoded::Partial,
            LengthField::Malformed => Decoded::Violation("malformed remaining length"@),
            LengthField::Value { length, width } => {
                let start = 1 + width;
                if buf.len() < start + length {
                    Decoded::Partial
                } else {
                    let body = buf.subrange(start as int, (start + length) as int);
                    match packet_of(buf[0] / 16, body) {
                        Ok(packet) => Decoded::Complete { packet, consumed: start + length },
                        Err(reason) => Decoded::Violation(reason),
                    }
                }
            },
        }
    }
}

/// Appends the two bytes of `value`, most significant first.
fn append_be16(out: &mut Vec<u8>, value: u16)
    ensures
        final(out)@ == old(out)@ + be16(value),
{
    out.push((value / 256) as u8);
    out.push((value % 256) as u8);
}

/// Appends the four bytes of `value`, most significant first.
fn append_be32(out: &mut Vec<u8>, value: u32)
    ensures
        final(out)@ == old(out)@ + be32(value),
{
    out.push((value / 0x100_0000) as u8);
    out.push((value / 0x1_0000 % 256) as u8);
    out.push((value / 0x100 % 256) as u8);
    out.push((value % 256) as u8);
}

/// Encode the fixed header (type flags + remaining length).
fn encode_fixed_header(msg_type: u8, remaining: u128) -> (out: Vec<u8>)
    ensures
        out@ == seq![msg_type << 4] + length_digits(remaining as nat),
{
    let mut out: Vec<u8> = Vec::with_capacity(5);
    out.push(msg_type << 4);
    let mut len: u128 = remaining;
    while len >= 128
        invariant
            out@ + length_digits(len as nat) == seq![msg_type << 4] + length_digits(
                remaining as nat,
            ),
        decreases len,
    {
        let ghost before = out@;
        let digit: u8 = (len % 128) as u8 + 128;
        out.push(digit);
        assert(before + length_digits(len as nat) =~= out@ + length_digits((len / 128) as nat));
        len = len / 128;
    }
    out.push(len as u8);
    out
}

/// Build a CONNECT packet.
///
/// Body: `U32(magic) | U8(ver) | U8(flags) | U16(keepalive) | String(credential)`.
/// The credential's length has to fit its field.
pub fn encode_connect(protocol_version: u8, keepalive: u16, credential: &str) -> (out: Vec<u8>)
    requires
        encode_utf8(credential@).len() <= MAX_CREDENTIAL,
    ensures
        out@ == connect_frame(protocol_version, keepalive, credential@),
{
    let cred = credential.as_bytes();
    let body_len: u128 = 10 + cred.len() as u128;
    let mut out = encode_fixed_header(mtype::CONNECT, body_len);
    append_be32(&mut out, MAGIC_NUMBER);
    out.push(protocol_version);
    out.push(0x00);  // flags, reserved
    append_be16(&mut out, keepalive);
    append_be16(&mut out, cred.len() as u16);
    out.extend_from_slice(cred);
    assert(mtype::CONNECT << 4 == 16) by (bit_vector);
    assert(out@ =~= connect_frame(protocol_version, keepalive, credential@));
    out
}

/// Build a PUSH packet (reserved byte 0x00 + payload).
pub fn encode_push(payload: &[u8]) -> (out: Vec<u8>)
    ensures
        out@ == push_frame(payload@),
{
    let mut out = encode_fixed_header(mtype::PUSH, 1 + payload.len() as u128);
    out.push(0x00);
    out.extend_from_slice(payload);
    assert(mtype::PUSH << 4 == 48) by (bit_vector);
    assert(out@ =~= push_frame(payload@));
    out
}

/// Build a PINGREQ packet (no body).
pub fn encode_pingreq() -> (out: Vec<u8>)
    ensures
        out@ == pingreq_frame(),
{
    let out = encode_fixed_header(mtype::PINGREQ, 0);
    assert(mtype::PINGREQ << 4 == 80) by (bit_vector);
    assert(out@ =~= pingreq_frame());
    out
}

/// Build a DISCONNECT packet with the given return code.
pub fn encode_disconnect(return_code: u8) -> (out: Vec<u8>)
    ensures
        out@ == disconnect_frame(return_code),
{
    let mut out = encode_fixed_header(mtype::DISCONNECT, 1);
    out.push(return_code);
    assert(mtype::DISCONNECT << 4 == 224) by (bit_vector);
    assert(out@ =~= disconnect_frame(return_code));
    out
}

/// `multiplier` is 128 to the power of `digits`, for fewer digits than a
/// remaining length may have.
spec fn digit_weight(multiplier: int, digits: int) -> bool {
    ||| digits == 0 && multiplier == 1
    ||| digits == 1 && multiplier == 0x80
    ||| digits == 2 && multiplier == 0x4000
    ||| digits == 3 && multiplier == 0x20_0000
}

/// A field that `digits` digits worth `low` stand before.
spec fn behind_digits(field: LengthField, low: int, multiplier: int, digits: int) -> LengthField {
    match field {
        LengthField::Value { length, width } => LengthField::Value {
            length: (low + multiplier * length) as nat,
            width: (digits + width) as nat,
        },
        other => other,
    }
}

/// Reads the remaining length that follows the first byte of `buf`: its value
/// and the index behind its last digit, or `None` where more bytes are needed.
fn read_remaining_length(buf: &[u8]) -> (field: Result<Option<(usize, usize)>, Error>)
    requires
        buf@.len() > 0,
    ensures
        match field {
            Ok(Some((length, end))) => length_field(buf@.skip(1), MAX_LENGTH_DIGITS as nat)
                == (LengthField::Value { length: length as nat, width: (end - 1) as nat })
                && length < 0x1000_0000 && 2 <= end <= 5,
            Ok(None) => length_field(buf@.skip(1), MAX_LENGTH_DIGITS as nat)
                == LengthField::Partial,
            Err(error) => length_field(buf@.skip(1), MAX_LENGTH_DIGITS as nat)
                == LengthField::Malformed && (error matches Error::Protocol(reason) && reason@
                == "malformed remaining length"@),
        },
{
    let mut remaining: usize = 0;
    let mut multiplier: usize = 1;
    let mut idx: usize = 1;
    let mut digits: usize = 0;
    while digits < MAX_LENGTH_DIGITS
        invariant
            digits <= MAX_LENGTH_DIGITS,
            buf@.len() > 0,
            idx == digits + 1,
            idx <= buf@.len(),
            digits < MAX_LENGTH_DIGITS ==> digit_weight(multiplier as int, digits as int)
                && remaining < multiplier,
            digits < MAX_LENGTH_DIGITS ==> length_field(buf@.skip(1), MAX_LENGTH_DIGITS as nat)
                == behind_digits(
                length_field(buf@.skip(idx as int), (MAX_LENGTH_DIGITS - digits) as nat),
                remaining as int,
                multiplier as int,
                digits as int,
            ),
            digits == MAX_LENGTH_DIGITS ==> length_field(buf@.skip(1), MAX_LENGTH_DIGITS as nat)
                == LengthField::Malformed,
        decreases MAX_LENGTH_DIGITS - digits,
    {
        let ghost rest = buf@.skip(idx as int);
        if idx >= buf.len() {
            return Ok(None);
        }
        let digit: u8 = buf[idx];
        assert(digit == rest[0]);
        assert(rest.skip(1) =~= buf@.skip(idx + 1));
        assert(digit & 0x80 == 0 <==> digit < 128) by (bit_vector);
        assert(digit & 0x7f == digit % 128) by (bit_vector);
        let low: usize = (digit & 0x7f) as usize;
        idx = idx + 1;
        remaining = remaining + low * multiplier;
        if digit & 0x80 == 0 {
            return Ok(Some((remaining, idx)));
        }
        digits = digits + 1;
        if digits < MAX_LENGTH_DIGITS {
            multiplier = multiplier * 128;
        }
    }
    Err(Error::Protocol("malformed remaining length".to_owned()))
}

/// The error of a packet of a type that a client never receives.
fn unsupported_type(msg_type: u8) -> (error: Error)
    ensures
        error matches Error::Protocol(reason) && reason@ == "unsupported packet type "@
            + text::hex_byte(msg_type),
{
    let mut reason = "unsupported packet type ".to_owned();
    text::append_hex_byte(&mut reason, msg_type);
    Error::Protocol(reason)
}

/// Reads the packet of type `msg_type` out of its body.
fn decode_body(msg_type: u8, body: &[u8]) -> (packet: Result<Packet, Error>)
    ensures
        match packet {
            Ok(packet) => packet_of(msg_type, body@) == Ok::<PacketView, Seq<char>>(packet@),
            Err(error) => error matches Error::Protocol(reason) && packet_of(msg_type, body@)
                == Err::<PacketView, Seq<char>>(reason@),
        },
{
    if msg_type == mtype::CONNACK {
        if body.len() < 3 {
            return Err(Error::Protocol("CONNACK body too short".to_owned()));
        }
        let return_code: u8 = body[0];
        let server_keepalive: u16 = body[1] as u16 * 256 + body[2] as u16;
        Ok(Packet::Connack { return_code, server_keepalive })
    } else if msg_type == mtype::PUSH {
        if body.is_empty() {
            return Err(Error::Protocol("PUSH body missing reserved byte".to_owned()));
        }
        let payload = slice_to_vec(slice_subrange(body, 1, body.len()));
        assert(payload@ =~= body@.skip(1));
        Ok(Packet::Push(payload))
    } else if msg_type == mtype::PINGREQ {
        Ok(Packet::Pingreq)
    } else if msg_type == mtype::PINGRESP {
        Ok(Packet::Pingresp)
    } else if msg_type == mtype::DISCONNECT {
        if body.is_empty() {
            return Err(Error::Protocol("DISCONNECT body too short".to_owned()));
        }
        Ok(Packet::Disconnect(body[0]))
    } else {
        Err(unsupported_type(msg_type))
    }
}

/// Attempt to decode a single complete packet from the buffer.
///
/// Returns `Ok(Some((packet, consumed)))` when a full frame is present,
/// `Ok(None)` when more bytes are needed (read more into `buf` and retry),
/// or `Err` on a wire/format violation.
pub fn decode(buf: &[u8]) -> (result: Result<Option<(Packet, usize)>, Error>)
    ensures
        match result {
            Ok(Some((packet, consumed))) => decoded(buf@) == (Decoded::Complete {
                packet: packet@,
                consumed: consumed as nat,
            }),
            Ok(None) => decoded(buf@) == Decoded::Partial,
            Err(error) => error matches Error::Protocol(reason) && decoded(buf@)
                == Decoded::Violation(reason@),
        },
{
    if buf.is_empty() {
        return Ok(None);
    }
    let first: u8 = buf[0];
    let msg_type: u8 = first >> 4;
    let flags: u8 = first & 0x0f;
    assert(first >> 4 == first / 16) by (bit_vector);
    assert(first & 0x0f == first % 16) by (bit_vector);
    if flags != 0x00 {
        let mut reason = "non-zero fixed header flags ".to_owned();
        text::append_hex_byte(&mut reason, flags);
        return Err(Error::Protocol(reason));
    }
    let (remaining, start): (usize, usize) = match read_remaining_length(buf) {
        Ok(Some(field)) => field,
        Ok(None) => {
            return Ok(None);
        },
        Err(error) => {
            return Err(error);
        },
    };
    if buf.len() < start + remaining {
        return Ok(None);
    }
    let consumed: usize = start + remaining;
    let body = slice_subrange(buf, start, consumed);
    match decode_body(msg_type, body) {
        Ok(packet) => Ok(Some((packet, consumed))),
        Err(error) => Err(error),
    }
}

/// A reconnect decision derived from a server DISCONNECT return code.
#[derive(Debug, Clone, Copy, PartialEq, Eq, Structural)]
pub enum ReconnectPolicy {
    /// Normal disconnect: do not reconnect unless user requests.
    DoNotReconnect,
    /// Refresh the credential and reconnect.
    RefreshCredential,
    /// Exponential backoff + jitter.
    Backoff,
    /// Backoff with a large base (e.g. RateLimited).
    LongBackoff,
    /// Immediate reconnect.
    Immediately,
}

/// Map a server DISCONNECT return code to the recommended client action.
pub fn reconnect_policy(rc: u8) -> (policy: ReconnectPolicy)
    ensures
        policy == ReconnectPolicy::DoNotReconnect <==> rc == disconnect::NORMAL || rc
            == disconnect::SESSION_TAKEN_OVER || rc == disconnect::KICKED_BY_ADMIN,
        policy == ReconnectPolicy::RefreshCredential <==> rc == disconnect::CREDENTIAL_EXPIRED,
        policy == ReconnectPolicy::LongBackoff <==> rc == disconnect::RATE_LIMITED,
        policy == ReconnectPolicy::Immediately <==> rc == disconnect::KEEPALIVE_TIMEOUT,
        rc == disconnect::SERVER_SHUTDOWN || rc == disconnect::PROTOCOL_VIOLATION || rc
            == disconnect::CREDENTIAL_REJECTED || rc > disconnect::CREDENTIAL_REJECTED ==> policy
            == ReconnectPolicy::Backoff,
        policy == match rc {
            0x00 | 0x02 | 0x06 => ReconnectPolicy::DoNotReconnect,
            0x01 => ReconnectPolicy::RefreshCredential,
            0x05 => ReconnectPolicy::Immediately,
            0x07 => ReconnectPolicy::LongBackoff,
            _ => ReconnectPolicy::Backoff,
        },
{
    if rc == disconnect::NORMAL || rc == disconnect::SESSION_TAKEN_OVER || rc
        == disconnect::KICKED_BY_ADMIN {
        ReconnectPolicy::DoNotReconnect
    } else if rc == disconnect::CREDENTIAL_EXPIRED {
        ReconnectPolicy::RefreshCredential
    } else if rc == disconnect::KEEPALIVE_TIMEOUT {
        ReconnectPolicy::Immediately
    } else if rc == disconnect::RATE_LIMITED {
        ReconnectPolicy::LongBackoff
    } else {
        ReconnectPolicy::Backoff
    }
}

} // verus!
