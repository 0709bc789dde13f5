//! Laws of the wire format.

use crate::codec;
use crate::codec::{disconnect, mtype, returncode};
use crate::codec::{
    CONNECT_CRED_LEN_OFF, CONNECT_CRED_OFF, CONNECT_FLAGS_OFF, CONNECT_KEEPALIVE_OFF,
    CONNECT_MAGIC_OFF, CONNECT_VER_OFF, MAGIC_NUMBER, MAX_CREDENTIAL,
    MAX_LENGTH_DIGITS,
};
use crate::text;
use vstd::arithmetic::div_mod::*;
use vstd::arithmetic::power::*;
use vstd::prelude::*;
use vstd::utf8::*;

verus! {

/// One more than the largest body length that a frame can carry.
pub const LENGTH_LIMIT: u32 = 0x1000_0000;

/// How many lengths `budget` digits can write.
spec fn lengths_within(budget: nat) -> nat
    decreases budget,
{
    if budget == 0 {
        1
    } else {
        128 * lengths_within((budget - 1) as nat)
    }
}

proof fn lemma_length_limit()
    ensures
        lengths_within(MAX_LENGTH_DIGITS as nat) == LENGTH_LIMIT,
{
    reveal_with_fuel(lengths_within, 5);
}

proof fn lemma_length_field_of_digits(length: nat, rest: Seq<u8>, budget: nat)
    requires
        budget > 0,
    ensures
        codec::length_field(codec::length_digits(length) + rest, budget) == if length < lengths_within(budget) {
            codec::LengthField::Value { length, width: codec::length_digits(length).len() }
        } else {
            codec::LengthField::Malformed
        },
    decreases budget,
{
    let bytes = codec::length_digits(length) + rest;
    let below = (budget - 1) as nat;
    if length < 128 {
        assert(bytes[0] == length);
        lemma_lengths_within_positive(below);
    } else {
        assert(bytes.skip(1) =~= codec::length_digits(length / 128) + rest);
        if budget > 1 {
            lemma_length_field_of_digits(length / 128, rest, below);
        }
    }
}

proof fn lemma_lengths_within_positive(budget: nat)
    ensures
        lengths_within(budget) >= 1,
    decreases budget,
{
    if budget > 0 {
        lemma_lengths_within_positive((budget - 1) as nat);
    }
}

/// A length field is left unchanged by what follows it.
proof fn lemma_length_field_extends(bytes: Seq<u8>, more: Seq<u8>, budget: nat)
    ensures
        codec::length_field(bytes, budget) !is Partial ==> codec::length_field(bytes + more, budget)
            == codec::length_field(bytes, budget),
        codec::length_field(bytes, budget) matches codec::LengthField::Value { width, .. } ==> 1 <= width
            <= bytes.len(),
    decreases budget,
{
    if budget > 0 && bytes.len() > 0 {
        assert((bytes + more).skip(1) =~= bytes.skip(1) + more);
        lemma_length_field_extends(bytes.skip(1), more, (budget - 1) as nat);
    }
}

/// The first `width` bytes decide a length field; fewer leave it open.
proof fn lemma_length_field_prefix(bytes: Seq<u8>, kept: nat, budget: nat)
    requires
        kept <= bytes.len(),
        codec::length_field(bytes, budget) is Value,
    ensures
        codec::length_field(bytes.take(kept as int), budget) == if kept < codec::length_field(
            bytes,
            budget,
        )->width {
            codec::LengthField::Partial
        } else {
            codec::length_field(bytes, budget)
        },
    decreases budget,
{
    if kept > 0 && bytes[0] >= 128 {
        assert(bytes.take(kept as int).skip(1) =~= bytes.skip(1).take(kept - 1));
        lemma_length_field_prefix(bytes.skip(1), (kept - 1) as nat, (budget - 1) as nat);
    }
}

/// Reading a remaining length gives back what writing it wrote, whatever
/// follows, for every length that a frame can carry.
pub proof fn law_length_roundtrip(length: nat, rest: Seq<u8>)
    requires
        length < LENGTH_LIMIT,
    ensures
        codec::length_field(codec::length_digits(length) + rest, MAX_LENGTH_DIGITS as nat)
            == (codec::LengthField::Value { length, width: codec::length_digits(length).len() }),
{
    lemma_length_limit();
    lemma_length_field_of_digits(length, rest, MAX_LENGTH_DIGITS as nat);
}

/// A frame decodes to its packet and is consumed whole, whatever follows it in
/// the buffer.
pub proof fn law_frame_decodes(msg_type: u8, body: Seq<u8>, rest: Seq<u8>)
    requires
        msg_type < 16,
        body.len() < LENGTH_LIMIT,
    ensures
        codec::decoded(codec::frame(msg_type, body) + rest) == match codec::packet_of(msg_type, body) {
            Ok(packet) => codec::Decoded::Complete { packet, consumed: codec::frame(msg_type, body).len() },
            Err(reason) => codec::Decoded::Violation(reason),
        },
{
    let buf = codec::frame(msg_type, body) + rest;
    let digits = codec::length_digits(body.len());
    assert(buf.skip(1) =~= digits + (body + rest));
    law_length_roundtrip(body.len(), body + rest);
    assert(buf.subrange((1 + digits.len()) as int, (1 + digits.len() + body.len()) as int) =~= body);
}

/// A frame that is not yet whole asks for more bytes.
pub proof fn law_partial_frame_is_partial(msg_type: u8, body: Seq<u8>, kept: nat)
    requires
        msg_type < 16,
        body.len() < LENGTH_LIMIT,
        kept < codec::frame(msg_type, body).len(),
    ensures
        codec::decoded(codec::frame(msg_type, body).take(kept as int)) == codec::Decoded::Partial,
{
    let whole = codec::frame(msg_type, body);
    let digits = codec::length_digits(body.len());
    if kept > 0 {
        assert(whole.skip(1) =~= digits + body);
        law_length_roundtrip(body.len(), body);
        lemma_length_field_prefix(whole.skip(1), (kept - 1) as nat, MAX_LENGTH_DIGITS as nat);
        assert(whole.take(kept as int).skip(1) =~= whole.skip(1).take(kept - 1));
    }
}

/// A body that is too long for the length field is refused by `decode`,
/// whatever its packet type.
pub proof fn law_oversized_frame_is_refused(msg_type: u8, body: Seq<u8>, rest: Seq<u8>)
    requires
        msg_type < 16,
        body.len() >= LENGTH_LIMIT,
    ensures
        codec::decoded(codec::frame(msg_type, body) + rest) == codec::Decoded::Violation(
            "malformed remaining length"@,
        ),
{
    let buf = codec::frame(msg_type, body) + rest;
    assert(buf.skip(1) =~= codec::length_digits(body.len()) + (body + rest));
    lemma_length_limit();
    lemma_length_field_of_digits(body.len(), body + rest, MAX_LENGTH_DIGITS as nat);
}

/// `decode` gives back the payload that `encode_push` wrote.
pub proof fn law_push_roundtrip(payload: Seq<u8>, rest: Seq<u8>)
    requires
        payload.len() + 1 < LENGTH_LIMIT,
    ensures
        codec::decoded(codec::push_frame(payload) + rest) == (codec::Decoded::Complete {
            packet: codec::PacketView::Push(payload),
            consumed: codec::push_frame(payload).len(),
        }),
{
    law_reserved_byte_is_ignored(0x00, payload, rest);
}

/// The reserved byte of a PUSH is opaque: whatever it holds, the payload is
/// what stands behind it.
pub proof fn law_reserved_byte_is_ignored(reserved: u8, payload: Seq<u8>, rest: Seq<u8>)
    requires
        payload.len() + 1 < LENGTH_LIMIT,
    ensures
        codec::decoded(codec::frame(mtype::PUSH, seq![reserved] + payload) + rest) == (codec::Decoded::Complete {
            packet: codec::PacketView::Push(payload),
            consumed: codec::frame(mtype::PUSH, seq![reserved] + payload).len(),
        }),
{
    let body = seq![reserved] + payload;
    law_frame_decodes(mtype::PUSH, body, rest);
    assert(body.skip(1) =~= payload);
}

/// `decode` gives back the PINGREQ that `encode_pingreq` wrote.
pub proof fn law_pingreq_roundtrip(rest: Seq<u8>)
    ensures
        codec::decoded(codec::pingreq_frame() + rest) == (codec::Decoded::Complete {
            packet: codec::PacketView::Pingreq,
            consumed: 2,
        }),
{
    law_frame_decodes(mtype::PINGREQ, seq![], rest);
}

/// `decode` gives back the return code that `encode_disconnect` wrote.
pub proof fn law_disconnect_roundtrip(return_code: u8, rest: Seq<u8>)
    ensures
        codec::decoded(codec::disconnect_frame(return_code) + rest) == (codec::Decoded::Complete {
            packet: codec::PacketView::Disconnect(return_code),
            consumed: 3,
        }),
{
    law_frame_decodes(mtype::DISCONNECT, seq![return_code], rest);
}

/// A CONNACK carries its return code and keepalive.
pub proof fn law_connack_decodes(return_code: u8, server_keepalive: u16, rest: Seq<u8>)
    ensures
        codec::decoded(codec::frame(mtype::CONNACK, seq![return_code] + codec::be16(server_keepalive)) + rest) == (
        codec::Decoded::Complete {
            packet: codec::PacketView::Connack { return_code, server_keepalive },
            consumed: 5,
        }),
{
    law_frame_decodes(mtype::CONNACK, seq![return_code] + codec::be16(server_keepalive), rest);
}

/// CONNECT travels to the server only: `decode` does not take it.
pub proof fn law_connect_is_not_inbound(
    protocol_version: u8,
    keepalive: u16,
    credential: Seq<char>,
    rest: Seq<u8>,
)
    requires
        encode_utf8(credential).len() <= MAX_CREDENTIAL,
    ensures
        codec::decoded(codec::connect_frame(protocol_version, keepalive, credential) + rest)
            == codec::Decoded::Violation("unsupported packet type "@ + text::hex_byte(mtype::CONNECT)),
{
    law_frame_decodes(
        mtype::CONNECT,
        codec::connect_body(protocol_version, keepalive, encode_utf8(credential)),
        rest,
    );
}

/// Every field of a CONNECT body stands at its offset, and the length field
/// counts the credential's bytes, which are the rest of the body.
pub proof fn law_connect_layout(protocol_version: u8, keepalive: u16, credential: Seq<u8>)
    requires
        credential.len() <= MAX_CREDENTIAL,
    ensures
        ({
            let body = codec::connect_body(protocol_version, keepalive, credential);
            &&& body.len() == CONNECT_CRED_OFF + credential.len()
            &&& body.subrange(CONNECT_MAGIC_OFF as int, CONNECT_VER_OFF as int) == codec::be32(
                MAGIC_NUMBER,
            )
            &&& body[CONNECT_VER_OFF as int] == protocol_version
            &&& body[CONNECT_FLAGS_OFF as int] == 0
            &&& body.subrange(CONNECT_KEEPALIVE_OFF as int, CONNECT_CRED_LEN_OFF as int) == codec::be16(
                keepalive,
            )
            &&& body[CONNECT_CRED_LEN_OFF as int] * 256 + body[CONNECT_CRED_LEN_OFF + 1]
                == credential.len()
            &&& body.skip(CONNECT_CRED_OFF as int) == credential
        }),
{
    let body = codec::connect_body(protocol_version, keepalive, credential);
    assert(body.subrange(CONNECT_MAGIC_OFF as int, CONNECT_VER_OFF as int) =~= codec::be32(MAGIC_NUMBER));
    assert(body.subrange(CONNECT_KEEPALIVE_OFF as int, CONNECT_CRED_LEN_OFF as int) =~= codec::be16(
        keepalive,
    ));
    assert(body.subrange(CONNECT_CRED_LEN_OFF as int, CONNECT_CRED_OFF as int) =~= codec::be16(
        credential.len() as u16,
    ));
    assert(codec::be16(credential.len() as u16)[0] == body[CONNECT_CRED_LEN_OFF as int]);
    assert(codec::be16(credential.len() as u16)[1] == body[CONNECT_CRED_LEN_OFF + 1]);
    assert(body.skip(CONNECT_CRED_OFF as int) =~= credential);
}

/// What `decode` finds at the front of a buffer does not change when more bytes
/// arrive.
pub proof fn law_more_bytes_change_nothing(buf: Seq<u8>, more: Seq<u8>)
    requires
        codec::decoded(buf) !is Partial,
    ensures
        codec::decoded(buf + more) == codec::decoded(buf),
{
    assert((buf + more).skip(1) =~= buf.skip(1) + more);
    lemma_length_field_extends(buf.skip(1), more, MAX_LENGTH_DIGITS as nat);
    if let codec::LengthField::Value { length, width } = codec::length_field(
        buf.skip(1),
        MAX_LENGTH_DIGITS as nat,
    ) {
        if buf.len() >= 1 + width + length {
            assert((buf + more).subrange((1 + width) as int, (1 + width + length) as int)
                =~= buf.subrange((1 + width) as int, (1 + width + length) as int));
        }
    }
}

/// A decoded frame has at least its two header bytes and ends inside the
/// buffer, so that a caller can walk a stream by the consumed lengths.
pub proof fn law_consumed_is_within_buffer(buf: Seq<u8>)
    requires
        codec::decoded(buf) is Complete,
    ensures
        2 <= codec::decoded(buf)->consumed <= buf.len(),
{
    lemma_length_field_extends(buf.skip(1), seq![], MAX_LENGTH_DIGITS as nat);
}

/// The bytes of a decoded frame suffice for it: cut behind its end the buffer
/// decodes the same, cut before its end it is partial.
pub proof fn law_frame_boundary(buf: Seq<u8>, kept: nat)
    requires
        codec::decoded(buf) is Complete,
        kept <= buf.len(),
    ensures
        codec::decoded(buf.take(kept as int)) == if kept < codec::decoded(buf)->consumed {
            codec::Decoded::Partial
        } else {
            codec::decoded(buf)
        },
{
    let cut = buf.take(kept as int);
    law_consumed_is_within_buffer(buf);
    if kept > 0 {
        lemma_length_field_prefix(buf.skip(1), (kept - 1) as nat, MAX_LENGTH_DIGITS as nat);
        assert(cut.skip(1) =~= buf.skip(1).take(kept - 1));
        if kept >= codec::decoded(buf)->consumed {
            assert(buf =~= cut + buf.skip(kept as int));
            if let codec::LengthField::Value { length, width } = codec::length_field(
                buf.skip(1),
                MAX_LENGTH_DIGITS as nat,
            ) {
                assert(cut.subrange((1 + width) as int, (1 + width + length) as int)
                    =~= buf.subrange((1 + width) as int, (1 + width + length) as int));
            }
        }
    }
}

/// A remaining length is a number in base 128, least significant digit first:
/// the digit at place `i` is `length / 128^i` modulo 128, with 128 added on every
/// digit but the last. There are as many digits as the number needs.
pub proof fn law_length_digits_are_base_128(length: nat, place: nat)
    ensures
        ({
            let digits = codec::length_digits(length);
            &&& 0 < digits.len()
            &&& length < pow(128, digits.len())
            &&& digits.len() > 1 ==> length >= pow(128, (digits.len() - 1) as nat)
            &&& place < digits.len() ==> digits[place as int] == length as int / pow(128, place)
                % 128 + if place + 1 < digits.len() {
                128int
            } else {
                0
            }
        }),
    decreases length,
{
    let digits = codec::length_digits(length);
    reveal(pow);
    lemma_pow0(128);
    lemma_pow1(128);
    if length >= 128 {
        let high = length / 128;
        let higher = codec::length_digits(high);
        law_length_digits_are_base_128(high, 0);
        let width = higher.len();
        assert(digits.len() == width + 1);
        assert(pow(128, width + 1) == 128 * pow(128, width));
        assert(width > 1 ==> pow(128, width) == 128 * pow(128, (width - 1) as nat));
        if 0 < place && place < digits.len() {
            let below = (place - 1) as nat;
            law_length_digits_are_base_128(high, below);
            assert(digits[place as int] == higher[below as int]);
            lemma_pow_positive(128, below);
            assert(pow(128, place) == 128 * pow(128, below));
            lemma_div_denominator(length as int, 128, pow(128, below));
        }
    }
}

/// Reads a remaining length as the sum of its digits, each modulo 128 and times
/// 128 to the power of its place. The first digit below 128 is the last one. With
/// fewer than four digits and no last one, more bytes are needed; four digits
/// without a last one are malformed.
pub proof fn law_length_field_is_a_sum(bytes: Seq<u8>)
    ensures
        ({
            let field = codec::length_field(bytes, 4);
            let more = |i: int| i < bytes.len() && bytes[i] >= 128;
            let last = |i: int| i < bytes.len() && bytes[i] < 128;
            &&& last(0) ==> field == (codec::LengthField::Value {
                length: bytes[0] as nat,
                width: 1,
            })
            &&& more(0) && last(1) ==> field == (codec::LengthField::Value {
                length: (bytes[0] % 128 + bytes[1] * 0x80) as nat,
                width: 2,
            })
            &&& more(0) && more(1) && last(2) ==> field == (codec::LengthField::Value {
                length: (bytes[0] % 128 + bytes[1] % 128 * 0x80 + bytes[2] * 0x4000) as nat,
                width: 3,
            })
            &&& more(0) && more(1) && more(2) && last(3) ==> field == (codec::LengthField::Value {
                length: (bytes[0] % 128 + bytes[1] % 128 * 0x80 + bytes[2] % 128 * 0x4000 + bytes[3]
                    * 0x20_0000) as nat,
                width: 4,
            })
            &&& more(0) && more(1) && more(2) && more(3) ==> field == codec::LengthField::Malformed
            &&& (bytes.len() < 4 && forall|i: int| 0 <= i < bytes.len() ==> bytes[i] >= 128)
                ==> field == codec::LengthField::Partial
        }),
{
    reveal_with_fuel(codec::length_field, 5);
    assert(bytes.len() > 1 ==> bytes.skip(1)[0] == bytes[1]);
    assert(bytes.len() > 2 ==> bytes.skip(1).skip(1)[0] == bytes[2]);
    assert(bytes.len() > 3 ==> bytes.skip(1).skip(1).skip(1)[0] == bytes[3]);
    if bytes.len() < 4 && forall|i: int| 0 <= i < bytes.len() ==> bytes[i] >= 128 {
        assert(bytes.len() > 0 ==> bytes[0] >= 128);
        assert(bytes.len() > 1 ==> bytes[1] >= 128);
        assert(bytes.len() > 2 ==> bytes[2] >= 128);
    }
}

/// `digits` is a remaining length of `length`: one to four bytes, the top bit set
/// on every one but the last, seven bits each, least significant first.
pub open spec fn writes_length(digits: Seq<u8>, length: nat) -> bool {
    ||| digits.len() == 1 && digits[0] < 128 && length == digits[0]
    ||| digits.len() == 2 && digits[0] >= 128 && digits[1] < 128 && length == digits[0] - 128
        + digits[1] * 0x80
    ||| digits.len() == 3 && digits[0] >= 128 && digits[1] >= 128 && digits[2] < 128 && length
        == digits[0] - 128 + (digits[1] - 128) * 0x80 + digits[2] * 0x4000
    ||| digits.len() == 4 && digits[0] >= 128 && digits[1] >= 128 && digits[2] >= 128 && digits[3]
        < 128 && length == digits[0] - 128 + (digits[1] - 128) * 0x80 + (digits[2] - 128) * 0x4000
        + digits[3] * 0x20_0000
}

/// What bytes on the wire mean: the packet type in the high nibble of the first
/// byte, then the remaining length, then a body of that many bytes, then whatever
/// comes next. All of the frame, and nothing else, is consumed.
pub proof fn law_wire_frame_decodes(first: u8, digits: Seq<u8>, body: Seq<u8>, rest: Seq<u8>)
    requires
        first % 16 == 0,
        writes_length(digits, body.len()),
    ensures
        ({
            let found = codec::decoded(seq![first] + digits + body + rest);
            let consumed = 1 + digits.len() + body.len();
            &&& first == 0x20 && body.len() >= 3 ==> (found matches codec::Decoded::Complete {
                packet: codec::PacketView::Connack { return_code, server_keepalive },
                consumed: size,
            } && return_code == body[0] && server_keepalive == body[1] * 256 + body[2] && size
                == consumed)
            &&& first == 0x20 && body.len() < 3 ==> found == codec::Decoded::Violation(
                "CONNACK body too short"@,
            )
            &&& first == 0x30 && body.len() >= 1 ==> found == (codec::Decoded::Complete {
                packet: codec::PacketView::Push(body.subrange(1, body.len() as int)),
                consumed,
            })
            &&& first == 0x30 && body.len() == 0 ==> found == codec::Decoded::Violation(
                "PUSH body missing reserved byte"@,
            )
            &&& first == 0x50 ==> found == (codec::Decoded::Complete {
                packet: codec::PacketView::Pingreq,
                consumed,
            })
            &&& first == 0x60 ==> found == (codec::Decoded::Complete {
                packet: codec::PacketView::Pingresp,
                consumed,
            })
            &&& first == 0xe0 && body.len() >= 1 ==> found == (codec::Decoded::Complete {
                packet: codec::PacketView::Disconnect(body[0]),
                consumed,
            })
            &&& first == 0xe0 && body.len() == 0 ==> found == codec::Decoded::Violation(
                "DISCONNECT body too short"@,
            )
            &&& first != 0x20 && first != 0x30 && first != 0x50 && first != 0x60 && first != 0xe0
                ==> found == codec::Decoded::Violation(
                "unsupported packet type "@ + text::hex_byte(first / 16),
            )
        }),
{
    let buf = seq![first] + digits + body + rest;
    let field = buf.skip(1);
    law_length_field_is_a_sum(field);
    assert(field.len() >= digits.len());
    assert(field[0] == digits[0]);
    assert(digits.len() > 1 ==> field[1] == digits[1]);
    assert(digits.len() > 2 ==> field[2] == digits[2]);
    assert(digits.len() > 3 ==> field[3] == digits[3]);
    assert(codec::length_field(field, 4) == (codec::LengthField::Value {
        length: body.len(),
        width: digits.len(),
    }));
    assert(buf.subrange(
        (1 + digits.len()) as int,
        (1 + digits.len() + body.len()) as int,
    ) =~= body);
    assert(body.len() >= 1 ==> body.skip(1) =~= body.subrange(1, body.len() as int));
}

/// A frame on the wire that is cut off anywhere asks for more bytes.
pub proof fn law_wire_frame_needs_all_its_bytes(
    first: u8,
    digits: Seq<u8>,
    body: Seq<u8>,
    kept: nat,
)
    requires
        first % 16 == 0,
        writes_length(digits, body.len()),
        kept < 1 + digits.len() + body.len(),
    ensures
        codec::decoded((seq![first] + digits + body).take(kept as int)) == codec::Decoded::Partial,
{
    let cut = (seq![first] + digits + body).take(kept as int);
    if kept > 0 {
        let field = cut.skip(1);
        law_length_field_is_a_sum(field);
        assert(field.len() > 0 ==> field[0] == digits[0]);
        assert(field.len() > 1 && digits.len() > 1 ==> field[1] == digits[1]);
        assert(field.len() > 2 && digits.len() > 2 ==> field[2] == digits[2]);
        assert(field.len() > 3 && digits.len() > 3 ==> field[3] == digits[3]);
        if kept <= digits.len() {
            assert forall|i: int| 0 <= i < field.len() implies field[i] >= 128 by {
                assert(field[i] == digits[i]);
            }
        }
    }
}

/// What can never become a frame is refused at once: flags in the low nibble of
/// the first byte, whatever follows; else four length bytes with the top bit set.
pub proof fn law_hopeless_bytes_are_refused(buf: Seq<u8>)
    ensures
        buf.len() > 0 && buf[0] % 16 != 0 ==> codec::decoded(buf) == codec::Decoded::Violation(
            "non-zero fixed header flags "@ + text::hex_byte(buf[0] % 16),
        ),
        buf.len() > 4 && buf[0] % 16 == 0 && buf[1] >= 128 && buf[2] >= 128 && buf[3] >= 128
            && buf[4] >= 128 ==> codec::decoded(buf) == codec::Decoded::Violation(
            "malformed remaining length"@,
        ),
{
    law_length_field_is_a_sum(buf.skip(1));
}

/// The bytes of every frame that a client writes. A CONNECT carries the magic
/// number, the given version, no flags, the given keepalive, the length of the
/// given credential and all its bytes.
pub proof fn law_frames_on_the_wire(
    protocol_version: u8,
    keepalive: u16,
    credential: Seq<char>,
    payload: Seq<u8>,
    return_code: u8,
)
    ensures
        encode_utf8(credential).len() <= 0xffff ==> ({
            let bytes = encode_utf8(credential);
            let head = seq![
                0x63u8,
                0x7au8,
                0x71u8,
                0x75u8,
                protocol_version,
                0u8,
                (keepalive / 256) as u8,
                (keepalive % 256) as u8,
                (bytes.len() / 256) as u8,
                (bytes.len() % 256) as u8,
            ];
            codec::connect_frame(protocol_version, keepalive, credential) == seq![0x10u8]
                + codec::length_digits(bytes.len() + 10) + head + bytes
        }),
        codec::push_frame(payload) == seq![0x30u8] + codec::length_digits(payload.len() + 1)
            + seq![0u8] + payload,
        codec::pingreq_frame() == seq![0x50u8, 0u8],
        codec::disconnect_frame(return_code) == seq![0xe0u8, 1u8, return_code],
{
    let bytes = encode_utf8(credential);
    assert(codec::push_frame(payload) =~= seq![0x30u8] + codec::length_digits(payload.len() + 1)
        + seq![0u8] + payload);
    assert(codec::pingreq_frame() =~= seq![0x50u8, 0u8]);
    assert(codec::disconnect_frame(return_code) =~= seq![0xe0u8, 1u8, return_code]);
    if bytes.len() <= 0xffff {
        let head = seq![
            0x63u8,
            0x7au8,
            0x71u8,
            0x75u8,
            protocol_version,
            0u8,
            (keepalive / 256) as u8,
            (keepalive % 256) as u8,
            (bytes.len() / 256) as u8,
            (bytes.len() % 256) as u8,
        ];
        let body = codec::connect_body(protocol_version, keepalive, bytes);
        assert(codec::be32(MAGIC_NUMBER) =~= seq![0x63u8, 0x7au8, 0x71u8, 0x75u8]);
        assert(body =~= head + bytes);
        assert(codec::connect_frame(protocol_version, keepalive, credential) =~= seq![0x10u8]
            + codec::length_digits(bytes.len() + 10) + head + bytes);
    }
}

/// Two CONNECT frames are the same only if version, keepalive and credential are:
/// the server gets what was given.
pub proof fn law_connect_frame_tells_its_arguments(
    protocol_version: u8,
    keepalive: u16,
    credential: Seq<char>,
    other_version: u8,
    other_keepalive: u16,
    other_credential: Seq<char>,
)
    requires
        encode_utf8(credential).len() <= 0xffff,
        encode_utf8(other_credential).len() <= 0xffff,
        codec::connect_frame(protocol_version, keepalive, credential) == codec::connect_frame(
            other_version,
            other_keepalive,
            other_credential,
        ),
    ensures
        protocol_version == other_version,
        keepalive == other_keepalive,
        encode_utf8(credential) == encode_utf8(other_credential),
{
    let a = encode_utf8(credential);
    let b = encode_utf8(other_credential);
    let frame = codec::connect_frame(protocol_version, keepalive, credential);
    law_frames_on_the_wire(protocol_version, keepalive, credential, seq![], 0);
    law_frames_on_the_wire(other_version, other_keepalive, other_credential, seq![], 0);
    let da = codec::length_digits(a.len() + 10);
    let db = codec::length_digits(b.len() + 10);
    let (ta, tb) = (frame.skip(1 + da.len() as int), frame.skip(1 + db.len() as int));
    law_length_roundtrip(a.len() + 10, ta);
    law_length_roundtrip(b.len() + 10, tb);
    assert(frame.skip(1) =~= da + ta);
    assert(frame.skip(1) =~= db + tb);
    assert(ta == tb);
    assert(ta[4] == protocol_version && tb[4] == other_version);
    assert(ta[6] == (keepalive / 256) as u8 && tb[6] == (other_keepalive / 256) as u8);
    assert(ta[7] == (keepalive % 256) as u8 && tb[7] == (other_keepalive % 256) as u8);
    assert(ta.skip(10) =~= a);
    assert(tb.skip(10) =~= b);
}

/// The value of a packet has all its fields, as they are.
pub proof fn law_packet_value_keeps_its_fields(packet: codec::Packet)
    ensures
        match packet {
            codec::Packet::Connack { return_code: code, server_keepalive: keepalive } => packet@ == (
            codec::PacketView::Connack { return_code: code, server_keepalive: keepalive }),
            codec::Packet::Push(payload) => packet@ matches codec::PacketView::Push(bytes)
                && bytes.len() == payload.len() && forall|i: int|
                0 <= i < bytes.len() ==> bytes[i] == payload[i],
            codec::Packet::Pingreq => packet@ is Pingreq,
            codec::Packet::Pingresp => packet@ is Pingresp,
            codec::Packet::Disconnect(code) => packet@ == codec::PacketView::Disconnect(code),
        },
{
}

/// The codes that both ends of a link have to agree on.
pub proof fn law_codes_are_as_assigned()
    ensures
        mtype::CONNECT == 1,
        mtype::CONNACK == 2,
        mtype::PUSH == 3,
        mtype::PINGREQ == 5,
        mtype::PINGRESP == 6,
        mtype::DISCONNECT == 14,
        returncode::ACCEPTED == 0,
        returncode::BAD_PROTOCOL_VERSION == 1,
        returncode::SERVER_UNAVAILABLE == 2,
        returncode::NOT_AUTHORISED == 3,
        returncode::NETWORK_ERROR == 0xfe,
        returncode::UNSUPPORTED == 0xff,
        disconnect::NORMAL == 0,
        disconnect::CREDENTIAL_EXPIRED == 1,
        disconnect::SESSION_TAKEN_OVER == 2,
        disconnect::SERVER_SHUTDOWN == 3,
        disconnect::PROTOCOL_VIOLATION == 4,
        disconnect::KEEPALIVE_TIMEOUT == 5,
        disconnect::KICKED_BY_ADMIN == 6,
        disconnect::RATE_LIMITED == 7,
        disconnect::CREDENTIAL_REJECTED == 8,
        disconnect::UNKNOWN == 0xfe,
{
}

} // verus!
