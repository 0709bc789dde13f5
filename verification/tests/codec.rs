use rmtt::codec::{
    decode, disconnect, encode_connect, encode_disconnect, encode_pingreq, encode_push, mtype,
    reconnect_policy, Packet, ReconnectPolicy, CONNECT_CRED_LEN_OFF, CONNECT_CRED_OFF,
    CONNECT_FLAGS_OFF, CONNECT_KEEPALIVE_OFF, CONNECT_MAGIC_OFF, CONNECT_VER_OFF, MAGIC_NUMBER,
    MAX_CREDENTIAL,
};
use rmtt::Error;

fn violation(buf: &[u8]) -> String {
    match decode(buf) {
        Err(Error::Protocol(reason)) => reason,
        other => panic!("expected a protocol violation, got {other:?}"),
    }
}

#[test]
fn connect_roundtrip_shape() {
    let pkt = encode_connect(1, 30, "credential");
    assert_eq!(pkt[0], mtype::CONNECT << 4);
    // body len = 4+1+1+2+2 + 10 ("credential") = 20
    assert_eq!(pkt[1], 20);
    let _ = &pkt[..];
    assert_eq!(&pkt[2..6], &MAGIC_NUMBER.to_be_bytes());
    assert_eq!(pkt[6], 1);
    assert_eq!(pkt[7], 0);
    assert_eq!(&pkt[8..10], &30u16.to_be_bytes());
    assert_eq!(&pkt[10..12], &10u16.to_be_bytes());
    assert_eq!(&pkt[12..], b"credential");
}

#[test]
fn connack_decode() {
    // fixed header 0x20, remaining 3, body: rc=0, kp=30
    let buf = [0x20, 0x03, 0x00, 0x00, 0x1e];
    let (pkt, consumed) = decode(&buf).unwrap().unwrap();
    assert_eq!(consumed, 5);
    assert_eq!(pkt, Packet::Connack { return_code: 0, server_keepalive: 30 });
}

#[test]
fn push_decode_ignores_reserved() {
    // fixed header 0x30, remaining 1+3, body reserved=0 payload="abc"
    let buf = [0x30, 0x04, 0x00, b'a', b'b', b'c'];
    let (pkt, consumed) = decode(&buf).unwrap().unwrap();
    assert_eq!(consumed, 6);
    assert_eq!(pkt, Packet::Push(b"abc".to_vec()));
}

#[test]
fn pingreq_and_pingresp() {
    assert_eq!(decode(&[0x50, 0x00]).unwrap().unwrap().0, Packet::Pingreq);
    assert_eq!(decode(&[0x60, 0x00]).unwrap().unwrap().0, Packet::Pingresp);
}

#[test]
fn disconnect_decode() {
    let (pkt, _) = decode(&[0xe0, 0x01, 0x06]).unwrap().unwrap();
    assert_eq!(pkt, Packet::Disconnect(0x06));
}

#[test]
fn non_zero_flags_rejected() {
    // type=PUSH but flags=1 -> 0x31
    assert!(decode(&[0x31, 0x00]).is_err());
}

#[test]
fn partial_frame_returns_none() {
    // only half of a CONNACK frame
    assert_eq!(decode(&[0x20, 0x03, 0x00]).unwrap(), None);
}

#[test]
fn unknown_type_rejected() {
    // type=0 -> frame is just header+0
    assert!(decode(&[0x00, 0x00]).is_err());
}

#[test]
fn encoded_length_multibyte() {
    // payload of 200 bytes -> remaining 201 -> 0xC9 0x01
    let payload = vec![0u8; 200];
    let pkt = encode_push(&payload);
    assert_eq!(pkt[0], mtype::PUSH << 4);
    assert_eq!(pkt[1], 0xc9);
    assert_eq!(pkt[2], 0x01);
    let (back, _) = decode(&pkt).unwrap().unwrap();
    assert_eq!(back, Packet::Push(vec![0u8; 200]));
}

#[test]
fn encode_pingreq_shape() {
    assert_eq!(encode_pingreq(), vec![mtype::PINGREQ << 4, 0x00]);
}

#[test]
fn encode_disconnect_shape() {
    let pkt = encode_disconnect(disconnect::KICKED_BY_ADMIN);
    assert_eq!(pkt, vec![mtype::DISCONNECT << 4, 0x01, 0x06]);
}

#[test]
fn decode_empty_buffer_returns_none() {
    assert_eq!(decode(&[]).unwrap(), None);
}

#[test]
fn truncated_remaining_length_returns_none() {
    // header claims a multi-byte remaining length but only one digit byte present
    assert_eq!(decode(&[0x20, 0x80]).unwrap(), None);
}

#[test]
fn remaining_length_too_long_rejected() {
    // five continuation digits -> malformed remaining length
    let buf = [0x30, 0x80, 0x80, 0x80, 0x80, 0x80, 0x00];
    assert!(decode(&buf).is_err());
}

#[test]
fn connack_body_too_short_rejected() {
    assert!(decode(&[0x20, 0x02, 0x00, 0x00]).is_err());
}

#[test]
fn push_without_reserved_byte_rejected() {
    assert!(decode(&[0x30, 0x00]).is_err());
}

#[test]
fn disconnect_without_body_rejected() {
    assert!(decode(&[0xe0, 0x00]).is_err());
}

#[test]
fn push_nonzero_reserved_ignored() {
    // the reserved byte is opaque: any value is stripped from the payload
    let buf = [0x30, 0x04, 0x7f, b'a', b'b', b'c'];
    let (pkt, _) = decode(&buf).unwrap().unwrap();
    assert_eq!(pkt, Packet::Push(b"abc".to_vec()));
}

#[test]
fn multiple_packets_in_one_buffer() {
    // decode reports the consumed length so a caller can walk a stream
    let mut buf = encode_pingreq();
    buf.extend_from_slice(&encode_disconnect(disconnect::NORMAL));
    let (pkt, consumed) = decode(&buf).unwrap().unwrap();
    assert_eq!(pkt, Packet::Pingreq);
    assert_eq!(consumed, 2);
    let (pkt, consumed) = decode(&buf[consumed..]).unwrap().unwrap();
    assert_eq!(pkt, Packet::Disconnect(disconnect::NORMAL));
    assert_eq!(consumed, 3);
}

#[test]
fn reconnect_policy_mapping() {
    assert_eq!(reconnect_policy(disconnect::NORMAL), ReconnectPolicy::DoNotReconnect);
    assert_eq!(
        reconnect_policy(disconnect::CREDENTIAL_EXPIRED),
        ReconnectPolicy::RefreshCredential
    );
    assert_eq!(reconnect_policy(disconnect::SESSION_TAKEN_OVER), ReconnectPolicy::DoNotReconnect);
    assert_eq!(reconnect_policy(disconnect::KICKED_BY_ADMIN), ReconnectPolicy::DoNotReconnect);
    assert_eq!(reconnect_policy(disconnect::SERVER_SHUTDOWN), ReconnectPolicy::Backoff);
    assert_eq!(reconnect_policy(disconnect::PROTOCOL_VIOLATION), ReconnectPolicy::Backoff);
    assert_eq!(reconnect_policy(disconnect::KEEPALIVE_TIMEOUT), ReconnectPolicy::Immediately);
    assert_eq!(reconnect_policy(disconnect::RATE_LIMITED), ReconnectPolicy::LongBackoff);
    assert_eq!(reconnect_policy(disconnect::CREDENTIAL_REJECTED), ReconnectPolicy::Backoff);
}

#[test]
fn reconnect_policy_unknown_code_defaults_to_backoff() {
    assert_eq!(reconnect_policy(0x77), ReconnectPolicy::Backoff);
    assert_eq!(reconnect_policy(disconnect::UNKNOWN), ReconnectPolicy::Backoff);
}

#[test]
fn violations_say_what_is_wrong() {
    assert_eq!(violation(&[0x3b, 0x00]), "non-zero fixed header flags 0x0b");
    assert_eq!(violation(&[0x30, 0x80, 0x80, 0x80, 0x80]), "malformed remaining length");
    assert_eq!(violation(&[0x20, 0x02, 0x00, 0x00]), "CONNACK body too short");
    assert_eq!(violation(&[0x30, 0x00]), "PUSH body missing reserved byte");
    assert_eq!(violation(&[0xe0, 0x00]), "DISCONNECT body too short");
    assert_eq!(violation(&[0xf0, 0x00]), "unsupported packet type 0x0f");
}

#[test]
fn flags_are_judged_before_the_length() {
    assert_eq!(violation(&[0x01]), "non-zero fixed header flags 0x01");
}

#[test]
fn fourth_digit_must_be_the_last() {
    assert_eq!(decode(&[0x50, 0x80, 0x80, 0x80]).unwrap(), None);
    assert_eq!(decode(&[0x50, 0x80, 0x80, 0x80, 0x00]).unwrap(), Some((Packet::Pingreq, 5)));
}

#[test]
fn push_roundtrips_at_every_header_width() {
    for size in [0usize, 1, 126, 127, 16382, 16383, 2_097_150, 2_097_151] {
        let payload: Vec<u8> = (0..size).map(|i| (i % 251) as u8).collect();
        let mut buf = encode_push(&payload);
        let whole = buf.len();
        buf.extend_from_slice(&[0xff, 0xff]);
        assert_eq!(decode(&buf).unwrap(), Some((Packet::Push(payload), whole)));
    }
}

#[test]
fn frame_is_partial_until_its_last_byte() {
    let frame = encode_push(&[7u8; 200]);
    for kept in 0..frame.len() {
        assert_eq!(decode(&frame[..kept]).unwrap(), None);
    }
    assert!(decode(&frame).unwrap().is_some());
}

#[test]
fn connect_fields_stand_at_their_offsets() {
    let frame = encode_connect(1, 0x0102, "dev-001");
    let body = &frame[2..];
    assert_eq!(&body[CONNECT_MAGIC_OFF..CONNECT_VER_OFF], b"czqu");
    assert_eq!(body[CONNECT_VER_OFF], 1);
    assert_eq!(body[CONNECT_FLAGS_OFF], 0);
    assert_eq!(&body[CONNECT_KEEPALIVE_OFF..CONNECT_CRED_LEN_OFF], &[1, 2]);
    assert_eq!(&body[CONNECT_CRED_LEN_OFF..CONNECT_CRED_OFF], &[0, 7]);
    assert_eq!(&body[CONNECT_CRED_OFF..], b"dev-001");
}

#[test]
fn connect_counts_bytes_of_the_credential() {
    let frame = encode_connect(1, 0, "h\u{e9}llo");
    assert_eq!(frame[1], 16);
    assert_eq!(&frame[10..12], &[0, 6]);
    assert_eq!(&frame[12..], "h\u{e9}llo".as_bytes());
}

#[test]
fn longest_credential_fits_its_field() {
    let credential = "x".repeat(MAX_CREDENTIAL);
    let frame = encode_connect(1, 0, &credential);
    // remaining 65545 -> 0x89 0x80 0x04
    assert_eq!(&frame[1..4], &[0x89, 0x80, 0x04]);
    assert_eq!(&frame[12..14], &[0xff, 0xff]);
    assert_eq!(frame.len(), 4 + 10 + 65_535);
}

#[test]
fn connect_is_not_an_inbound_packet() {
    assert_eq!(violation(&encode_connect(1, 30, "dev-001")), "unsupported packet type 0x01");
}
