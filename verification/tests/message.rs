use rmtt::Message;

#[test]
fn payload_roundtrip() {
    let m = Message::new(vec![0xde, 0xad, 0xbe, 0xef]);
    assert_eq!(m.payload(), &[0xde, 0xad, 0xbe, 0xef]);
}

#[test]
fn utf8_lossy_valid() {
    let m = Message::new("h\u{e9}llo".as_bytes().to_vec());
    assert_eq!(m.to_utf8_lossy(), "h\u{e9}llo");
}

#[test]
fn utf8_lossy_invalid() {
    let m = Message::new(vec![0xff, 0xfe, 0x00]);
    assert!(m.to_utf8_lossy().contains('\u{FFFD}'));
}

#[test]
fn empty_message_is_empty_text() {
    let m = Message::new(Vec::new());
    assert!(m.payload().is_empty());
    assert_eq!(m.to_utf8_lossy(), "");
}
