use rmtt::client::session::{
    dispatch, Action, Ending, Event, PhaseEnd, Polled, ReadEvent, Session, StreamEnd,
    MAX_READ_BUFFER,
};
use rmtt::codec::{encode_disconnect, encode_pingreq, encode_push};
use rmtt::Duration;

fn secs(n: u64) -> Duration {
    Duration::from_secs(n)
}

/// A link without a response timeout of its own, and nothing received yet.
fn session(keepalive: u16, now: Duration) -> Session {
    Session::new(keepalive, secs(0), Vec::new(), now)
}

fn ending(action: Action) -> (Option<Vec<u8>>, PhaseEnd) {
    match action {
        Action::End(Ending { farewell, end }) => (farewell, end),
        other => panic!("expected the end, got {other:?}"),
    }
}

fn data(session: &mut Session, bytes: &[u8]) -> Action {
    session.step(Event::Read(ReadEvent::Data(bytes.to_vec())))
}

/// The payloads handed over once nothing more is ready, and the end if any.
fn drain(session: &mut Session, now: Duration) -> (Vec<Vec<u8>>, Option<Ending>) {
    delivery(session.step(Event::Read(ReadEvent::NotReady(now))))
}

fn delivery(action: Action) -> (Vec<Vec<u8>>, Option<Ending>) {
    match action {
        Action::Deliver { messages, then_end } => {
            (messages.iter().map(|m| m.payload().to_vec()).collect(), then_end)
        }
        other => panic!("expected messages, got {other:?}"),
    }
}

#[test]
fn stop_sends_a_clean_disconnect() {
    for last in [Polled::Empty, Polled::Shutdown, Polled::HungUp] {
        let mut s = session(30, secs(0));
        assert!(matches!(s.step(Event::StopFlag(false)), Action::PollCommand));
        assert!(matches!(s.step(Event::StopFlag(true)), Action::PollCommand));
        let end = ending(s.step(Event::Command(last)));
        assert_eq!(end, (Some(vec![0xe0, 0x01, 0x00]), PhaseEnd::Shutdown));
    }
}

#[test]
fn shutdown_needs_no_flag() {
    let mut s = session(30, secs(0));
    let end = ending(s.step(Event::Command(Polled::Shutdown)));
    assert_eq!(end, (Some(vec![0xe0, 0x01, 0x00]), PhaseEnd::Shutdown));
}

#[test]
fn pushes_that_wait_are_sent_before_the_goodbye() {
    let mut s = session(30, secs(0));
    assert!(matches!(s.step(Event::StopFlag(true)), Action::PollCommand));
    let mut written: Vec<u8> = Vec::new();
    for payload in [b"one".to_vec(), b"two".to_vec()] {
        match s.step(Event::Command(Polled::Push(payload))) {
            Action::SendPush(bytes) => written.extend(bytes),
            other => panic!("expected a frame, got {other:?}"),
        }
        let sent = Event::PushWritten { ok: true, now: secs(1) };
        assert!(matches!(s.step(sent), Action::PollCommand));
    }
    let (farewell, end) = ending(s.step(Event::Command(Polled::Shutdown)));
    written.extend(farewell.unwrap());
    let mut expected = encode_push(b"one");
    expected.extend(encode_push(b"two"));
    expected.extend([0xe0, 0x01, 0x00]);
    assert_eq!(written, expected);
    assert_eq!(end, PhaseEnd::Shutdown);
}

#[test]
fn user_gone_ends_without_a_word() {
    let mut s = session(30, secs(0));
    assert_eq!(ending(s.step(Event::Command(Polled::HungUp))), (None, PhaseEnd::Shutdown));
}

#[test]
fn pushes_are_framed_and_count_as_traffic() {
    let mut s = session(10, secs(0));
    match s.step(Event::Command(Polled::Push(b"hi".to_vec()))) {
        Action::SendPush(bytes) => assert_eq!(bytes, vec![0x30, 0x03, 0x00, b'h', b'i']),
        other => panic!("expected a frame, got {other:?}"),
    }
    let written = Event::PushWritten { ok: true, now: secs(5) };
    assert!(matches!(s.step(written), Action::PollCommand));
    assert!(matches!(s.step(Event::Command(Polled::Empty)), Action::ReadClock));
    assert!(matches!(s.step(Event::Clock(secs(14))), Action::Read));
}

#[test]
fn failed_writes_lose_the_link() {
    let mut s = session(10, secs(0));
    let end = ending(s.step(Event::PushWritten { ok: false, now: secs(1) }));
    assert_eq!(end, (None, PhaseEnd::Lost));
    let end = ending(s.step(Event::PingWritten { ok: false, now: secs(1) }));
    assert_eq!(end, (None, PhaseEnd::Lost));
}

#[test]
fn idle_link_is_pinged_at_the_keepalive() {
    let mut s = session(10, secs(0));
    assert!(matches!(s.step(Event::Clock(secs(9))), Action::Read));
    match s.step(Event::Clock(secs(10))) {
        Action::SendPing(bytes) => assert_eq!(bytes, vec![0x50, 0x00]),
        other => panic!("expected a ping, got {other:?}"),
    }
    assert!(matches!(s.step(Event::PingWritten { ok: true, now: secs(10) }), Action::Read));
    assert!(matches!(s.step(Event::Clock(secs(14))), Action::Read));
}

#[test]
fn silent_link_is_lost_at_one_and_a_half_keepalives() {
    let mut s = session(5, secs(0));
    assert!(matches!(s.step(Event::PingWritten { ok: true, now: secs(5) }), Action::Read));
    assert_eq!(drain(&mut s, secs(6)).0.len(), 0);
    assert!(matches!(s.step(Event::Clock(Duration::from_millis(7499))), Action::Read));
    let end = ending(s.step(Event::Clock(Duration::from_millis(7500))));
    assert_eq!(end, (None, PhaseEnd::Lost));
}

#[test]
fn received_packets_keep_the_link_alive() {
    let mut s = session(2, secs(0));
    assert!(matches!(data(&mut s, &[0x60, 0x00]), Action::Read));
    assert_eq!(drain(&mut s, secs(2)).0.len(), 0);
    assert!(matches!(s.step(Event::Clock(secs(4))), Action::SendPing(_)));
    assert_eq!(ending(s.step(Event::Clock(secs(5)))).1, PhaseEnd::Lost);
}

#[test]
fn pings_are_spaced_and_packets_last_across_rounds() {
    let mut s = session(10, secs(0));
    assert!(matches!(s.step(Event::Clock(secs(10))), Action::SendPing(_)));
    assert!(matches!(s.step(Event::PingWritten { ok: true, now: secs(10) }), Action::Read));
    assert!(matches!(data(&mut s, &[0x60, 0x00]), Action::Read));
    assert_eq!(drain(&mut s, secs(11)).0.len(), 0);
    for now in 12..20 {
        assert!(matches!(s.step(Event::StopFlag(false)), Action::PollCommand));
        assert!(matches!(s.step(Event::Command(Polled::Empty)), Action::ReadClock));
        assert!(matches!(s.step(Event::Clock(secs(now))), Action::Read));
        assert_eq!(drain(&mut s, secs(now)).0.len(), 0);
    }
    assert!(matches!(s.step(Event::Clock(secs(20))), Action::SendPing(_)));
    assert!(matches!(s.step(Event::Clock(secs(25))), Action::SendPing(_)));
    assert_eq!(ending(s.step(Event::Clock(secs(26)))), (None, PhaseEnd::Lost));
}

#[test]
fn part_of_a_frame_is_no_packet() {
    let mut s = session(2, secs(0));
    assert!(matches!(data(&mut s, &[0x60]), Action::Read));
    assert_eq!(drain(&mut s, secs(1)).0.len(), 0);
    assert_eq!(drain(&mut s, secs(2)).0.len(), 0);
    assert!(!matches!(s.step(Event::Clock(Duration::from_millis(2999))), Action::End(_)));
    assert_eq!(ending(s.step(Event::Clock(secs(3)))), (None, PhaseEnd::Lost));
}

#[test]
fn response_timeout_decides_when_it_is_set() {
    let mut s = Session::new(30, secs(7), Vec::new(), secs(0));
    assert!(matches!(s.step(Event::Clock(Duration::from_millis(6999))), Action::Read));
    assert_eq!(ending(s.step(Event::Clock(secs(7)))), (None, PhaseEnd::Lost));
    let mut s = Session::new(2, secs(60), Vec::new(), secs(0));
    assert!(matches!(s.step(Event::Clock(secs(59))), Action::SendPing(_)));
    assert_eq!(ending(s.step(Event::Clock(secs(60)))), (None, PhaseEnd::Lost));
}

#[test]
fn response_timeout_needs_a_keepalive() {
    let mut s = Session::new(0, secs(7), Vec::new(), secs(0));
    assert!(matches!(s.step(Event::Clock(secs(1_000_000))), Action::Read));
}

#[test]
fn keepalive_zero_means_no_heartbeat() {
    let mut s = session(0, secs(0));
    assert!(matches!(s.step(Event::Clock(secs(1_000_000))), Action::Read));
}

#[test]
fn clock_that_goes_back_is_no_time() {
    let mut s = session(1, secs(100));
    assert!(matches!(s.step(Event::Clock(secs(1))), Action::Read));
}

#[test]
fn reads_go_on_until_nothing_is_ready() {
    let mut s = session(10, secs(0));
    assert!(matches!(data(&mut s, &[0x30]), Action::Read));
    assert!(matches!(s.step(Event::Read(ReadEvent::Interrupted)), Action::Read));
    assert_eq!(drain(&mut s, secs(1)).0.len(), 0);
}

#[test]
fn messages_before_the_end_of_reading_are_handed_over() {
    for close in [ReadEvent::Data(Vec::new()), ReadEvent::Failed] {
        let mut s = session(10, secs(0));
        let mut bytes = encode_push(b"x");
        bytes.push(0x30);
        assert!(matches!(data(&mut s, &bytes), Action::Read));
        let (payloads, then_end) = delivery(s.step(Event::Read(close)));
        assert_eq!(payloads, vec![b"x".to_vec()]);
        let then_end = then_end.unwrap();
        assert_eq!((then_end.farewell, then_end.end), (None, PhaseEnd::Lost));
    }
}

#[test]
fn violation_before_a_close_is_not_answered() {
    let mut s = session(10, secs(0));
    let mut bytes = encode_push(b"x");
    bytes.extend_from_slice(&[0x31, 0x00]);
    assert!(matches!(data(&mut s, &bytes), Action::Read));
    let (payloads, then_end) = delivery(data(&mut s, &[]));
    assert_eq!(payloads, vec![b"x".to_vec()]);
    let then_end = then_end.unwrap();
    assert_eq!((then_end.farewell, then_end.end), (None, PhaseEnd::Lost));
}

#[test]
fn disconnect_before_a_close_is_no_loss() {
    let mut s = session(10, secs(0));
    assert!(matches!(data(&mut s, &encode_disconnect(0x00)), Action::Read));
    let (_, then_end) = delivery(data(&mut s, &[]));
    assert_eq!(then_end.unwrap().end, PhaseEnd::Shutdown);
}

#[test]
fn bytes_behind_the_answer_are_dispatched() {
    let mut s = Session::new(10, secs(0), encode_push(b"x"), secs(0));
    let (payloads, then_end) = drain(&mut s, secs(1));
    assert_eq!(payloads, vec![b"x".to_vec()]);
    assert!(then_end.is_none());
}

#[test]
fn buffer_has_a_limit() {
    let mut s = session(10, secs(0));
    // a PUSH of 2^24 + 1 bytes that never ends
    let mut bytes = vec![0x30, 0x81, 0x80, 0x80, 0x08];
    bytes.resize(MAX_READ_BUFFER, 0);
    assert!(matches!(data(&mut s, &bytes), Action::Read));
    let (payloads, then_end) = delivery(data(&mut s, &[0]));
    assert!(payloads.is_empty());
    let then_end = then_end.unwrap();
    assert_eq!((then_end.farewell, then_end.end), (None, PhaseEnd::Lost));
}

#[test]
fn messages_arrive_in_order_however_cut() {
    let mut bytes = encode_push(b"one");
    bytes.extend_from_slice(&encode_pingreq());
    bytes.extend_from_slice(&encode_push(b""));
    bytes.extend_from_slice(&encode_push(&[9u8; 300]));
    let expected = vec![b"one".to_vec(), b"".to_vec(), vec![9u8; 300]];
    for cut in 0..=bytes.len() {
        let mut s = session(10, secs(0));
        let mut got: Vec<Vec<u8>> = Vec::new();
        for part in [&bytes[..cut], &bytes[cut..]] {
            if !part.is_empty() {
                assert!(matches!(data(&mut s, part), Action::Read));
            }
            let (payloads, then_end) = drain(&mut s, secs(1));
            assert!(then_end.is_none());
            got.extend(payloads);
        }
        assert_eq!(got, expected);
    }
}

#[test]
fn messages_arrive_byte_by_byte() {
    let mut bytes = encode_push(b"one");
    bytes.extend_from_slice(&encode_push(b"two"));
    let mut s = session(10, secs(0));
    let mut got: Vec<Vec<u8>> = Vec::new();
    for byte in bytes {
        assert!(matches!(data(&mut s, &[byte]), Action::Read));
        got.extend(drain(&mut s, secs(1)).0);
    }
    assert_eq!(got, vec![b"one".to_vec(), b"two".to_vec()]);
}

#[test]
fn violation_is_answered_after_the_messages_before_it() {
    let mut s = session(10, secs(0));
    let mut bytes = encode_push(b"ok");
    bytes.extend_from_slice(&[0x31, 0x00]);
    assert!(matches!(data(&mut s, &bytes), Action::Read));
    let (payloads, then_end) = drain(&mut s, secs(1));
    assert_eq!(payloads, vec![b"ok".to_vec()]);
    let then_end = then_end.unwrap();
    assert_eq!(then_end.farewell, Some(vec![0xe0, 0x01, 0x04]));
    assert_eq!(then_end.end, PhaseEnd::Lost);
}

#[test]
fn server_disconnect_ends_for_good() {
    let mut s = session(10, secs(0));
    let mut bytes = encode_disconnect(0x03);
    bytes.extend_from_slice(&encode_push(b"late"));
    assert!(matches!(data(&mut s, &bytes), Action::Read));
    let (payloads, then_end) = drain(&mut s, secs(1));
    assert!(payloads.is_empty());
    let then_end = then_end.unwrap();
    assert_eq!(then_end.farewell, None);
    assert_eq!(then_end.end, PhaseEnd::Shutdown);
}

#[test]
fn dispatch_counts_what_it_read() {
    let mut bytes = encode_push(b"ab");
    bytes.extend_from_slice(&[0x60, 0x00, 0x30]);
    let found = dispatch(&bytes);
    assert_eq!(found.messages.len(), 1);
    assert_eq!(found.consumed, 7);
    assert_eq!(found.end, StreamEnd::Partial);
    assert_eq!(dispatch(&encode_disconnect(0x07)).end, StreamEnd::Disconnected(0x07));
    assert_eq!(dispatch(&[0x0f]).end, StreamEnd::Violation);
}
