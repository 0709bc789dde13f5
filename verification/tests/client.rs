use rmtt::client::address::{dial_target, split_hostport, unresolved, Target, Transport};
use rmtt::client::handshake::{
    connect_request, Handshake, HandshakeAction, HandshakeRead, ReadVerdict,
};
use rmtt::client::reconnect::{
    admit_push, backoff_next, link_is_up, LinkAction, LinkEvent, Supervisor, ST_CONNECTED,
    ST_DISCONNECTED, ST_RECONNECTING,
};
use rmtt::client::session::PhaseEnd;
use rmtt::client::tls::{
    checked_server_name, choose_server_name, skips_verification, tls_server_name,
    trust_roots,
};
use rmtt::codec;
use rmtt::{ClientOptions, Duration, Error, TlsConfig};

fn fake_connack(rc: u8, kp: u16) -> Vec<u8> {
    let mut v = vec![codec::mtype::CONNACK << 4, 0x03, rc];
    v.extend_from_slice(&kp.to_be_bytes());
    v
}

/// How a handshake over a canned server response ends, and what was written.
fn handshake(response: Vec<u8>, opts: &ClientOptions) -> (Result<u16, Error>, Vec<u8>) {
    let written = connect_request(opts).unwrap();
    let mut responses = vec![response];
    let mut h = Handshake::new(opts.connect_timeout);
    loop {
        match h.next(Duration::from_secs(0)) {
            HandshakeAction::Accepted(kp) => return (Ok(kp), written),
            HandshakeAction::Failed(e) => return (Err(e), written),
            HandshakeAction::TimedOut => panic!("the clock stands still"),
            HandshakeAction::Read => {
                let bytes = responses.pop().unwrap_or_default();
                match h.on_read(HandshakeRead::Data(bytes)) {
                    ReadVerdict::GoOn => {}
                    ReadVerdict::PeerClosed => return (Err(Error::Closed), written),
                    ReadVerdict::Failed(e) => return (Err(e), written),
                }
            }
        }
    }
}

#[test]
fn handshake_accepts_connack() {
    let (kp, w) = handshake(
        fake_connack(codec::returncode::ACCEPTED, 30),
        &ClientOptions::default(),
    );
    assert_eq!(kp.unwrap(), 30);
    assert_eq!(w[0], codec::mtype::CONNECT << 4);
    assert_eq!(&w[1..], &[10u8, 0x63, 0x7a, 0x71, 0x75, 0x01, 0x00, 0x00, 0x0a, 0x00, 0x00]);
}

#[test]
fn credential_has_to_fit_its_field() {
    let long = |n: usize| ClientOptions { credential: "x".repeat(n), ..Default::default() };
    assert_eq!(connect_request(&long(65_535)).unwrap().len(), 4 + 10 + 65_535);
    assert_eq!(
        connect_request(&long(65_536)).unwrap_err().to_string(),
        "protocol violation: credential is longer than 65535 bytes"
    );
}

#[test]
fn bytes_behind_the_connack_are_kept() {
    let mut bytes = fake_connack(codec::returncode::ACCEPTED, 30);
    let push = codec::encode_push(b"x");
    bytes.extend_from_slice(&push);
    let mut h = Handshake::new(Duration::from_secs(5));
    h.on_read(HandshakeRead::Data(bytes));
    assert!(matches!(h.next(Duration::from_secs(0)), HandshakeAction::Accepted(30)));
    assert_eq!(h.into_rest(), push);
}

#[test]
fn partial_answer_is_the_rest() {
    let mut h = Handshake::new(Duration::from_secs(5));
    h.on_read(HandshakeRead::Data(vec![0x20, 0x03, 0x00]));
    assert_eq!(h.into_rest(), vec![0x20, 0x03, 0x00]);
}

#[test]
fn handshake_rejects_connack_return_code() {
    let answer = fake_connack(codec::returncode::NOT_AUTHORISED, 0);
    match handshake(answer, &ClientOptions::default()).0 {
        Err(Error::ConnRefused(0x03)) => {}
        other => panic!("expected ConnRefused(0x03), got {other:?}"),
    }
}

#[test]
fn handshake_rejects_non_connack_first_packet() {
    let (end, _) = handshake(vec![0x60, 0x00], &ClientOptions::default());
    assert!(matches!(end, Err(Error::Protocol(_))));
    assert_eq!(end.unwrap_err().to_string(), "protocol violation: first packet is not a CONNACK");
}

#[test]
fn handshake_reports_violations() {
    let (end, _) = handshake(vec![0x21, 0x00], &ClientOptions::default());
    assert_eq!(
        end.unwrap_err().to_string(),
        "protocol violation: non-zero fixed header flags 0x01"
    );
}

#[test]
fn handshake_ends_when_the_peer_closes() {
    let (end, _) = handshake(vec![0x20, 0x03], &ClientOptions::default());
    assert!(matches!(end, Err(Error::Closed)));
}

#[test]
fn handshake_times_out_at_its_deadline() {
    let h = Handshake::new(Duration::from_secs(5));
    assert!(matches!(h.next(Duration::from_millis(4999)), HandshakeAction::Read));
    assert!(matches!(h.next(Duration::from_secs(5)), HandshakeAction::TimedOut));
}

#[test]
fn partial_connack_decides_nothing() {
    let whole = fake_connack(codec::returncode::ACCEPTED, 30);
    for kept in 0..whole.len() {
        let mut h = Handshake::new(Duration::from_secs(5));
        h.on_read(HandshakeRead::Data(whole[..kept].to_vec()));
        assert!(matches!(h.next(Duration::from_secs(0)), HandshakeAction::Read));
        h.on_read(HandshakeRead::Data(whole[kept..].to_vec()));
        assert!(matches!(h.next(Duration::from_secs(0)), HandshakeAction::Accepted(30)));
    }
}

#[test]
fn late_connack_still_counts() {
    let mut h = Handshake::new(Duration::from_secs(5));
    assert!(matches!(h.on_read(HandshakeRead::NotReady), ReadVerdict::GoOn));
    for byte in fake_connack(0, 7) {
        assert!(matches!(h.on_read(HandshakeRead::Data(vec![byte])), ReadVerdict::GoOn));
    }
    assert!(matches!(h.next(Duration::from_secs(9)), HandshakeAction::Accepted(7)));
    // bytes behind the CONNACK change nothing
    assert!(matches!(h.on_read(HandshakeRead::Data(vec![0xff, 0xff])), ReadVerdict::GoOn));
    assert!(matches!(h.next(Duration::from_secs(9)), HandshakeAction::Accepted(7)));
}

#[test]
fn handshake_passes_transport_failures_on() {
    let mut h = Handshake::new(Duration::from_secs(5));
    let io = std::io::Error::new(std::io::ErrorKind::ConnectionReset, "reset");
    match h.on_read(HandshakeRead::Failed(io)) {
        ReadVerdict::Failed(e) => assert_eq!(e.to_string(), "io error: reset"),
        other => panic!("expected a failure, got {other:?}"),
    }
}

#[test]
fn split_hostport_ok() {
    assert_eq!(split_hostport("127.0.0.1:18883").unwrap(), ("127.0.0.1".to_string(), 18883));
    assert_eq!(split_hostport("/127.0.0.1:80").unwrap(), ("127.0.0.1".to_string(), 80));
    assert_eq!(split_hostport("[::1]:8080").unwrap(), ("[::1]".to_string(), 8080));
}

#[test]
fn split_hostport_missing_port() {
    assert!(matches!(split_hostport("127.0.0.1"), Err(Error::BadAddress(_))));
    assert_eq!(
        split_hostport("//host").unwrap_err().to_string(),
        "invalid address: missing port in 'host'"
    );
}

#[test]
fn split_hostport_bad_port() {
    assert!(matches!(split_hostport("127.0.0.1:abc"), Err(Error::BadAddress(_))));
    assert_eq!(
        split_hostport("/h\u{f6}st:65536").unwrap_err().to_string(),
        "invalid address: bad port in 'h\u{f6}st:65536'"
    );
}

#[test]
fn ports_parse_as_decimal_numbers() {
    assert_eq!(split_hostport("h:65535").unwrap().1, 65535);
    assert_eq!(split_hostport("h:00080").unwrap().1, 80);
    assert_eq!(split_hostport("h:+80").unwrap().1, 80);
    assert_eq!(split_hostport(":0").unwrap(), (String::new(), 0));
    for bad in ["h:", "h:+", "h:-1", "h:++1", "h: 1", "h:1 ", "h:99999999999", "h:\u{663}"] {
        assert!(matches!(split_hostport(bad), Err(Error::BadAddress(_))), "{bad}");
    }
}

#[test]
fn dial_rejects_unknown_scheme() {
    assert!(matches!(dial_target("quic://127.0.0.1:443", true), Err(Error::BadAddress(_))));
    assert_eq!(
        dial_target("QUIC://127.0.0.1:443", true).unwrap_err().to_string(),
        "invalid address: unsupported scheme 'quic'"
    );
}

#[test]
fn dial_targets_by_scheme() {
    let target = |transport, host: &str, port| Target { transport, host: host.to_string(), port };
    assert_eq!(dial_target("h:1", true).unwrap(), target(Transport::Tcp, "h", 1));
    assert_eq!(dial_target("tcp://h:1", true).unwrap(), target(Transport::Tcp, "h", 1));
    assert_eq!(dial_target("TlS://h:1", true).unwrap(), target(Transport::Tls, "h", 1));
    assert_eq!(dial_target("tcp:///h:1", true).unwrap(), target(Transport::Tcp, "h", 1));
    // the first separator ends the scheme
    assert_eq!(dial_target("tcp://a://b:1", true).unwrap(), target(Transport::Tcp, "a://b", 1));
}

#[test]
fn tls_needs_a_build_with_tls() {
    assert!(matches!(dial_target("tls://h:1", false), Err(Error::TlsUnavailable)));
    assert!(dial_target("tcp://h:1", false).is_ok());
}

#[test]
fn address_is_judged_before_the_scheme() {
    assert_eq!(
        dial_target("quic://h", true).unwrap_err().to_string(),
        "invalid address: missing port in 'h'"
    );
}

#[test]
fn unresolved_host_is_named() {
    assert_eq!(
        unresolved("nowhere", 18883).to_string(),
        "invalid address: cannot resolve nowhere:18883"
    );
    assert_eq!(unresolved("h", 0).to_string(), "invalid address: cannot resolve h:0");
}

#[test]
fn server_name_defaults_to_the_host() {
    assert_eq!(choose_server_name(&None, "h"), "h");
    assert_eq!(choose_server_name(&Some(TlsConfig::default()), "h"), "h");
    let named = TlsConfig { server_name: Some("n".to_string()), insecure: false };
    assert_eq!(choose_server_name(&Some(named), "h"), "n");
}

#[test]
fn server_names_are_checked() {
    assert_eq!(tls_server_name(&None, "example.com").unwrap(), "example.com");
    assert_eq!(tls_server_name(&None, "0:0::1").unwrap(), "::1");
    assert_eq!(
        tls_server_name(&None, "not a name").unwrap_err().to_string(),
        "tls error: invalid server name 'not a name'"
    );
    // the message names the host even where the configured name is at fault
    let named = TlsConfig { server_name: Some("-bad-".to_string()), insecure: true };
    assert_eq!(
        tls_server_name(&Some(named), "example.com").unwrap_err().to_string(),
        "tls error: invalid server name 'example.com'"
    );
}

#[test]
fn parsed_server_name_is_kept() {
    assert_eq!(checked_server_name(Some("n".to_string()), "h").unwrap(), "n");
    assert!(matches!(checked_server_name(None, "h"), Err(Error::Tls(_))));
}

#[test]
fn verification_is_skipped_on_request_only() {
    assert!(!skips_verification(&None));
    assert!(!skips_verification(&Some(TlsConfig::default())));
    assert!(skips_verification(&Some(TlsConfig { server_name: None, insecure: true })));
}

/// A version 3 certificate with nothing in it but the given subject and key.
fn minimal_cert(subject: u8, key: u8) -> Vec<u8> {
    vec![
        0x30, 0x1f, 0x30, 0x18, // certificate, to-be-signed part
        0xa0, 0x03, 0x02, 0x01, 0x02, // version
        0x02, 0x01, 0x01, // serial number
        0x30, 0x00, 0x30, 0x00, 0x30, 0x00, // algorithm, issuer, validity
        0x30, 0x03, 0x02, 0x01, subject, // subject
        0x30, 0x03, 0x02, 0x01, key, // public key info
        0x30, 0x00, 0x03, 0x01, 0x00, // algorithm, signature
    ]
}

#[test]
fn parsable_roots_are_trusted_in_order() {
    let store = trust_roots(vec![minimal_cert(1, 2), minimal_cert(3, 4)]);
    assert_eq!(store.len(), 2);
    assert_eq!(store.roots[0].subject.as_ref(), &[0x02, 0x01, 0x01]);
    assert_eq!(store.roots[0].subject_public_key_info.as_ref(), &[0x02, 0x01, 0x02]);
    assert!(store.roots[0].name_constraints.is_none());
    assert_eq!(store.roots[1].subject.as_ref(), &[0x02, 0x01, 0x03]);
    assert_eq!(store.roots[1].subject_public_key_info.as_ref(), &[0x02, 0x01, 0x04]);
}

#[test]
fn unparsable_roots_are_passed_over() {
    assert!(trust_roots(Vec::new()).is_empty());
    assert!(trust_roots(vec![vec![], vec![0x00, 0xff]]).is_empty());
    let store = trust_roots(vec![vec![0x01], minimal_cert(1, 2), vec![0x30, 0x00]]);
    assert_eq!(store.len(), 1);
    assert_eq!(store.roots[0].subject.as_ref(), &[0x02, 0x01, 0x01]);
}

#[test]
fn backoff_doubles_up_to_max() {
    let opts = ClientOptions::default();
    assert_eq!(backoff_next(Duration::from_secs(1), &opts), Duration::from_secs(2));
    assert_eq!(backoff_next(Duration::from_secs(300), &opts), Duration::from_secs(600));
    assert_eq!(backoff_next(Duration::from_secs(400), &opts), Duration::from_secs(600));
    let capped = ClientOptions { reconnect_max: Duration::from_secs(10), ..Default::default() };
    assert_eq!(backoff_next(Duration::from_secs(6), &capped), Duration::from_secs(10));
}

#[test]
fn losses_are_retried_with_growing_delays() {
    let opts = ClientOptions { reconnect_max: Duration::from_secs(5), ..Default::default() };
    let mut s = Supervisor::new(&opts);
    assert_eq!(s.state(), ST_CONNECTED);
    assert_eq!(s.backoff(), Duration::from_secs(1));
    let lost = LinkEvent::PhaseEnded(PhaseEnd::Lost);
    assert_eq!(s.step(lost, false, &opts), LinkAction::Wait(Duration::from_secs(1)));
    assert_eq!(s.state(), ST_RECONNECTING);
    assert_eq!(s.step(LinkEvent::Waited, false, &opts), LinkAction::Dial);
    let failed = LinkEvent::AttemptFailed;
    assert_eq!(s.step(failed, false, &opts), LinkAction::Wait(Duration::from_secs(2)));
    assert_eq!(s.step(failed, false, &opts), LinkAction::Wait(Duration::from_secs(4)));
    assert_eq!(s.step(failed, false, &opts), LinkAction::Wait(Duration::from_secs(5)));
    assert_eq!(s.step(failed, false, &opts), LinkAction::Wait(Duration::from_secs(5)));
    assert_eq!(s.state(), ST_RECONNECTING);
    assert_eq!(s.step(LinkEvent::Reconnected(30), false, &opts), LinkAction::Run(30));
    assert_eq!(s.state(), ST_CONNECTED);
    // the interval is kept across a success
    assert_eq!(s.step(lost, false, &opts), LinkAction::Wait(Duration::from_secs(5)));
}

#[test]
fn delay_is_cut_off_at_a_maximum_below_the_base() {
    let opts = ClientOptions { reconnect_max: Duration::from_millis(300), ..Default::default() };
    let mut s = Supervisor::new(&opts);
    let lost = LinkEvent::PhaseEnded(PhaseEnd::Lost);
    assert_eq!(s.step(lost, false, &opts), LinkAction::Wait(Duration::from_millis(300)));
}

#[test]
fn stop_request_ends_reconnecting() {
    let opts = ClientOptions::default();
    for event in [
        LinkEvent::PhaseEnded(PhaseEnd::Lost),
        LinkEvent::Waited,
        LinkEvent::AttemptFailed,
    ] {
        let mut s = Supervisor::new(&opts);
        assert_eq!(s.step(event, true, &opts), LinkAction::Stop);
        assert_eq!(s.state(), ST_DISCONNECTED);
    }
    let mut s = Supervisor::new(&opts);
    assert_eq!(s.step(LinkEvent::Reconnected(9), true, &opts), LinkAction::Run(9));
}

#[test]
fn shutdown_is_final() {
    let opts = ClientOptions::default();
    let mut s = Supervisor::new(&opts);
    let shutdown = LinkEvent::PhaseEnded(PhaseEnd::Shutdown);
    assert_eq!(s.step(shutdown, false, &opts), LinkAction::Stop);
    assert_eq!(s.state(), ST_DISCONNECTED);
}

#[test]
fn losses_are_final_without_auto_reconnect() {
    let opts = ClientOptions { auto_reconnect: false, ..Default::default() };
    let mut s = Supervisor::new(&opts);
    assert_eq!(s.step(LinkEvent::PhaseEnded(PhaseEnd::Lost), false, &opts), LinkAction::Stop);
    assert_eq!(s.state(), ST_DISCONNECTED);
    assert_eq!(s.step(LinkEvent::AttemptFailed, false, &opts), LinkAction::Stop);
}

#[test]
fn pushes_need_a_link() {
    assert!(link_is_up(ST_CONNECTED));
    assert!(link_is_up(ST_RECONNECTING));
    assert!(!link_is_up(ST_DISCONNECTED));
    assert!(!link_is_up(1));
    assert!(admit_push(ST_CONNECTED).is_ok());
    assert!(admit_push(ST_RECONNECTING).is_ok());
    assert!(matches!(admit_push(ST_DISCONNECTED), Err(Error::NotConnected)));
}
