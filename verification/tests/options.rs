use rmtt::{ClientOptions, Duration, TlsConfig};

#[test]
fn default_options() {
    let o = ClientOptions::default();
    assert_eq!(o.credential, "");
    assert_eq!(o.heartbeat_seconds, 10);
    assert_eq!(o.protocol_version, 1);
    assert_eq!(o.connect_timeout, Duration::from_secs(5));
    assert_eq!(o.write_timeout, Duration::from_secs(30));
    assert_eq!(o.response_timeout, Duration::from_secs(0));
    assert!(o.auto_reconnect);
    assert_eq!(o.reconnect_base, Duration::from_secs(1));
    assert_eq!(o.reconnect_max, Duration::from_secs(600));
    assert!(o.tls.is_none());
}

#[test]
fn explicit_response_timeout_wins() {
    let o = ClientOptions { response_timeout: Duration::from_secs(7), ..Default::default() };
    assert_eq!(o.effective_response_timeout(), Duration::from_secs(7));
}

#[test]
fn response_timeout_derived_from_heartbeat() {
    let o = ClientOptions { heartbeat_seconds: 4, ..Default::default() };
    assert_eq!(o.effective_response_timeout(), Duration::from_secs(6));
}

#[test]
fn response_timeout_floor_of_one_second() {
    // heartbeat 0 (unspecified) must not collapse the timeout to zero
    let o = ClientOptions { heartbeat_seconds: 0, ..Default::default() };
    assert_eq!(o.effective_response_timeout(), Duration::from_secs(1));
}

#[test]
fn odd_heartbeats_give_half_seconds() {
    let o = ClientOptions { heartbeat_seconds: 5, ..Default::default() };
    assert_eq!(o.effective_response_timeout(), Duration::from_millis(7500));
}

#[test]
fn short_explicit_timeout_is_kept() {
    let o = ClientOptions { response_timeout: Duration::from_millis(1), ..Default::default() };
    assert_eq!(o.effective_response_timeout().as_nanos(), 1_000_000);
}

#[test]
fn default_tls_verifies() {
    let tls = TlsConfig::default();
    assert!(tls.server_name.is_none());
    assert!(!tls.insecure);
}

#[test]
fn durations_have_a_limit() {
    let most = Duration::from_nanos(18_446_744_073_709_551_615_999_999_999).unwrap();
    assert_eq!(most.as_secs(), u64::MAX);
    assert_eq!(most.subsec_nanos(), 999_999_999);
    assert!(Duration::from_nanos(18_446_744_073_709_551_616_000_000_000).is_none());
    assert_eq!(Duration::from_secs(u64::MAX).as_nanos(), 18_446_744_073_709_551_615_000_000_000);
}
