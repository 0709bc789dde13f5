//! Options controlling client behaviour.

use crate::duration::{Duration, NANOS_PER_SEC};
use vstd::prelude::*;
use vstd::string::*;

verus! {

/// TLS verification mode.
#[derive(Debug, Clone)]
pub struct TlsConfig {
    /// Server name for SNI / cert verification. Defaults to the host name.
    pub server_name: Option<String>,
    /// Disable certificate verification (for self-signed / no-SAN test servers).
    pub insecure: bool,
}

impl Default for TlsConfig {
    fn default() -> (config: Self)
        ensures
            config.server_name is None,
            !config.insecure,
    {
        TlsConfig { server_name: None, insecure: false }
    }
}

/// Client configuration. The jitter on the reconnect delay is no part of it: it
/// is a fraction, and whoever sleeps for the delay applies it.
#[derive(Debug, Clone)]
pub struct ClientOptions {
    /// Credential presented in CONNECT. Opaque to the protocol.
    pub credential: String,
    /// Fixed heartbeat proposal in seconds (0 = do not specify, the server
    /// decides; a nonzero value is subject to the server's [-min, max] policy).
    pub heartbeat_seconds: u16,
    /// Protocol version (must be 1).
    pub protocol_version: u8,
    /// Timeout for establishing the transport + completing the CONNECT handshake.
    pub connect_timeout: Duration,
    /// Deadline for writing any outbound packet / push.
    pub write_timeout: Duration,
    /// Time to wait for a PINGRESP/any inbound packet before calling the link dead
    /// (0 = 1.5x the keepalive).
    pub response_timeout: Duration,
    /// Whether to automatically reconnect on an unexpected connection loss.
    pub auto_reconnect: bool,
    /// Base interval for reconnect exponential backoff.
    pub reconnect_base: Duration,
    /// Upper bound for the reconnect backoff interval.
    pub reconnect_max: Duration,
    /// TLS configuration / verification mode.
    pub tls: Option<TlsConfig>,
}

impl Default for ClientOptions {
    fn default() -> (options: Self)
        ensures
            options.credential@ == Seq::<char>::empty(),
            options.heartbeat_seconds == 10,
            options.protocol_version == 1,
            options.connect_timeout@ == 5 * NANOS_PER_SEC,
            options.write_timeout@ == 30 * NANOS_PER_SEC,
            options.response_timeout@ == 0,
            options.auto_reconnect,
            options.reconnect_base@ == NANOS_PER_SEC,
            options.reconnect_max@ == 600 * NANOS_PER_SEC,
            options.tls is None,
    {
        ClientOptions {
            credential: String::new(),
            heartbeat_seconds: 10,
            protocol_version: 1,
            connect_timeout: Duration::from_secs(5),
            write_timeout: Duration::from_secs(30),
            response_timeout: Duration::from_secs(0),  // auto: 1.5x heartbeat
            auto_reconnect: true,
            reconnect_base: Duration::from_secs(1),
            reconnect_max: Duration::from_secs(600),
            tls: None,
        }
    }
}

/// One and a half times `seconds`, in nanoseconds.
pub open spec fn one_and_a_half(seconds: u16) -> nat {
    (seconds * 1_500_000_000) as nat
}

/// One and a half times `seconds`.
pub fn one_and_a_half_times(seconds: u16) -> (span: Duration)
    ensures
        span@ == one_and_a_half(seconds),
        2 * span@ == 3 * seconds * 1_000_000_000,
{
    Duration::from_millis(seconds as u64 * 1500)
}

impl ClientOptions {
    /// Effective response timeout: explicit value, else 1.5x the heartbeat, and
    /// one second at least.
    pub fn effective_response_timeout(&self) -> (timeout: Duration)
        ensures
            timeout@ == if self.response_timeout@ > 0 {
                self.response_timeout@
            } else if one_and_a_half(self.heartbeat_seconds) > NANOS_PER_SEC {
                one_and_a_half(self.heartbeat_seconds)
            } else {
                NANOS_PER_SEC as nat
            },
            timeout@ > 0,
            self.response_timeout@ > 0 ==> timeout@ == self.response_timeout@,
            self.response_timeout@ == 0 && self.heartbeat_seconds > 0 ==> 2 * timeout@ == 3
                * self.heartbeat_seconds * 1_000_000_000,
            self.response_timeout@ == 0 && self.heartbeat_seconds == 0 ==> timeout@
                == 1_000_000_000,
    {
        if self.response_timeout.as_nanos() > 0 {
            self.response_timeout
        } else if self.heartbeat_seconds == 0 {
            Duration::from_secs(1)
        } else {
            one_and_a_half_times(self.heartbeat_seconds)
        }
    }
}

} // verus!
