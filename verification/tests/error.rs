use rmtt::Error;
use std::fmt;

/// A standard error around the library's.
#[derive(Debug)]
struct StdError(Error);

impl fmt::Display for StdError {
    fn fmt(&self, f: &mut fmt::Formatter<'_>) -> fmt::Result {
        f.write_str(&self.0.to_string())
    }
}

impl std::error::Error for StdError {}

#[test]
fn display_messages() {
    assert_eq!(
        Error::Io(std::io::Error::new(std::io::ErrorKind::NotFound, "x")).to_string(),
        "io error: x"
    );
    assert_eq!(Error::Protocol("bad magic".into()).to_string(), "protocol violation: bad magic");
    assert_eq!(Error::ConnRefused(0x03).to_string(), "connection refused (return code 0x03)");
    assert_eq!(Error::Closed.to_string(), "connection is closed");
    assert_eq!(Error::NotConnected.to_string(), "not connected");
    assert_eq!(Error::BadAddress("nope".into()).to_string(), "invalid address: nope");
    assert_eq!(
        Error::TlsUnavailable.to_string(),
        "tls support not compiled in (enable the `tls` feature)"
    );
    assert_eq!(Error::Tls("boom".into()).to_string(), "tls error: boom");
}

#[test]
fn io_error_conversion() {
    let io = std::io::Error::new(std::io::ErrorKind::TimedOut, "t");
    let e: Error = io.into();
    assert!(matches!(e, Error::Io(_)));
}

#[test]
fn usable_as_std_error() {
    let boxed: Box<dyn std::error::Error> = Box::new(StdError(Error::Closed));
    assert_eq!(boxed.to_string(), "connection is closed");
    assert!(boxed.source().is_none());
}

#[test]
fn return_codes_show_as_two_hex_digits() {
    assert_eq!(Error::ConnRefused(0xfe).to_string(), "connection refused (return code 0xfe)");
    assert_eq!(Error::ConnRefused(0x00).to_string(), "connection refused (return code 0x00)");
    assert_eq!(Error::ConnRefused(0x9a).to_string(), "connection refused (return code 0x9a)");
}
