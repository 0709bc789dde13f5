//! Error type of the library.

use crate::text;
use vstd::prelude::*;
use vstd::string::*;

verus! {

/// `std::io::Error`, carried inside [`Error::Io`] and never looked into.
#[verifier::external_type_specification]
#[verifier::external_body]
pub struct ExIoError(std::io::Error);

/// Protocol / transport error returned by the library.
#[derive(Debug)]
pub enum Error {
    /// I/O or TLS failure on the underlying transport.
    Io(std::io::Error),
    /// A packet violated the wire format (bad flags, truncated body...).
    Protocol(String),
    /// The server rejected the CONNECT.
    ConnRefused(u8),
    /// The client is not currently connected (can also mean "not connecting").
    Closed,
    /// A user-facing operation was called while the link was down.
    NotConnected,
    /// Failed to parse the broker address.
    BadAddress(String),
    /// TLS was not compiled into this build.
    TlsUnavailable,
    /// TLS configuration/handshake error.
    Tls(String),
}

/// The message of an [`Error::Io`] whose inner error reads `detail`.
pub open spec fn io_message(detail: Seq<char>) -> Seq<char> {
    "io error: "@ + detail
}

impl Error {
    /// `text` is the human-readable message of this error.
    pub open spec fn reads(self, text: Seq<char>) -> bool {
        match self {
            Error::Io(inner) => exists|detail: String|
                #[trigger] to_string_from_display_ensures::<std::io::Error>(&inner, detail) && text
                    == io_message(detail@),
            Error::Protocol(what) => text == "protocol violation: "@ + what@,
            Error::ConnRefused(code) => text == "connection refused (return code "@
                + text::hex_byte(code) + ")"@,
            Error::Closed => text == "connection is closed"@,
            Error::NotConnected => text == "not connected"@,
            Error::BadAddress(what) => text == "invalid address: "@ + what@,
            Error::TlsUnavailable => text
                == "tls support not compiled in (enable the `tls` feature)"@,
            Error::Tls(what) => text == "tls error: "@ + what@,
        }
    }

    /// The human-readable message of this error.
    pub fn to_string(&self) -> (text: String)
        ensures
            self.reads(text@),
    {
        match self {
            Error::Io(inner) => {
                let detail: String = inner.to_string();
                let mut text = "io error: ".to_owned();
                text.append(detail.as_str());
                text
            },
            Error::Protocol(what) => {
                let mut text = "protocol violation: ".to_owned();
                text.append(what.as_str());
                text
            },
            Error::ConnRefused(code) => {
                let mut text = "connection refused (return code ".to_owned();
                text::append_hex_byte(&mut text, *code);
                text.append(")");
                text
            },
            Error::Closed => "connection is closed".to_owned(),
            Error::NotConnected => "not connected".to_owned(),
            Error::BadAddress(what) => {
                let mut text = "invalid address: ".to_owned();
                text.append(what.as_str());
                text
            },
            Error::TlsUnavailable =>
                "tls support not compiled in (enable the `tls` feature)".to_owned(),
            Error::Tls(what) => {
                let mut text = "tls error: ".to_owned();
                text.append(what.as_str());
                text
            },
        }
    }
}

impl From<std::io::Error> for Error {
    fn from(inner: std::io::Error) -> (error: Self) {
        Error::Io(inner)
    }
}

impl vstd::std_specs::convert::FromSpecImpl<std::io::Error> for Error {
    open spec fn obeys_from_spec() -> bool {
        true
    }

    open spec fn from_spec(inner: std::io::Error) -> Self {
        Error::Io(inner)
    }
}

/// What each error says, word for word.
pub proof fn law_errors_say_what_is_wrong(error: Error, said: Seq<char>)
    requires
        error.reads(said),
    ensures
        match error {
            Error::Io(inner) => exists|detail: String|
                #[trigger] to_string_from_display_ensures::<std::io::Error>(&inner, detail) && said
                    == "io error: "@ + detail@,
            Error::Protocol(what) => said == "protocol violation: "@ + what@,
            Error::ConnRefused(code) => said == "connection refused (return code "@
                + text::hex_byte(code) + ")"@,
            Error::Closed => said == "connection is closed"@,
            Error::NotConnected => said == "not connected"@,
            Error::BadAddress(what) => said == "invalid address: "@ + what@,
            Error::TlsUnavailable => said
                == "tls support not compiled in (enable the `tls` feature)"@,
            Error::Tls(what) => said == "tls error: "@ + what@,
        },
{
}

/// Convenience result alias used throughout the crate.
pub type Result<T> = std::result::Result<T, Error>;

} // verus!
