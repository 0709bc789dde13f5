//! RMTT (Remote Message Telemetry Transport): a lightweight point-to-point
//! long-lived message push protocol.

pub mod client;
pub mod codec;
pub mod duration;
pub mod error;
pub mod message;
pub mod options;
pub mod text;

pub use duration::Duration;
pub use error::{Error, Result};
pub use message::Message;
pub use options::{ClientOptions, TlsConfig};
