//! A DNS stub-resolver library: the RFC-1035 wire codec (message
//! encoding and decoding, including compressed domain names), the
//! TCP length-prefixed framing used for truncation fallback, and the
//! multi-server retry state machine that matches responses to
//! outstanding queries by transaction ID.

pub mod codec;
pub mod config;
pub mod dns;
pub mod resolver;
pub mod transport;
