//! # Freenet Client Protocol
//!
//! The Freenet Client Protocol (FCP) is the line-oriented text protocol that
//! a Freenet node and its client applications speak over a TCP connection.
//!
//! This library holds the protocol's logic: the message codec and the
//! session's state machine, each with its contract.
pub mod config;
pub mod decoder;
pub mod error;
pub mod message;
pub mod session;

pub use decoder::MessageDecoder;
pub use error::{Error, ToFcpError};
pub use message::FcpMessage;
pub use session::FcpConnection;
