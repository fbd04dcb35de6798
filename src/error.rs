//! Errors of the protocol engine.
use vstd::prelude::*;

use crate::document::{decimal, decimal_text};

verus! {

/// Errors during the communication with the peer.
#[derive(Debug, Clone, PartialEq, Eq)]
pub enum Error {
    /// The channel to the peer was dropped unexpectedly.
    PipeClosed(String),
    /// The peer closed the connection.
    ConnectionClosed { code: i32, message: String },
    /// The peer sent a frame that is not allowed in the current state.
    InvalidMessage(String),
    /// A frame carried an unknown message-type identifier.
    FormatError(u32),
    /// Fewer bytes were available than the frame declares.
    TruncatedFrame,
    /// The payload bytes are not valid UTF-8.
    EncodingError,
    /// The payload text is not a valid JSON document.
    PayloadError,
    /// The transport did not accept what the client had to write.
    TransportError,
    /// The transport found no peer to open a channel to.
    PeerUnavailable,
    /// A correlated request saw no response before its deadline.
    TimedOut,
}

/// The human-readable description of an error.
pub open spec fn error_text(e: Error) -> Seq<char> {
    match e {
        Error::PipeClosed(d) => "Connection pipe closed: "@ + d@,
        Error::ConnectionClosed { code, message } => "Connection forced to close by server (code: "@
            + decimal_text(code as int) + "): "@ + message@,
        Error::InvalidMessage(d) => "Invalid message read: "@ + d@,
        Error::FormatError(n) => "Unknown message-type identifier: "@ + decimal_text(n as int),
        Error::TruncatedFrame => "Truncated message frame"@,
        Error::EncodingError => "Invalid message frame encoding"@,
        Error::PayloadError => "Invalid message frame JSON"@,
        Error::TransportError => "Transport write failed"@,
        Error::PeerUnavailable => "No peer available"@,
        Error::TimedOut => "Request timed out"@,
    }
}

impl Error {
    /// Describes the error in words.
    pub fn describe(&self) -> (r: String)
        ensures
            r@ == error_text(*self),
    {
        match self {
            Error::PipeClosed(d) => {
                let mut s = "Connection pipe closed: ".to_owned();
                s.append(d.as_str());
                s
            },
            Error::ConnectionClosed { code, message } => {
                let mut s = "Connection forced to close by server (code: ".to_owned();
                let digits = decimal(*code as i128);
                s.append(digits.as_str());
                s.append("): ");
                s.append(message.as_str());
                s
            },
            Error::InvalidMessage(d) => {
                let mut s = "Invalid message read: ".to_owned();
                s.append(d.as_str());
                s
            },
            Error::FormatError(n) => {
                let mut s = "Unknown message-type identifier: ".to_owned();
                let digits = decimal(*n as i128);
                s.append(digits.as_str());
                s
            },
            Error::TruncatedFrame => "Truncated message frame".to_owned(),
            Error::EncodingError => "Invalid message frame encoding".to_owned(),
            Error::PayloadError => "Invalid message frame JSON".to_owned(),
            Error::TransportError => "Transport write failed".to_owned(),
            Error::PeerUnavailable => "No peer available".to_owned(),
            Error::TimedOut => "Request timed out".to_owned(),
        }
    }
}

} // verus!
