//! What can go wrong on the wire.
use crate::text::{decimal, push_decimal};
use vstd::prelude::*;

verus! {

/// An error of the protocol or of the connection under it.
#[derive(Debug, Clone)]
pub enum IpfuschError {
    InvalidPacketHeader,
    ProtocolVersionMismatch { expected: u16, got: u16 },
    AuthRejected,
    Io(String),
    Serialization(String),
    Timeout,
}

/// An error with its texts as sequences of characters.
pub enum ErrorView {
    InvalidPacketHeader,
    ProtocolVersionMismatch { expected: u16, got: u16 },
    AuthRejected,
    Io(Seq<char>),
    Serialization(Seq<char>),
    Timeout,
}

impl View for IpfuschError {
    type V = ErrorView;

    open spec fn view(&self) -> ErrorView {
        match *self {
            IpfuschError::InvalidPacketHeader => ErrorView::InvalidPacketHeader,
            IpfuschError::ProtocolVersionMismatch { expected, got } => {
                ErrorView::ProtocolVersionMismatch { expected, got }
            },
            IpfuschError::AuthRejected => ErrorView::AuthRejected,
            IpfuschError::Io(m) => ErrorView::Io(m@),
            IpfuschError::Serialization(m) => ErrorView::Serialization(m@),
            IpfuschError::Timeout => ErrorView::Timeout,
        }
    }
}

impl ErrorView {
    /// What the error says to a reader.
    pub open spec fn message(self) -> Seq<char> {
        match self {
            ErrorView::InvalidPacketHeader => "invalid packet header"@,
            ErrorView::ProtocolVersionMismatch { expected, got } => {
                "protocol mismatch: expected "@ + decimal(expected as nat) + ", got "@ + decimal(
                    got as nat,
                )
            },
            ErrorView::AuthRejected => "auth token rejected"@,
            ErrorView::Io(m) => "io error: "@ + m,
            ErrorView::Serialization(m) => "serialization error: "@ + m,
            ErrorView::Timeout => "timeout waiting for packet response"@,
        }
    }
}

impl IpfuschError {
    /// The text of the error.
    pub fn to_string(&self) -> (r: String)
        ensures
            r@ == self@.message(),
    {
        match self {
            IpfuschError::InvalidPacketHeader => "invalid packet header".to_string(),
            IpfuschError::ProtocolVersionMismatch { expected, got } => {
                let mut s: String = "protocol mismatch: expected ".to_string();
                push_decimal(&mut s, *expected as u64);
                s.append(", got ");
                push_decimal(&mut s, *got as u64);
                s
            },
            IpfuschError::AuthRejected => "auth token rejected".to_string(),
            IpfuschError::Io(m) => {
                let mut s: String = "io error: ".to_string();
                s.append(m.as_str());
                s
            },
            IpfuschError::Serialization(m) => {
                let mut s: String = "serialization error: ".to_string();
                s.append(m.as_str());
                s
            },
            IpfuschError::Timeout => "timeout waiting for packet response".to_string(),
        }
    }
}

/// Each error says what it is, with what was expected and what came, or with what the system said.
pub proof fn law_errors_say_what_they_are(text: Seq<char>, expected: u16, got: u16)
    ensures
        ErrorView::InvalidPacketHeader.message() == "invalid packet header"@,
        (ErrorView::ProtocolVersionMismatch { expected, got }).message()
            == "protocol mismatch: expected "@ + decimal(expected as nat) + ", got "@ + decimal(
            got as nat,
        ),
        ErrorView::AuthRejected.message() == "auth token rejected"@,
        ErrorView::Io(text).message() == "io error: "@ + text,
        ErrorView::Serialization(text).message() == "serialization error: "@ + text,
        ErrorView::Timeout.message() == "timeout waiting for packet response"@,
{
}

} // verus!
