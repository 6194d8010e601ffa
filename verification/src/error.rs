//! What can go wrong on a serial connection.
use crate::number::{decimal, decimal_text};
use crate::text::owned;
use vstd::prelude::*;

verus! {

/// What went wrong on a serial connection.
#[derive(Clone, Debug)]
pub enum SerialError {
    /// The connection could not be made.
    ConnectionFailed(String),
    /// The far end broke the rules of the negotiation.
    TelnetNegotiation(String),
    /// The far end did not answer in time.
    NegotiationTimeout,
    /// The far end took another speed than the one asked for.
    BaudMismatch { requested: u32, actual: u32 },
    /// The configuration cannot be used.
    InvalidConfig(String),
    /// The operating system reported an error.
    Io(String),
}

impl SerialError {
    /// The category under which the error is counted.
    pub open spec fn category_of(self) -> Seq<char> {
        match self {
            SerialError::ConnectionFailed(_) => "connection"@,
            SerialError::NegotiationTimeout => "communication"@,
            SerialError::TelnetNegotiation(_) => "communication"@,
            SerialError::BaudMismatch { .. } => "communication"@,
            SerialError::InvalidConfig(_) => "configuration"@,
            SerialError::Io(_) => "system"@,
        }
    }

    /// What the error says.
    pub open spec fn message_of(self) -> Seq<char> {
        match self {
            SerialError::ConnectionFailed(m) => "Connection failed: "@ + m@,
            SerialError::TelnetNegotiation(m) => "RFC 2217 negotiation error: "@ + m@,
            SerialError::NegotiationTimeout => "RFC 2217 negotiation/ack timed out"@,
            SerialError::BaudMismatch { requested, actual } => "Baud rate mismatch: requested "@
                + decimal(requested as nat) + ", server applied "@ + decimal(actual as nat),
            SerialError::InvalidConfig(m) => "Invalid configuration: "@ + m@,
            SerialError::Io(m) => "I/O error: "@ + m@,
        }
    }

    /// The category under which the error is counted.
    pub fn category(&self) -> (r: &'static str)
        ensures
            r@ == self.category_of(),
    {
        match self {
            SerialError::ConnectionFailed(_) => "connection",
            SerialError::NegotiationTimeout => "communication",
            SerialError::TelnetNegotiation(_) => "communication",
            SerialError::BaudMismatch { .. } => "communication",
            SerialError::InvalidConfig(_) => "configuration",
            SerialError::Io(_) => "system",
        }
    }

    /// What the error says.
    pub fn message(&self) -> (r: String)
        ensures
            r@ == self.message_of(),
    {
        match self {
            SerialError::ConnectionFailed(m) => prefixed("Connection failed: ", m.as_str()),
            SerialError::TelnetNegotiation(m) => prefixed(
                "RFC 2217 negotiation error: ",
                m.as_str(),
            ),
            SerialError::NegotiationTimeout => owned("RFC 2217 negotiation/ack timed out"),
            SerialError::BaudMismatch { requested, actual } => {
                let mut r = owned("Baud rate mismatch: requested ");
                let asked = decimal_text(*requested as u64);
                r.append(asked.as_str());
                r.append(", server applied ");
                let taken = decimal_text(*actual as u64);
                r.append(taken.as_str());
                r
            },
            SerialError::InvalidConfig(m) => prefixed("Invalid configuration: ", m.as_str()),
            SerialError::Io(m) => prefixed("I/O error: ", m.as_str()),
        }
    }
}

fn prefixed(front: &str, rest: &str) -> (r: String)
    ensures
        r@ == front@ + rest@,
{
    let mut r = owned(front);
    r.append(rest);
    r
}

} // verus!
