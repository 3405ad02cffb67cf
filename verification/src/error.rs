//! The kinds of failure a request, a connection or a handshake can end in.

use vstd::prelude::*;

verus! {

/// Why a request, a connection or a handshake failed.
#[derive(Clone, Copy, Debug, PartialEq, Eq, Structural)]
pub enum RespError {
    /// The input holds no bytes at all.
    EmptyRequest,
    /// The input is not a well-formed array of bulk strings.
    MalformedRequest,
    /// The frame is well-formed but names no command of the fixed set.
    UnsupportedCommand,
    /// The command is known but came with the wrong number of parameters.
    ArityError,
    /// Reading, writing or connecting a socket failed.
    IoFailure,
    /// A handshake step did not receive the reply it expects.
    HandshakeFailure,
}

impl RespError {
    /// The text of this error, as it is logged.
    pub open spec fn message_text(self) -> Seq<char> {
        match self {
            RespError::EmptyRequest => "request has byte count of 0"@,
            RespError::MalformedRequest => "command malformed"@,
            RespError::UnsupportedCommand => "unknown or not implemented command"@,
            RespError::ArityError => "wrong number of arguments"@,
            RespError::IoFailure => "socket failure"@,
            RespError::HandshakeFailure => "handshake with master failed"@,
        }
    }

    /// Describes the error in words.
    pub fn message(&self) -> (text: &'static str)
        ensures
            text@ == self.message_text(),
    {
        match self {
            RespError::EmptyRequest => "request has byte count of 0",
            RespError::MalformedRequest => "command malformed",
            RespError::UnsupportedCommand => "unknown or not implemented command",
            RespError::ArityError => "wrong number of arguments",
            RespError::IoFailure => "socket failure",
            RespError::HandshakeFailure => "handshake with master failed",
        }
    }
}

} // verus!
