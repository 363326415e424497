//! What a frame is for.

use crate::error::{Error, WebSocketError};
use vstd::prelude::*;

verus! {

/// Defines how to interpret the payload data.
#[derive(Debug, Clone, Copy, PartialEq, Eq, Structural)]
pub enum OpCode {
    /// Continuation of a previous frame.
    Continuation,
    /// UTF-8 text.
    Text,
    /// Opaque bytes.
    Binary,
    /// Connection is closed.
    Close,
    /// Test reachability.
    Ping,
    /// Response of a ping frame.
    Pong,
}

impl OpCode {
    /// The four bits that stand for the code on the wire.
    pub open spec fn spec_bits(self) -> u8 {
        match self {
            OpCode::Continuation => 0,
            OpCode::Text => 1,
            OpCode::Binary => 2,
            OpCode::Close => 8,
            OpCode::Ping => 9,
            OpCode::Pong => 10,
        }
    }

    /// The code that `bits` stand for, if they stand for one.
    pub open spec fn spec_from_bits(bits: u8) -> Option<OpCode> {
        if bits == 0 {
            Some(OpCode::Continuation)
        } else if bits == 1 {
            Some(OpCode::Text)
        } else if bits == 2 {
            Some(OpCode::Binary)
        } else if bits == 8 {
            Some(OpCode::Close)
        } else if bits == 9 {
            Some(OpCode::Ping)
        } else if bits == 10 {
            Some(OpCode::Pong)
        } else {
            None
        }
    }

    /// If the code belongs to a frame that steers the connection instead of carrying data.
    pub open spec fn spec_is_control(self) -> bool {
        self == OpCode::Close || self == OpCode::Ping || self == OpCode::Pong
    }

    /// The four bits that stand for the code on the wire.
    pub fn bits(self) -> (r: u8)
        ensures
            r == self.spec_bits(),
            r < 16,
    {
        match self {
            OpCode::Continuation => 0,
            OpCode::Text => 1,
            OpCode::Binary => 2,
            OpCode::Close => 8,
            OpCode::Ping => 9,
            OpCode::Pong => 10,
        }
    }

    /// Reads a code from its four bits. The reserved codes are refused.
    pub fn from_bits(bits: u8) -> (r: Result<OpCode, Error>)
        ensures
            match r {
                Ok(op_code) => Self::spec_from_bits(bits) == Some(op_code),
                Err(e) => Self::spec_from_bits(bits) is None && e == Error::WebSocketProtocol(
                    WebSocketError::InvalidOpCode,
                ),
            },
    {
        if bits == 0 {
            Ok(OpCode::Continuation)
        } else if bits == 1 {
            Ok(OpCode::Text)
        } else if bits == 2 {
            Ok(OpCode::Binary)
        } else if bits == 8 {
            Ok(OpCode::Close)
        } else if bits == 9 {
            Ok(OpCode::Ping)
        } else if bits == 10 {
            Ok(OpCode::Pong)
        } else {
            Err(Error::WebSocketProtocol(WebSocketError::InvalidOpCode))
        }
    }

    /// If the code belongs to a frame that steers the connection instead of carrying data.
    pub fn is_control(self) -> (r: bool)
        ensures
            r == self.spec_is_control(),
    {
        match self {
            OpCode::Close => true,
            OpCode::Ping => true,
            OpCode::Pong => true,
            _ => false,
        }
    }
}

/// A code is read back from its bits.
pub proof fn lemma_bits_round_trip(op_code: OpCode)
    ensures
        OpCode::spec_from_bits(op_code.spec_bits()) == Some(op_code),
{
}

} // verus!
