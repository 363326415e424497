//! The failures that every component of the crate reports.

use vstd::prelude::*;

verus! {

/// The ways in which input and output fail, as the standard library tells them apart. Nothing
/// is read out of such a value here: it is handed on as it came.
#[verifier::external_type_specification]
#[verifier::external_body]
pub struct ExErrorKind(std::io::ErrorKind);

/// Everything that can go wrong inside the crate.
#[derive(Debug, Clone, Copy, PartialEq, Eq)]
pub enum Error {
    /// A database message arrived where the protocol does not allow it.
    UnexpectedDatabaseMessage {
        /// Tag of the offending message.
        received: u8,
    },
    /// A buffer was asked to take a shape that its contents do not allow.
    UnexpectedBufferState,
    /// Bytes could not be turned into the expected value.
    UnexpectedValueFromBytes,
    /// A composite message lacks one of its mandatory fields.
    NoInnerValue(&'static str),
    /// The server refused to switch to an encrypted channel.
    ServerDoesNotSupportEncryption,
    /// A query that must yield one record yielded none.
    NoRecord,
    /// A transaction was requested while another one is still open.
    TransactionAlreadyOpen,
    /// The connection was closed by an earlier failure or by the peer.
    ClosedConnection,
    /// The server reported a failure while processing a command.
    DatabaseError {
        /// If the severity makes the connection unusable.
        is_fatal: bool,
        /// The SQLSTATE code of the failure.
        code: [u8; 5],
    },
    /// A value could not be spelled out by its formatter.
    FormatError,
    /// Memory could not be obtained.
    AllocationError,
    /// A size computation does not fit into the address space.
    CapacityOverflow,
    /// The underlying stream failed, in the way that the standard library tells.
    Io(std::io::ErrorKind),
    /// The server could not prove that it knows the password.
    SaslVerificationFailed,
    /// The server asked for a channel binding that is not available.
    InvalidEndpointBinding,
    /// The request path does not match the route it was dispatched to.
    UriMismatch,
    /// A mandatory header is absent.
    MissingHeader,
    /// A header is larger than the configured limit.
    HeaderTooLong,
    /// Bytes that should hold a decimal number hold something else.
    AtoiInvalidBytes,
    /// A WebSocket frame breaks the framing rules.
    WebSocketProtocol(WebSocketError),
}

/// The ways in which a WebSocket peer can break the framing rules.
#[derive(Debug, Clone, Copy, PartialEq, Eq)]
pub enum WebSocketError {
    /// No more frames can be written because the closing handshake started.
    ConnectionClosed,
    /// One of the second or third reserved bits is set.
    ReservedBitsAreNotZero,
    /// The first reserved bit is set although no compression was negotiated, or on a frame that
    /// can not carry it.
    UnexpectedCompressionBit,
    /// The operation code is not one of the six known codes.
    InvalidOpCode,
    /// The masking bit does not fit the role of the sender.
    InvalidMaskBit,
    /// A control frame is fragmented or carries more than 125 bytes.
    InvalidControlFrame,
    /// A continuation frame arrived although no message is being assembled.
    UnexpectedContinuation,
    /// A new data frame arrived while another message is still being assembled.
    UnexpectedDataFrame,
    /// The frame announces more bytes than the configured limit.
    FrameTooLarge,
    /// The length was not written in its shortest form or exceeds 63 bits.
    InvalidPayloadLength,
    /// A close frame carries a single byte or a status code outside the permitted ranges.
    InvalidCloseFrame,
    /// A compressed message can not be decompressed.
    InvalidCompressedData,
}

} // verus!
