//! Error taxonomy of the client: transport, serialization, protocol and
//! server-reported failures.

use vstd::prelude::*;
use crate::types::WampDict;

verus! {

/// Failures of the wire transports
#[derive(Debug)]
pub enum TransportError {
    /// Server hit the maximum connection count
    MaximumServerConn,
    /// Server responded with unexpected data
    UnexpectedResponse,
    /// The requested serializer is not supported by the server
    SerializerNotSupported(String),
    /// The server did not accept the maximum payload size
    InvalidMaximumMsgSize(u32),
    /// Failed to negotiate a connection with the server
    ConnectionFailed,
    /// Failed to send a message to the peer
    SendFailed,
    /// Failed to receive a message from the peer
    ReceiveFailed,
}

/// Failures of the codecs
#[derive(Debug)]
pub enum SerializerError {
    /// Failed to serialize a message
    Serialization(String),
    /// Failed to deserialize a message
    Deserialization(String),
    /// Unknown serializer specified
    UnknownSerializer(String),
}

/// Types of errors a WAMP client can encounter
#[derive(Debug)]
pub enum WampError {
    /// A string-wrapped catch-all for conditions that should not occur
    UnknownError(String),
    /// Error with the connection
    ConnectionError(TransportError),
    /// Error while serializing or deserializing a message
    SerializationError(SerializerError),
    /// The connection uri could not be parsed
    InvalidUri(String),
    /// The connection uri did not contain a host address
    NoHostInUri,
    /// The WAMP protocol was not respected by the peer
    ProtocolError(String),
    /// The client was dropped while the event loop was running
    ClientDied,
    /// A fresh request ID could not be drawn
    RequestIdCollision,
    /// The server sent an ERROR message: the error uri and its details
    ServerError(String, WampDict),
}

} // verus!
