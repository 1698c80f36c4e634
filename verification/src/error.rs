//! The error taxonomy shared by every layer of the crate.

use vstd::prelude::*;
use vstd::string::StringExecFns;

verus! {

/// A violation of the framing rules found in a frame header.  Always fatal to
/// the connection: no amount of further data can repair it.
#[derive(Debug, Clone, Copy, PartialEq, Eq, Structural)]
pub enum ProtocolError {
    /// The first five bytes are not the frame marker.
    InvalidMarker,
    /// The header declares a metadata block of zero bytes.
    ZeroMetadataLength,
    /// The header declares a payload of zero bytes.
    ZeroPayloadLength,
    /// Header, metadata and payload together exceed the maximum frame size.
    FrameTooLong,
}

/// Every failure the crate reports.
#[derive(Debug, Clone, Copy, PartialEq, Eq, Structural)]
pub enum VirusError {
    /// The byte stream does not follow the framing rules.
    Protocol(ProtocolError),
    /// The stream ended while a frame was only partially received.
    PeerReset,
    /// A codec could not turn a value into bytes.
    Encoding,
    /// A codec could not turn the bytes of a well-delimited block into a value.
    Decoding,
}

impl ProtocolError {
    /// The human-readable description of the violation.
    pub fn message(&self) -> (s: String)
        ensures
            s@ == match *self {
                ProtocolError::InvalidMarker => "invalid protocol"@,
                ProtocolError::ZeroMetadataLength => "invalid metadata length"@,
                ProtocolError::ZeroPayloadLength => "invalid payload length"@,
                ProtocolError::FrameTooLong => "Frame size is too long"@,
            },
    {
        match self {
            ProtocolError::InvalidMarker => String::from_str("invalid protocol"),
            ProtocolError::ZeroMetadataLength => String::from_str("invalid metadata length"),
            ProtocolError::ZeroPayloadLength => String::from_str("invalid payload length"),
            ProtocolError::FrameTooLong => String::from_str("Frame size is too long"),
        }
    }
}

impl VirusError {
    /// Whether the error is a framing violation, which ends the connection.
    pub fn is_protocol_error(&self) -> (b: bool)
        ensures
            b == (*self is Protocol),
    {
        match self {
            VirusError::Protocol(_) => true,
            _ => false,
        }
    }

    /// Whether the connection has to be closed after this error.  Framing
    /// violations and a peer reset are fatal; a codec failure concerns one
    /// message only, because the frame boundaries around it stay intact.
    pub fn is_fatal(&self) -> (b: bool)
        ensures
            b == (*self is Protocol || *self is PeerReset),
    {
        match self {
            VirusError::Protocol(_) => true,
            VirusError::PeerReset => true,
            VirusError::Encoding => false,
            VirusError::Decoding => false,
        }
    }

    /// The human-readable description of the error.
    pub fn message(&self) -> (s: String)
        ensures
            s@ == match *self {
                VirusError::Protocol(e) => match e {
                    ProtocolError::InvalidMarker => "invalid protocol"@,
                    ProtocolError::ZeroMetadataLength => "invalid metadata length"@,
                    ProtocolError::ZeroPayloadLength => "invalid payload length"@,
                    ProtocolError::FrameTooLong => "Frame size is too long"@,
                },
                VirusError::PeerReset => "connection reset by peer"@,
                VirusError::Encoding => "failed to encode message"@,
                VirusError::Decoding => "failed to decode message"@,
            },
    {
        match self {
            VirusError::Protocol(e) => e.message(),
            VirusError::PeerReset => String::from_str("connection reset by peer"),
            VirusError::Encoding => String::from_str("failed to encode message"),
            VirusError::Decoding => String::from_str("failed to decode message"),
        }
    }
}

} // verus!
