//! The enumerations carried as integers in a frame's metadata, and the
//! metadata message itself.

pub mod protocol;
pub mod wire;

use vstd::prelude::*;
use vstd::std_specs::convert::FromSpecImpl;

verus! {

/// How a payload is compressed.
#[derive(Debug, Clone, Copy, PartialEq, Eq, PartialOrd, Structural)]
pub enum CompressType {
    CompressNone,
    CompressGzip,
}

/// Which codec wrote a payload.
#[derive(Debug, Clone, Copy, PartialEq, Eq, PartialOrd, Structural)]
pub enum SerializeType {
    SerializeNone,
    SerializeJson,
    SerializeProtobuf,
}

/// What a message is for.
#[derive(Debug, Clone, Copy, PartialEq, Eq, PartialOrd, Structural)]
pub enum MessageType {
    MessageNone,
    MessageRequest,
    MessageResponse,
    MessageNotify,
    MessageHeartbeat,
    MessageError,
}

/// Which side of a connection produced a message.
#[derive(Debug, Clone, Copy, PartialEq, Eq, PartialOrd, Structural)]
pub enum RoleType {
    RoleNone,
    RoleClient,
    RoleServer,
}

impl From<i32> for CompressType {
    /// 1 is gzip; every other number means no compression.
    fn from(value: i32) -> (r: Self) {
        match value {
            1 => CompressType::CompressGzip,
            _ => CompressType::CompressNone,
        }
    }
}

impl CompressType {
    /// The meaning of a number carried in the metadata.
    pub open spec fn of(value: i32) -> Self {
        if value == 1 {
            CompressType::CompressGzip
        } else {
            CompressType::CompressNone
        }
    }
}

impl FromSpecImpl<i32> for CompressType {
    open spec fn obeys_from_spec() -> bool {
        true
    }

    open spec fn from_spec(value: i32) -> Self {
        Self::of(value)
    }
}

impl From<i32> for SerializeType {
    /// 1 is JSON, 2 is protobuf; every other number means none.
    fn from(value: i32) -> (r: Self) {
        match value {
            1 => SerializeType::SerializeJson,
            2 => SerializeType::SerializeProtobuf,
            _ => SerializeType::SerializeNone,
        }
    }
}

impl SerializeType {
    /// The meaning of a number carried in the metadata.
    pub open spec fn of(value: i32) -> Self {
        if value == 1 {
            SerializeType::SerializeJson
        } else if value == 2 {
            SerializeType::SerializeProtobuf
        } else {
            SerializeType::SerializeNone
        }
    }
}

impl FromSpecImpl<i32> for SerializeType {
    open spec fn obeys_from_spec() -> bool {
        true
    }

    open spec fn from_spec(value: i32) -> Self {
        Self::of(value)
    }
}

impl From<i32> for MessageType {
    /// 1 to 5 are request, response, notify, heartbeat and error; every other
    /// number means none.
    fn from(value: i32) -> (r: Self) {
        match value {
            1 => MessageType::MessageRequest,
            2 => MessageType::MessageResponse,
            3 => MessageType::MessageNotify,
            4 => MessageType::MessageHeartbeat,
            5 => MessageType::MessageError,
            _ => MessageType::MessageNone,
        }
    }
}

impl MessageType {
    /// The meaning of a number carried in the metadata.
    pub open spec fn of(value: i32) -> Self {
        if value == 1 {
            MessageType::MessageRequest
        } else if value == 2 {
            MessageType::MessageResponse
        } else if value == 3 {
            MessageType::MessageNotify
        } else if value == 4 {
            MessageType::MessageHeartbeat
        } else if value == 5 {
            MessageType::MessageError
        } else {
            MessageType::MessageNone
        }
    }
}

impl FromSpecImpl<i32> for MessageType {
    open spec fn obeys_from_spec() -> bool {
        true
    }

    open spec fn from_spec(value: i32) -> Self {
        Self::of(value)
    }
}

impl From<i32> for RoleType {
    /// 1 is the client, 2 the server; every other number means none.
    fn from(value: i32) -> (r: Self) {
        match value {
            1 => RoleType::RoleClient,
            2 => RoleType::RoleServer,
            _ => RoleType::RoleNone,
        }
    }
}

impl RoleType {
    /// The meaning of a number carried in the metadata.
    pub open spec fn of(value: i32) -> Self {
        if value == 1 {
            RoleType::RoleClient
        } else if value == 2 {
            RoleType::RoleServer
        } else {
            RoleType::RoleNone
        }
    }
}

impl FromSpecImpl<i32> for RoleType {
    open spec fn obeys_from_spec() -> bool {
        true
    }

    open spec fn from_spec(value: i32) -> Self {
        Self::of(value)
    }
}

} // verus!
