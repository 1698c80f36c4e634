use virus_std::error::{ProtocolError, VirusError};
use virus_std::protocol::{CompressType, MessageType, RoleType, SerializeType};

#[test]
fn enum_to_i32() {
    println!("{}", CompressType::CompressNone as i32)
}

#[test]
fn i32_into_enum() {
    assert_eq!(MessageType::MessageNotify, 3.into())
}

#[test]
fn enums_count_from_zero() {
    assert_eq!(CompressType::CompressNone as i32, 0);
    assert_eq!(CompressType::CompressGzip as i32, 1);
    assert_eq!(SerializeType::SerializeNone as i32, 0);
    assert_eq!(SerializeType::SerializeJson as i32, 1);
    assert_eq!(SerializeType::SerializeProtobuf as i32, 2);
    assert_eq!(MessageType::MessageNone as i32, 0);
    assert_eq!(MessageType::MessageRequest as i32, 1);
    assert_eq!(MessageType::MessageResponse as i32, 2);
    assert_eq!(MessageType::MessageNotify as i32, 3);
    assert_eq!(MessageType::MessageHeartbeat as i32, 4);
    assert_eq!(MessageType::MessageError as i32, 5);
    assert_eq!(RoleType::RoleNone as i32, 0);
    assert_eq!(RoleType::RoleClient as i32, 1);
    assert_eq!(RoleType::RoleServer as i32, 2);
}

#[test]
fn every_known_number_has_its_meaning() {
    assert_eq!(CompressType::from(1), CompressType::CompressGzip);
    assert_eq!(SerializeType::from(1), SerializeType::SerializeJson);
    assert_eq!(SerializeType::from(2), SerializeType::SerializeProtobuf);
    assert_eq!(MessageType::from(1), MessageType::MessageRequest);
    assert_eq!(MessageType::from(2), MessageType::MessageResponse);
    assert_eq!(MessageType::from(3), MessageType::MessageNotify);
    assert_eq!(MessageType::from(4), MessageType::MessageHeartbeat);
    assert_eq!(MessageType::from(5), MessageType::MessageError);
    assert_eq!(RoleType::from(1), RoleType::RoleClient);
    assert_eq!(RoleType::from(2), RoleType::RoleServer);
}

#[test]
fn every_other_number_means_none() {
    for n in [0, -1, 6, 100, i32::MIN, i32::MAX] {
        assert_eq!(MessageType::from(n), MessageType::MessageNone);
    }
    for n in [0, -1, 3, i32::MAX] {
        assert_eq!(SerializeType::from(n), SerializeType::SerializeNone);
        assert_eq!(RoleType::from(n), RoleType::RoleNone);
    }
    for n in [0, -1, 2, i32::MAX] {
        assert_eq!(CompressType::from(n), CompressType::CompressNone);
    }
}

#[test]
fn errors_describe_themselves() {
    assert_eq!(
        VirusError::Protocol(ProtocolError::InvalidMarker).message(),
        "invalid protocol"
    );
    assert_eq!(
        VirusError::Protocol(ProtocolError::ZeroMetadataLength).message(),
        "invalid metadata length"
    );
    assert_eq!(
        VirusError::Protocol(ProtocolError::ZeroPayloadLength).message(),
        "invalid payload length"
    );
    assert_eq!(
        VirusError::Protocol(ProtocolError::FrameTooLong).message(),
        "Frame size is too long"
    );
    assert_eq!(VirusError::PeerReset.message(), "connection reset by peer");
    assert_eq!(VirusError::Encoding.message(), "failed to encode message");
    assert_eq!(VirusError::Decoding.message(), "failed to decode message");
    assert_eq!(ProtocolError::InvalidMarker.message(), "invalid protocol");
}

#[test]
fn protocol_errors_and_resets_are_fatal() {
    assert!(VirusError::Protocol(ProtocolError::FrameTooLong).is_fatal());
    assert!(VirusError::Protocol(ProtocolError::FrameTooLong).is_protocol_error());
    assert!(VirusError::PeerReset.is_fatal());
    assert!(!VirusError::PeerReset.is_protocol_error());
    assert!(!VirusError::Encoding.is_fatal());
    assert!(!VirusError::Decoding.is_fatal());
    assert!(!VirusError::Decoding.is_protocol_error());
}
