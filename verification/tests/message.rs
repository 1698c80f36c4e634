use bytes::BytesMut;

use virus_std::error::{ProtocolError, VirusError};
use virus_std::frame::MAX_FRAME_SIZE;
use virus_std::message::{decode, encode, Message};
use virus_std::protocol::protocol::{Demo, MetaData};
use virus_std::protocol::{CompressType, MessageType, RoleType};

#[test]
fn test_message_encode_decode() {
    let mut buf = BytesMut::with_capacity(256);

    let metadata = MetaData {
        role: RoleType::RoleClient as i32,
        service_name: "hello".to_string(),
        method_name: "ping".to_string(),
        ..Default::default()
    };

    let body = Demo {
        field1: "David".to_string(),
        field2: 17,
    };

    let v1 = Message::new(metadata.clone(), body.clone());

    encode(v1, &mut buf).unwrap();

    println!("encode message length: {}", buf.len());
    assert_eq!(buf.len(), 13 + 15 + 9);

    let v2: Option<Message<Demo>> = decode(&mut buf).unwrap();

    println!("{:?}", v2);
    let v2 = v2.unwrap();
    assert_eq!(v2.metadata(), &metadata);
    assert_eq!(v2.body(), &body);
    assert!(buf.is_empty());
}

#[test]
fn test_message_method() {
    let metadata = MetaData {
        role: RoleType::RoleClient as i32,
        service_name: "hello".to_string(),
        method_name: "ping".to_string(),
        ..Default::default()
    };

    let body = Demo {
        field1: "David".to_string(),
        field2: 17,
    };

    let v1 = Message::new(metadata, body);

    println!("body length: {:?}", v1.body_length());
    println!("meta length: {:?}", v1.meta_length());
    assert_eq!(v1.body_length(), 9);
    assert_eq!(v1.meta_length(), 15);
}

#[test]
fn message_bytes_are_a_frame_with_the_body_as_payload() {
    let mut buf = BytesMut::new();
    let metadata = MetaData {
        seq_id: 3,
        ..Default::default()
    };
    let body = Demo {
        field1: "a".to_string(),
        field2: 1,
    };
    encode(Message::new(metadata, body), &mut buf).unwrap();
    assert_eq!(
        &buf[..],
        &[
            b'v', b'i', b'r', b'u', b's', 0, 0, 0, 2, 0, 0, 0, 5, 0x20, 0x03, 0x0a, 0x01, b'a',
            0x10, 0x01
        ]
    );
}

#[test]
fn an_incomplete_message_consumes_nothing() {
    let mut buf = BytesMut::from(&b"virus\x00\x00\x00\x02\x00\x00\x00\x05\x20\x03\x0a"[..]);
    let before = buf.clone();
    let got: Option<Message<Demo>> = decode(&mut buf).unwrap();
    assert!(got.is_none());
    assert_eq!(buf, before);
}

#[test]
fn a_body_that_cannot_be_read_is_a_decoding_error_and_the_frame_is_gone() {
    let mut buf = BytesMut::new();
    buf.extend_from_slice(b"virus\x00\x00\x00\x02\x00\x00\x00\x02\x20\x03");
    // a string field that overruns the payload
    buf.extend_from_slice(&[0x0a, 0x09]);
    buf.extend_from_slice(b"next");
    let got: Result<Option<Message<Demo>>, VirusError> = decode(&mut buf);
    assert_eq!(got.unwrap_err(), VirusError::Decoding);
    assert_eq!(&buf[..], b"next");
}

#[test]
fn a_message_with_a_wrong_marker_is_a_protocol_error() {
    let mut buf = BytesMut::from(&b"VIRUS\x00\x00\x00\x02\x00\x00\x00\x05\x20\x03"[..]);
    let got: Result<Option<Message<Demo>>, VirusError> = decode(&mut buf);
    assert_eq!(
        got.unwrap_err(),
        VirusError::Protocol(ProtocolError::InvalidMarker)
    );
}

#[test]
fn a_message_that_is_too_long_is_not_written() {
    let mut buf = BytesMut::new();
    let metadata = MetaData {
        seq_id: 3,
        ..Default::default()
    };
    let body = Demo {
        field1: "a".repeat(MAX_FRAME_SIZE),
        field2: 1,
    };
    assert_eq!(
        encode(Message::new(metadata, body), &mut buf),
        Err(VirusError::Protocol(ProtocolError::FrameTooLong))
    );
    assert!(buf.is_empty());
}

#[test]
fn message_kinds_come_from_the_metadata() {
    let metadata = MetaData {
        role: 1,
        compress_type: 1,
        message_type: 2,
        ..Default::default()
    };
    let message = Message::new(metadata, Demo::default());
    assert_eq!(message.role_type(), RoleType::RoleClient);
    assert_eq!(message.compress_type(), CompressType::CompressGzip);
    assert_eq!(message.message_type(), MessageType::MessageResponse);
}

#[test]
fn entries_are_set_and_got_by_key() {
    let mut message = Message::new(MetaData::default(), Demo::default());
    let key = "trace".to_string();
    assert_eq!(message.get(&key), None);
    assert_eq!(message.set(key.clone(), "1".to_string()), None);
    assert_eq!(message.get(&key), Some(&"1".to_string()));
    assert_eq!(
        message.set(key.clone(), "2".to_string()),
        Some("1".to_string())
    );
    assert_eq!(message.get(&key), Some(&"2".to_string()));
    assert_eq!(message.set("other".to_string(), "x".to_string()), None);
    assert_eq!(message.get(&key), Some(&"2".to_string()));
    assert_eq!(
        message.metadata().values,
        vec![
            ("trace".to_string(), "2".to_string()),
            ("other".to_string(), "x".to_string())
        ]
    );
}

#[test]
fn the_first_of_two_entries_with_one_key_is_the_one_that_counts() {
    let metadata = MetaData {
        values: vec![
            ("k".to_string(), "first".to_string()),
            ("k".to_string(), "second".to_string()),
        ],
        ..Default::default()
    };
    let mut message = Message::new(metadata, Demo::default());
    let key = "k".to_string();
    assert_eq!(message.get(&key), Some(&"first".to_string()));
    assert_eq!(
        message.set(key.clone(), "new".to_string()),
        Some("first".to_string())
    );
    assert_eq!(message.get(&key), Some(&"new".to_string()));
}
