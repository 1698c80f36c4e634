use bytes::BytesMut;

use virus_std::codec::{Decoder, Encoder};
use virus_std::error::{ProtocolError, VirusError};
use virus_std::frame::{decode_head, Frame, FrameCodec, FRAME_HEADER_SIZE, MAX_FRAME_SIZE};
use virus_std::protocol::protocol::MetaData;
use virus_std::protocol::{CompressType, MessageType, RoleType};

fn ping_frame() -> Frame {
    let metadata = MetaData {
        service_name: "hello".to_string(),
        method_name: "ping".to_string(),
        seq_id: 1,
        ..Default::default()
    };
    Frame::new(metadata, b"ping-body".to_vec())
}

fn ping_bytes() -> Vec<u8> {
    let mut bytes = Vec::new();
    bytes.extend_from_slice(b"virus");
    bytes.extend_from_slice(&[0, 0, 0, 15]);
    bytes.extend_from_slice(&[0, 0, 0, 9]);
    bytes.extend_from_slice(&[0x12, 0x05]);
    bytes.extend_from_slice(b"hello");
    bytes.extend_from_slice(&[0x1a, 0x04]);
    bytes.extend_from_slice(b"ping");
    bytes.extend_from_slice(&[0x20, 0x01]);
    bytes.extend_from_slice(b"ping-body");
    bytes
}

fn header(marker: &[u8], metadata_len: u32, payload_len: u32) -> BytesMut {
    let mut buf = BytesMut::new();
    buf.extend_from_slice(marker);
    buf.extend_from_slice(&metadata_len.to_be_bytes());
    buf.extend_from_slice(&payload_len.to_be_bytes());
    buf
}

#[test]
fn test_frame_encode_decode() {
    let metadata = MetaData {
        role: 1,
        service_name: "demo".to_string(),
        method_name: "greeter".to_string(),
        seq_id: 1,
        virus_version: "0.0.1".to_string(),
        compress_type: 0,
        serialize_type: 0,
        message_type: 0,
        origin_size: 0,
        compressed_size: 0,
        values: Vec::new(),
    };

    let value = "Hello World".as_bytes();
    let mut payload = Vec::with_capacity(value.len());
    payload.extend_from_slice(&value);

    let mut codec = FrameCodec::default();

    let frame = Frame::new(metadata.clone(), payload.clone());

    let mut buf = BytesMut::with_capacity(128);

    codec.encode(frame, &mut buf).unwrap();

    // case one: not enough data to decode
    println!(" ===================> case one <======================");

    let mut case_one = BytesMut::with_capacity(12);
    match codec.decode(&mut case_one) {
        Ok(v) => {
            println!("Got {:?}", v); // should match this case
            assert!(v.is_none());
        }
        Err(e) => panic!("unexpected err: {:?}", e.message()),
    };

    // case two: not enough space to decode, then it will trigger reserve, and return None.
    println!(" ===================> case two <======================");

    let mut case_two = BytesMut::with_capacity(25);
    case_two.extend_from_slice(&buf[..20]);

    match codec.decode(&mut case_two) {
        Ok(v) => {
            println!("Ok Got {:?}", v); // should match this case, and get none.
            assert!(v.is_none());
        }
        Err(e) => panic!("unexpected err: {:?}", e.message()),
    };
    assert!(case_two.capacity() >= buf.len());
    case_two.extend_from_slice(&buf[20..]);
    match codec.decode(&mut case_two) {
        Ok(v) => {
            println!("Ok Got {:?}", v); // should match this case, and get data
            assert_eq!(v, Some(Frame::new(metadata.clone(), payload.clone())));
        }
        Err(e) => panic!("unexpected err: {:?}", e.message()),
    };

    // case three: normal decode
    println!(" ===================> case three <======================");
    let decode_frame = codec.decode(&mut buf).unwrap();

    println!("decode frame: {:?}", decode_frame);
    assert_eq!(decode_frame, Some(Frame::new(metadata, payload)));
    assert!(buf.is_empty());
}

#[test]
fn ping_frame_has_the_documented_bytes() {
    let mut codec = FrameCodec::default();
    let mut buf = BytesMut::new();
    codec.encode(ping_frame(), &mut buf).unwrap();
    assert_eq!(&buf[..], &ping_bytes()[..]);
}

#[test]
fn ping_frame_is_read_back_as_it_was_written() {
    let mut codec = FrameCodec::default();
    let mut buf = BytesMut::from(&ping_bytes()[..]);
    let frame = codec.decode(&mut buf).unwrap().unwrap();
    assert_eq!(frame.metadata().service_name, "hello");
    assert_eq!(frame.metadata().method_name, "ping");
    assert_eq!(frame.metadata().seq_id, 1);
    assert_eq!(frame.metadata(), ping_frame().metadata());
    assert_eq!(frame.payload(), &b"ping-body".to_vec());
    assert!(buf.is_empty());
}

#[test]
fn encode_appends_behind_what_the_buffer_holds() {
    let mut codec = FrameCodec::default();
    let mut buf = BytesMut::from(&b"xyz"[..]);
    codec.encode(ping_frame(), &mut buf).unwrap();
    assert_eq!(&buf[..3], b"xyz");
    assert_eq!(&buf[3..], &ping_bytes()[..]);
}

#[test]
fn a_frame_cut_anywhere_is_incomplete_until_its_last_byte() {
    let bytes = ping_bytes();
    let mut codec = FrameCodec::default();
    for cut in 0..bytes.len() {
        let mut buf = BytesMut::new();
        buf.extend_from_slice(&bytes[..cut]);
        assert_eq!(codec.decode(&mut buf), Ok(None), "cut at {}", cut);
        assert_eq!(&buf[..], &bytes[..cut], "cut at {}", cut);
        buf.extend_from_slice(&bytes[cut..]);
        assert_eq!(codec.decode(&mut buf), Ok(Some(ping_frame())), "cut at {}", cut);
        assert!(buf.is_empty());
    }
}

#[test]
fn a_frame_delivered_byte_by_byte_is_the_same_frame() {
    let bytes = ping_bytes();
    let mut codec = FrameCodec::default();
    let mut buf = BytesMut::new();
    for (i, byte) in bytes.iter().enumerate() {
        buf.extend_from_slice(&[*byte]);
        let got = codec.decode(&mut buf).unwrap();
        if i + 1 < bytes.len() {
            assert_eq!(got, None);
        } else {
            assert_eq!(got, Some(ping_frame()));
        }
    }
}

#[test]
fn decode_takes_one_frame_and_leaves_the_next() {
    let mut codec = FrameCodec::default();
    let mut buf = BytesMut::new();
    buf.extend_from_slice(&ping_bytes());
    buf.extend_from_slice(&ping_bytes()[..7]);
    assert_eq!(codec.decode(&mut buf), Ok(Some(ping_frame())));
    assert_eq!(&buf[..], &ping_bytes()[..7]);
    assert_eq!(codec.decode(&mut buf), Ok(None));
}

#[test]
fn fewer_than_thirteen_bytes_are_never_an_error() {
    let mut codec = FrameCodec::default();
    for len in 0..FRAME_HEADER_SIZE {
        let mut buf = BytesMut::from(&vec![0xffu8; len][..]);
        assert_eq!(codec.decode(&mut buf), Ok(None));
        assert_eq!(buf.len(), len);
    }
}

#[test]
fn a_wrong_marker_is_a_protocol_error() {
    let mut codec = FrameCodec::default();
    let mut buf = header(b"viruz", 1, 1);
    assert_eq!(
        codec.decode(&mut buf),
        Err(VirusError::Protocol(ProtocolError::InvalidMarker))
    );
    assert_eq!(buf.len(), 13);
    let mut buf = header(b"Virus", 1, 1);
    assert_eq!(
        codec.decode(&mut buf),
        Err(VirusError::Protocol(ProtocolError::InvalidMarker))
    );
}

#[test]
fn a_zero_length_is_a_protocol_error() {
    let mut codec = FrameCodec::default();
    let mut buf = header(b"virus", 0, 5);
    assert_eq!(
        codec.decode(&mut buf),
        Err(VirusError::Protocol(ProtocolError::ZeroMetadataLength))
    );
    let mut buf = header(b"virus", 5, 0);
    assert_eq!(
        codec.decode(&mut buf),
        Err(VirusError::Protocol(ProtocolError::ZeroPayloadLength))
    );
    let mut buf = header(b"virus", 0, 0);
    assert_eq!(
        codec.decode(&mut buf),
        Err(VirusError::Protocol(ProtocolError::ZeroMetadataLength))
    );
}

#[test]
fn an_oversize_header_is_rejected_before_any_payload_arrives() {
    let mut codec = FrameCodec::default();
    let limit = MAX_FRAME_SIZE as u32;
    // exactly one byte too many
    let mut buf = header(b"virus", 1, limit - 13);
    assert_eq!(
        codec.decode(&mut buf),
        Err(VirusError::Protocol(ProtocolError::FrameTooLong))
    );
    assert_eq!(buf.len(), 13);
    // lengths whose sum does not fit 32 bits
    let mut buf = header(b"virus", u32::MAX, 1);
    assert_eq!(
        codec.decode(&mut buf),
        Err(VirusError::Protocol(ProtocolError::FrameTooLong))
    );
    let mut buf = header(b"virus", u32::MAX, u32::MAX);
    assert_eq!(
        codec.decode(&mut buf),
        Err(VirusError::Protocol(ProtocolError::FrameTooLong))
    );
}

#[test]
fn the_largest_header_is_accepted_and_waits_for_its_frame() {
    let mut codec = FrameCodec::default();
    let limit = MAX_FRAME_SIZE as u32;
    let mut buf = header(b"virus", 1, limit - 14);
    assert_eq!(codec.decode(&mut buf), Ok(None));
    assert_eq!(buf.len(), 13);
    assert!(buf.capacity() >= MAX_FRAME_SIZE);
}

#[test]
fn decode_head_reads_the_lengths_and_consumes_nothing() {
    let buf = BytesMut::from(&ping_bytes()[..]);
    let head = decode_head(&buf).unwrap();
    assert_eq!(head.identifier, "virus");
    assert_eq!(head.metadata_length, 15);
    assert_eq!(head.payload_length, 9);
    assert_eq!(&buf[..], &ping_bytes()[..]);
    let buf = header(b"virus", 0x0001_0203, 0x0000_0405);
    let head = decode_head(&buf).unwrap();
    assert_eq!(head.metadata_length, 0x0001_0203);
    assert_eq!(head.payload_length, 0x0000_0405);
}

#[test]
fn decode_head_names_the_rule_that_is_broken() {
    assert_eq!(
        decode_head(&header(b"VIRUS", 1, 1)).unwrap_err(),
        VirusError::Protocol(ProtocolError::InvalidMarker)
    );
    assert_eq!(
        decode_head(&header(b"virus", 0, 1)).unwrap_err(),
        VirusError::Protocol(ProtocolError::ZeroMetadataLength)
    );
    assert_eq!(
        decode_head(&header(b"virus", 1, 0)).unwrap_err(),
        VirusError::Protocol(ProtocolError::ZeroPayloadLength)
    );
    assert_eq!(
        decode_head(&header(b"virus", 1 << 24, 1)).unwrap_err(),
        VirusError::Protocol(ProtocolError::FrameTooLong)
    );
}

#[test]
fn a_frame_that_is_too_long_is_not_written() {
    let mut codec = FrameCodec::default();
    let metadata = MetaData {
        seq_id: 1,
        ..Default::default()
    };
    // two bytes of metadata and thirteen of header
    let frame = Frame::new(metadata.clone(), vec![7u8; MAX_FRAME_SIZE - 14]);
    let mut buf = BytesMut::from(&b"kept"[..]);
    assert_eq!(
        codec.encode(frame, &mut buf),
        Err(VirusError::Protocol(ProtocolError::FrameTooLong))
    );
    assert_eq!(&buf[..], b"kept");
}

#[test]
fn the_longest_frame_is_written_and_read_back() {
    let mut codec = FrameCodec::default();
    let metadata = MetaData {
        seq_id: 1,
        ..Default::default()
    };
    let frame = Frame::new(metadata.clone(), vec![7u8; MAX_FRAME_SIZE - 15]);
    assert_eq!(frame.len(), MAX_FRAME_SIZE);
    let mut buf = BytesMut::new();
    codec.encode(frame.clone(), &mut buf).unwrap();
    assert_eq!(buf.len(), MAX_FRAME_SIZE);
    assert_eq!(codec.decode(&mut buf), Ok(Some(frame)));
}

#[test]
fn a_frame_with_unreadable_metadata_is_consumed_whole() {
    let mut codec = FrameCodec::default();
    let mut buf = header(b"virus", 2, 3);
    // a key with tag zero is no metadata
    buf.extend_from_slice(&[0x00, 0x00]);
    buf.extend_from_slice(b"abc");
    buf.extend_from_slice(&ping_bytes());
    assert_eq!(codec.decode(&mut buf), Err(VirusError::Decoding));
    assert_eq!(&buf[..], &ping_bytes()[..]);
    assert_eq!(codec.decode(&mut buf), Ok(Some(ping_frame())));
}

#[test]
fn a_frame_without_metadata_bytes_cannot_be_read_back() {
    let mut codec = FrameCodec::default();
    let frame = Frame::new(MetaData::default(), b"x".to_vec());
    let mut buf = BytesMut::new();
    codec.encode(frame, &mut buf).unwrap();
    assert_eq!(
        codec.decode(&mut buf),
        Err(VirusError::Protocol(ProtocolError::ZeroMetadataLength))
    );
}

#[test]
fn the_payload_is_opaque() {
    let mut codec = FrameCodec::default();
    let metadata = MetaData {
        serialize_type: 2,
        ..Default::default()
    };
    for payload in [
        vec![0u8],
        b"virus".to_vec(),
        vec![0xff, 0xfe, 0x00, 0x80],
        ping_bytes(),
    ] {
        let frame = Frame::new(metadata.clone(), payload);
        let mut buf = BytesMut::new();
        codec.encode(frame.clone(), &mut buf).unwrap();
        assert_eq!(codec.decode(&mut buf), Ok(Some(frame)));
    }
}

#[test]
fn frame_lengths_count_the_written_bytes() {
    let frame = ping_frame();
    assert_eq!(frame.metadata_len(), 15);
    assert_eq!(frame.payload_len(), 9);
    assert_eq!(frame.len(), 13 + 15 + 9);
    assert_eq!(frame.len_within(37), Some(37));
    assert_eq!(frame.len_within(36), None);
    assert_eq!(frame.len_within(0), None);
}

#[test]
fn frame_kinds_come_from_the_metadata() {
    let metadata = MetaData {
        role: 2,
        compress_type: 1,
        message_type: 4,
        ..Default::default()
    };
    let frame = Frame::new(metadata, vec![1]);
    assert_eq!(frame.role_type(), RoleType::RoleServer);
    assert_eq!(frame.compress_type(), CompressType::CompressGzip);
    assert_eq!(frame.message_type(), MessageType::MessageHeartbeat);
    let frame = Frame::new(MetaData::default(), vec![1]);
    assert_eq!(frame.role_type(), RoleType::RoleNone);
    assert_eq!(frame.compress_type(), CompressType::CompressNone);
    assert_eq!(frame.message_type(), MessageType::MessageNone);
}

#[test]
fn a_frame_comes_apart_into_what_it_was_made_of() {
    let (metadata, payload) = ping_frame().into_parts();
    assert_eq!(metadata.method_name, "ping");
    assert_eq!(payload, b"ping-body".to_vec());
}
