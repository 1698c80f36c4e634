use virus_std::connection::{Driver, ReadAction, ReadEvent};
use virus_std::error::{ProtocolError, VirusError};
use virus_std::frame::{Frame, MAX_FRAME_SIZE};
use virus_std::protocol::protocol::MetaData;

fn frame(seq_id: u64, payload: &[u8]) -> Frame {
    let metadata = MetaData {
        seq_id,
        ..Default::default()
    };
    Frame::new(metadata, payload.to_vec())
}

fn bytes_of(frame: Frame) -> Vec<u8> {
    let mut driver = Driver::new();
    driver.stage(frame).unwrap();
    driver.staged()
}

fn delivered(action: Result<ReadAction, VirusError>) -> Frame {
    match action {
        Ok(ReadAction::Deliver(frame)) => frame,
        other => panic!("no frame: {:?}", other),
    }
}

#[test]
fn a_stream_that_ends_between_frames_is_a_clean_shutdown() {
    let mut driver = Driver::new();
    assert!(matches!(driver.on_read(ReadEvent::Start), Ok(ReadAction::Read)));
    assert!(matches!(driver.on_read(ReadEvent::Closed), Ok(ReadAction::End)));
}

#[test]
fn a_stream_that_ends_after_a_whole_frame_is_a_clean_shutdown() {
    let mut driver = Driver::new();
    let bytes = bytes_of(frame(1, b"one"));
    assert_eq!(delivered(driver.on_read(ReadEvent::Data(&bytes))), frame(1, b"one"));
    assert!(matches!(driver.on_read(ReadEvent::Start), Ok(ReadAction::Read)));
    assert!(matches!(driver.on_read(ReadEvent::Closed), Ok(ReadAction::End)));
}

#[test]
fn a_stream_that_ends_inside_a_frame_is_a_peer_reset() {
    let bytes = bytes_of(frame(1, b"one"));
    for cut in 1..bytes.len() {
        let mut driver = Driver::new();
        assert!(matches!(
            driver.on_read(ReadEvent::Data(&bytes[..cut])),
            Ok(ReadAction::Read)
        ));
        assert_eq!(
            driver.on_read(ReadEvent::Closed).unwrap_err(),
            VirusError::PeerReset
        );
    }
}

#[test]
fn frames_are_delivered_one_by_one_however_the_bytes_arrive() {
    let mut all = bytes_of(frame(1, b"one"));
    all.extend_from_slice(&bytes_of(frame(2, b"two")));
    all.extend_from_slice(&bytes_of(frame(3, b"three")));
    for chunk in [1, 2, 5, 13, 14, 40, all.len()] {
        let mut driver = Driver::new();
        let mut got = Vec::new();
        for piece in all.chunks(chunk) {
            let mut action = driver.on_read(ReadEvent::Data(piece));
            loop {
                match action {
                    Ok(ReadAction::Deliver(f)) => got.push(f),
                    Ok(ReadAction::Read) => break,
                    other => panic!("unexpected: {:?}", other),
                }
                action = driver.on_read(ReadEvent::Start);
            }
        }
        assert_eq!(got, vec![frame(1, b"one"), frame(2, b"two"), frame(3, b"three")]);
        assert!(matches!(driver.on_read(ReadEvent::Closed), Ok(ReadAction::End)));
    }
}

#[test]
fn a_protocol_error_is_reported_by_the_driver() {
    let mut driver = Driver::new();
    assert_eq!(
        driver
            .on_read(ReadEvent::Data(b"VIRUS\x00\x00\x00\x01\x00\x00\x00\x01"))
            .unwrap_err(),
        VirusError::Protocol(ProtocolError::InvalidMarker)
    );
}

#[test]
fn staged_frames_wait_until_they_are_written() {
    let mut driver = Driver::new();
    assert!(driver.staged().is_empty());
    driver.stage(frame(1, b"one")).unwrap();
    let first = driver.staged();
    assert_eq!(&first[..5], b"virus");
    driver.stage(frame(2, b"two")).unwrap();
    let both = driver.staged();
    assert_eq!(&both[..first.len()], &first[..]);
    assert_eq!(&both[first.len()..], &bytes_of(frame(2, b"two"))[..]);
    driver.written();
    assert!(driver.staged().is_empty());
}

#[test]
fn a_frame_that_is_too_long_is_not_staged() {
    let mut driver = Driver::new();
    driver.stage(frame(1, b"one")).unwrap();
    let before = driver.staged();
    assert_eq!(
        driver.stage(frame(1, &vec![0u8; MAX_FRAME_SIZE])),
        Err(VirusError::Protocol(ProtocolError::FrameTooLong))
    );
    assert_eq!(driver.staged(), before);
}

#[test]
fn reading_and_writing_do_not_touch_each_other() {
    let mut driver = Driver::new();
    driver.stage(frame(9, b"out")).unwrap();
    let bytes = bytes_of(frame(1, b"in"));
    assert_eq!(delivered(driver.on_read(ReadEvent::Data(&bytes))), frame(1, b"in"));
    assert_eq!(driver.staged(), bytes_of(frame(9, b"out")));
    driver.written();
    assert!(matches!(driver.on_read(ReadEvent::Closed), Ok(ReadAction::End)));
}
