//! Stream decoder: round trips, incremental delivery, pipelining, and
//! rejection of invalid or oversized headers.

use chat::reader::to_binary;
use chat::reader::Kind;
use chat::reader::Reader;
use chat::reader::ReaderError;

#[test]
fn round_trip_data_frame() {
    let payload = vec![104u8, 101, 108, 108, 111]; // "hello"
    let frame = to_binary(&payload, Kind::Data);
    let mut reader = Reader::new();
    reader.feed(&frame);
    let msg = reader.parse().unwrap().unwrap();
    assert_eq!(msg.kind(), Kind::Data);
    assert_eq!(msg.message(), payload);
    assert!(matches!(reader.parse(), Ok(None)));
}

#[test]
fn round_trip_response_frame() {
    let payload = vec![0u8, 255, 17];
    let frame = to_binary(&payload, Kind::Response);
    let mut reader = Reader::new();
    reader.feed(&frame);
    let msg = reader.parse().unwrap().unwrap();
    assert_eq!(msg.kind(), Kind::Response);
    assert_eq!(msg.message(), payload);
}

#[test]
fn round_trip_empty_payload() {
    let frame = to_binary(&[], Kind::Data);
    let mut reader = Reader::new();
    reader.feed(&frame);
    let msg = reader.parse().unwrap().unwrap();
    assert_eq!(msg.kind(), Kind::Data);
    assert_eq!(msg.message(), Vec::<u8>::new());
}

#[test]
fn round_trip_two_byte_width() {
    let payload = vec![3u8; 300];
    let frame = to_binary(&payload, Kind::Data);
    let mut reader = Reader::new();
    reader.feed(&frame);
    let msg = reader.parse().unwrap().unwrap();
    assert_eq!(msg.message(), payload);
}

#[test]
fn incremental_one_byte_at_a_time() {
    let payload = vec![1u8, 2, 3, 4, 5, 6, 7];
    let frame = to_binary(&payload, Kind::Data);
    let mut reader = Reader::new();
    for i in 0..frame.len() - 1 {
        reader.feed(&frame[i..i + 1]);
        assert!(matches!(reader.parse(), Ok(None)));
    }
    reader.feed(&frame[frame.len() - 1..]);
    let msg = reader.parse().unwrap().unwrap();
    assert_eq!(msg.kind(), Kind::Data);
    assert_eq!(msg.message(), payload);
}

#[test]
fn incremental_matches_whole() {
    let payload = vec![10u8; 600];
    let frame = to_binary(&payload, Kind::Response);

    let mut whole = Reader::new();
    whole.feed(&frame);
    let msg_whole = whole.parse().unwrap().unwrap();

    let mut chunked = Reader::new();
    let cut = 200;
    chunked.feed(&frame[..cut]);
    assert!(matches!(chunked.parse(), Ok(None)));
    chunked.feed(&frame[cut..]);
    let msg_chunked = chunked.parse().unwrap().unwrap();

    assert_eq!(msg_whole.kind(), msg_chunked.kind());
    assert_eq!(msg_whole.message(), msg_chunked.message());
}

#[test]
fn pipelining_two_frames_one_chunk() {
    let first = vec![1u8, 1, 1];
    let second = vec![2u8, 2];
    let mut both = to_binary(&first, Kind::Data);
    both.extend_from_slice(&to_binary(&second, Kind::Response));

    let mut reader = Reader::new();
    reader.feed(&both);
    let msg1 = reader.parse().unwrap().unwrap();
    assert_eq!(msg1.kind(), Kind::Data);
    assert_eq!(msg1.message(), first);
    let msg2 = reader.parse().unwrap().unwrap();
    assert_eq!(msg2.kind(), Kind::Response);
    assert_eq!(msg2.message(), second);
    assert!(matches!(reader.parse(), Ok(None)));
}

#[test]
fn reject_invalid_kind_nibble() {
    let mut reader = Reader::new();
    reader.feed(&[0x12]); // valid width flag, kind nibble 2
    assert!(matches!(reader.parse(), Err(ReaderError::WrongKindFlag)));
}

#[test]
fn reject_invalid_kind_nibble_high() {
    let mut reader = Reader::new();
    reader.feed(&[0x1F, 0, 0, 0]);
    assert!(matches!(reader.parse(), Err(ReaderError::WrongKindFlag)));
}

#[test]
fn reject_invalid_length_flag() {
    let mut reader = Reader::new();
    reader.feed(&[0x31, 0, 0]); // width nibble 3 is not 1, 2, 4 or 8
    assert!(matches!(reader.parse(), Err(ReaderError::WrongLengthFlag)));
}

#[test]
fn reject_zero_length_flag() {
    let mut reader = Reader::new();
    reader.feed(&[0x00]);
    assert!(matches!(reader.parse(), Err(ReaderError::WrongLengthFlag)));
}

#[test]
fn reject_oversized_declared_length() {
    // 8-byte header declaring 2^48 + 1 bytes of payload
    let header = [0x80u8, 0x00, 0x01, 0x00, 0x00, 0x00, 0x00, 0x00, 0x01];
    let mut reader = Reader::new();
    reader.feed(&header);
    assert!(matches!(reader.parse(), Err(ReaderError::IncorrectSize)));
}

#[test]
fn eight_byte_width_header_is_not_rejected() {
    // 8-byte header declaring 2^20 bytes: well under the maximum, so
    // the decoder waits for the payload instead of erroring
    let header = [0x80u8, 0x00, 0x00, 0x00, 0x00, 0x00, 0x10, 0x00, 0x00];
    let mut reader = Reader::new();
    reader.feed(&header);
    assert!(matches!(reader.parse(), Ok(None)));
}

#[test]
fn error_drops_buffered_bytes() {
    let mut reader = Reader::new();
    reader.feed(&[0x3F, 9, 9, 9]);
    assert!(reader.parse().is_err());
    // after the violation everything was dropped; a fresh frame decodes
    let payload = vec![42u8];
    reader.feed(&to_binary(&payload, Kind::Data));
    let msg = reader.parse().unwrap().unwrap();
    assert_eq!(msg.message(), payload);
}

#[test]
fn waits_on_empty_buffer() {
    let mut reader = Reader::new();
    assert!(matches!(reader.parse(), Ok(None)));
}
