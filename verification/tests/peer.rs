//! Connection dispatch: acknowledgement of data frames and FIFO
//! round-trip timing of response frames.

use chat::peer::make_response_text;
use chat::peer::Msg;
use chat::peer::Peer;
use chat::peer::PeerAction;
use chat::reader::to_binary;
use chat::reader::Kind;
use chat::reader::Reader;

fn decode_one(frame: &[u8]) -> Msg {
    let mut reader = Reader::new();
    reader.feed(frame);
    reader.parse().unwrap().unwrap()
}

#[test]
fn response_text_is_message_received() {
    assert_eq!(make_response_text(), b"message received".to_vec());
}

#[test]
fn data_message_is_acknowledged() {
    let mut peer = Peer::new();
    let payload = vec![104u8, 101, 108, 108, 111]; // "hello"
    let msg = decode_one(&to_binary(&payload, Kind::Data));
    match peer.handle_message(msg, 0) {
        PeerAction::Respond { reply, payload: shown } => {
            assert_eq!(reply, to_binary(b"message received", Kind::Response));
            assert_eq!(shown, payload);
        }
        _ => panic!("a data message must be acknowledged"),
    }
}

#[test]
fn send_frames_payload_as_data() {
    let mut peer = Peer::new();
    let payload = vec![1u8, 2, 3];
    let frame = peer.handle_input(&payload, 77);
    assert_eq!(frame, to_binary(&payload, Kind::Data));
}

#[test]
fn round_trip_timing_fifo() {
    let mut peer = Peer::new();
    peer.handle_input(&[1], 100);
    peer.handle_input(&[2], 250);

    let ack = to_binary(b"message received", Kind::Response);

    // first response pairs with the first send
    match peer.handle_message(decode_one(&ack), 150) {
        PeerAction::Report { payload, elapsed } => {
            assert_eq!(payload, b"message received".to_vec());
            assert_eq!(elapsed, 50);
        }
        _ => panic!("a response must be reported"),
    }

    // second response pairs with the second send
    match peer.handle_message(decode_one(&ack), 310) {
        PeerAction::Report { elapsed, .. } => assert_eq!(elapsed, 60),
        _ => panic!("a response must be reported"),
    }
}

#[test]
fn response_without_pending_send_reports_zero() {
    let mut peer = Peer::new();
    let ack = to_binary(&[9u8], Kind::Response);
    match peer.handle_message(decode_one(&ack), 1234) {
        PeerAction::Report { payload, elapsed } => {
            assert_eq!(payload, vec![9u8]);
            assert_eq!(elapsed, 0);
        }
        _ => panic!("a response must be reported"),
    }
}

#[test]
fn wrong_kind_is_ignored() {
    let mut peer = Peer::new();
    let msg = Msg::new(vec![0x12, 0], Kind::Wrong, 2);
    assert!(matches!(peer.handle_message(msg, 5), PeerAction::Ignore));
}

#[test]
fn msg_message_slices_off_header() {
    let msg = Msg::new(vec![0x10, 2, 55, 66], Kind::Data, 2);
    assert_eq!(msg.kind(), Kind::Data);
    assert_eq!(msg.message(), vec![55, 66]);
}

#[test]
fn end_to_end_exchange() {
    // the dialer sends "hello"
    let mut dialer = Peer::new();
    let mut listener = Peer::new();
    let wire_out = dialer.handle_input(b"hello", 1000);

    // the listener decodes it and acknowledges
    let received = decode_one(&wire_out);
    assert_eq!(received.kind(), Kind::Data);
    let reply = match listener.handle_message(received, 1001) {
        PeerAction::Respond { reply, payload } => {
            assert_eq!(payload, vec![104, 101, 108, 108, 111]);
            reply
        }
        _ => panic!("the listener must acknowledge"),
    };

    // the dialer decodes the acknowledgement and reports the round trip
    let ack = decode_one(&reply);
    assert_eq!(ack.kind(), Kind::Response);
    match dialer.handle_message(ack, 1009) {
        PeerAction::Report { payload, elapsed } => {
            assert_eq!(payload, b"message received".to_vec());
            assert_eq!(elapsed, 9);
        }
        _ => panic!("the dialer must report the round trip"),
    }
}
