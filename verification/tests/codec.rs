use pass_token::codec::decode_message;
use pass_token::codec::encode_message;
use pass_token::state::Message;
use pass_token::state::Reasons;

fn round_trip(m: Message) -> Message {
    let bytes = encode_message(&m);
    decode_message(&bytes).expect("an encoded message must decode")
}

#[test]
fn round_trip_token() {
    assert_eq!(round_trip(Message::Token), Message::Token);
}

#[test]
fn round_trip_marker() {
    let m = Message::Marker { from: 2, snapshot_id: 7, initiator: 1 };
    assert_eq!(round_trip(m), m);
}

#[test]
fn round_trip_all_channels_closed() {
    let m = Message::AllChannelsClosed { from: 3 };
    assert_eq!(round_trip(m), m);
}

#[test]
fn round_trip_reset() {
    assert_eq!(round_trip(Message::ResetSnapshot), Message::ResetSnapshot);
}

#[test]
fn round_trip_large_fields() {
    let m = Message::Marker { from: usize::MAX, snapshot_id: u32::MAX, initiator: usize::MAX - 1 };
    assert_eq!(round_trip(m), m);
}

#[test]
fn exact_bytes_of_token() {
    assert_eq!(encode_message(&Message::Token), vec![0u8, 0, 0, 0]);
}

#[test]
fn exact_bytes_of_marker() {
    let m = Message::Marker { from: 2, snapshot_id: 7, initiator: 1 };
    let expected: Vec<u8> = vec![
        1, 0, 0, 0, // tag
        2, 0, 0, 0, 0, 0, 0, 0, // from
        7, 0, 0, 0, // snapshot id
        1, 0, 0, 0, 0, 0, 0, 0, // initiator
    ];
    assert_eq!(encode_message(&m), expected);
}

#[test]
fn exact_bytes_of_all_channels_closed() {
    let m = Message::AllChannelsClosed { from: 258 };
    let expected: Vec<u8> = vec![2, 0, 0, 0, 2, 1, 0, 0, 0, 0, 0, 0];
    assert_eq!(encode_message(&m), expected);
}

#[test]
fn exact_bytes_of_reset() {
    assert_eq!(encode_message(&Message::ResetSnapshot), vec![3u8, 0, 0, 0]);
}

#[test]
fn empty_buffer_is_bad() {
    assert_eq!(decode_message(&Vec::new()), Err(Reasons::BadMessage));
}

#[test]
fn short_buffer_is_bad() {
    assert_eq!(decode_message(&vec![0u8, 0, 0]), Err(Reasons::BadMessage));
}

#[test]
fn unknown_tag_is_bad() {
    assert_eq!(decode_message(&vec![4u8, 0, 0, 0]), Err(Reasons::BadMessage));
}

#[test]
fn trailing_bytes_are_bad() {
    let mut bytes = encode_message(&Message::Token);
    bytes.push(0);
    assert_eq!(decode_message(&bytes), Err(Reasons::BadMessage));
}

#[test]
fn truncated_marker_is_bad() {
    let mut bytes = encode_message(&Message::Marker { from: 2, snapshot_id: 7, initiator: 1 });
    bytes.pop();
    assert_eq!(decode_message(&bytes), Err(Reasons::BadMessage));
}
