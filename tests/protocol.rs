use kairos::protocol::{frame_message, next_message, pong, stream_description, MessageSplit, MessageTooLong, MESSAGE_MAXIMUM_LENGTH};

#[test]
fn stream_description_layout() {
    let header = stream_description(0xFF_FFFF, 32, 1 << 20);
    let mut expected = 0xFF_FFFFu32.to_le_bytes().to_vec();
    expected.extend_from_slice(&32u32.to_le_bytes());
    expected.extend_from_slice(&(1u32 << 20).to_le_bytes());
    assert_eq!(header, expected);
}

#[test]
fn pong_bytes() {
    assert_eq!(pong(), vec![0x08, 0, 0, 0, b'p', b'o', b'n', b'g']);
}

#[test]
fn framing_prefixes_total_length() {
    let framed = frame_message(b"{\"type\":\"Ping\"}").unwrap();
    assert_eq!(&framed[0..4], &19u32.to_le_bytes());
    assert_eq!(&framed[4..], b"{\"type\":\"Ping\"}");
}

#[test]
fn framing_rejects_too_long() {
    let payload = vec![b' '; MESSAGE_MAXIMUM_LENGTH as usize - 3];
    assert_eq!(frame_message(&payload), Err(MessageTooLong { payload_length: payload.len() }));
    let payload = vec![b' '; MESSAGE_MAXIMUM_LENGTH as usize - 4];
    assert_eq!(frame_message(&payload).unwrap().len(), MESSAGE_MAXIMUM_LENGTH as usize);
}

#[test]
fn framed_message_splits_back() {
    let mut pending = frame_message(b"abc").unwrap();
    pending.extend_from_slice(&[1, 2]);
    assert_eq!(next_message(&pending), MessageSplit::Complete { length: 7 });
    assert_eq!(&pending[4..7], b"abc");
    assert_eq!(next_message(&pending[0..6]), MessageSplit::Incomplete);
    assert_eq!(next_message(&pending[0..3]), MessageSplit::Incomplete);
}

#[test]
fn invalid_declared_lengths() {
    assert_eq!(next_message(&[2, 0, 0, 0]), MessageSplit::Invalid { length: 2 });
    assert_eq!(next_message(&[1, 0, 0x10, 0]), MessageSplit::Invalid { length: 0x10_0001 });
}
