use kairos::conversion::{
    check_state_continuity, convert_block, StateMismatch,
    next_raw_position, parse_index_entry, push_decimal, push_event_row, push_index_row,
    push_trigger_row, read_header, HeaderError, PositionMismatch,
};
use kairos::decoder::DecoderState;
use kairos::format::{index_file_header_bytes, raw_file_header_bytes, Index};

fn index() -> Index {
    Index {
        system_time: 1_700_000_000_000_000,
        system_timestamp: 42,
        first_after_overflow: true,
        raw_file_offset: 16,
        raw_length: 4096,
        state: DecoderState { t: 123_456, overflows: 3, previous_msb_t: Some(0x0ABC), previous_lsb_t: 0x0DEF, x: 639, y: 479, polarity: true },
    }
}

#[test]
fn decimal_digits() {
    let mut buffer = Vec::new();
    push_decimal(&mut buffer, 0);
    buffer.push(b' ');
    push_decimal(&mut buffer, 1_000_907);
    buffer.push(b' ');
    push_decimal(&mut buffer, u64::MAX);
    assert_eq!(buffer, b"0 1000907 18446744073709551615".to_vec());
}

#[test]
fn csv_rows() {
    let mut buffer = Vec::new();
    push_event_row(&mut buffer, 1_234, 5, 67, true);
    push_event_row(&mut buffer, 1_235, 0, 1, false);
    assert_eq!(buffer, b"1234,5,67,1\n1235,0,1,0\n".to_vec());
    let mut buffer = Vec::new();
    push_trigger_row(&mut buffer, 10, 20, 30, 0, 2);
    assert_eq!(buffer, b"10,20,30,0,2\n".to_vec());
    let mut buffer = Vec::new();
    push_index_row(&mut buffer, &index(), 99);
    assert_eq!(buffer, b"1700000000000000,42,1,123456,99\n".to_vec());
}

#[test]
fn headers_read_back() {
    let mut raw = raw_file_header_bytes(640, 480);
    raw.extend_from_slice(&[1, 2, 3]);
    assert_eq!(read_header(&raw, b"KAIROS-RAW", 0), Ok(0));
    assert_eq!(read_header(&index_file_header_bytes(0), b"KAIROS-INDEX", 0), Ok(0));
}

#[test]
fn header_errors() {
    assert_eq!(read_header(b"KAIROS-RA", b"KAIROS-RAW", 0), Err(HeaderError::TooShort));
    assert_eq!(read_header(b"KAIROS-RAW\0", b"KAIROS-RAW", 0), Err(HeaderError::TooShort));
    assert_eq!(read_header(b"KAIROS-RAX\0\0", b"KAIROS-RAW", 0), Err(HeaderError::BadSignature));
    assert_eq!(read_header(b"KAIROS-RAW\x01\0", b"KAIROS-RAW", 0), Err(HeaderError::BadVersion { found: 1 }));
}

#[test]
fn index_entry_round_trip() {
    let mut bytes = vec![0xFFu8; 3];
    index().write_to(&mut bytes);
    assert_eq!(parse_index_entry(&bytes, 3), index());
    let mut off = index();
    off.first_after_overflow = false;
    off.state.polarity = false;
    off.state.previous_msb_t = None;
    let mut bytes = Vec::new();
    off.write_to(&mut bytes);
    assert_eq!(&bytes[45..47], &[0xFF, 0xFF]);
    assert_eq!(parse_index_entry(&bytes, 0), off);
}

#[test]
fn raw_positions_must_follow_each_other() {
    assert_eq!(next_raw_position(16, &index()), Ok(16 + 4096));
    assert_eq!(
        next_raw_position(17, &index()),
        Err(PositionMismatch { raw_position: 17, raw_file_offset: 16 })
    );
}

#[test]
fn block_decodes_to_rows() {
    let start = DecoderState { t: 0, overflows: 0, previous_msb_t: None, previous_lsb_t: 0, x: 0, y: 0, polarity: false };
    let mut entry = index();
    entry.system_time = 7;
    entry.system_timestamp = 8;
    entry.state = start;
    // time high 0, y 5, x 10 (on), time low 256, x 11 (off), rising trigger 3
    let raw: Vec<u8> = [0x8000u16, 0x0005, 0x280A, 0x6100, 0x200B, 0xA301]
        .iter()
        .flat_map(|word| word.to_le_bytes())
        .collect();
    let mut events = Vec::new();
    let mut triggers = Vec::new();
    let end = convert_block(1280, 720, &entry, &raw, &mut events, &mut triggers);
    assert_eq!(events, b"0,10,5,1\n256,11,5,0\n".to_vec());
    assert_eq!(triggers, b"7,8,256,3,1\n".to_vec());
    assert_eq!(end.t, 256);
    assert_eq!(end.x, 11);
    assert!(!end.polarity);
}

#[test]
fn consecutive_entries_must_share_the_state() {
    let state = index().state;
    assert_eq!(check_state_continuity(None, state), Ok(()));
    assert_eq!(check_state_continuity(Some(state), state), Ok(()));
    let mut other = state;
    other.t += 1;
    assert_eq!(
        check_state_continuity(Some(other), state),
        Err(StateMismatch { reached: other, stored: state })
    );
}
