use kairos::decoder::DecoderState;
use kairos::format::{
    index_file_header_bytes, index_file_name, metadata_file_name, raw_file_header_bytes,
    raw_file_name, samples_file_header_bytes, samples_file_name, serialize_record_state_to,
    write_record_state_message,
    Evk4FileSample, Index,
};
use kairos::ids::DeviceId;
use kairos::lookback::LookbackState;

#[test]
fn file_names() {
    assert_eq!(raw_file_name("x", true), b"x.raw.kai.write".to_vec());
    assert_eq!(raw_file_name("x", false), b"x.raw.kai".to_vec());
    assert_eq!(index_file_name("x", false), b"x.index.kai".to_vec());
    assert_eq!(metadata_file_name("x", true), b"x.toml.write".to_vec());
    assert_eq!(samples_file_name("é", false), "é.samples.kai".as_bytes().to_vec());
}

#[test]
fn file_headers() {
    let mut expected = b"KAIROS-RAW\0\0".to_vec();
    expected.extend_from_slice(&1280u16.to_le_bytes());
    expected.extend_from_slice(&720u16.to_le_bytes());
    assert_eq!(raw_file_header_bytes(1280, 720), expected);
    assert_eq!(raw_file_header_bytes(1280, 720).len(), 16);
    assert_eq!(index_file_header_bytes(0), b"KAIROS-INDEX\0\0".to_vec());
    assert_eq!(samples_file_header_bytes(3), b"KAIROS-SAMPLES\0\x03".to_vec());
    assert_eq!(samples_file_header_bytes(3).len(), 16);
}

#[test]
fn index_entry_layout() {
    let index = Index {
        system_time: 1,
        system_timestamp: 2,
        first_after_overflow: true,
        raw_file_offset: 16,
        raw_length: 4096,
        state: DecoderState { t: 7, overflows: 8, previous_msb_t: Some(9), previous_lsb_t: 10, x: 11, y: 12, polarity: true },
    };
    let mut buffer = Vec::new();
    index.write_to(&mut buffer);
    let mut expected = Vec::new();
    expected.extend_from_slice(&1u64.to_le_bytes());
    expected.extend_from_slice(&2u64.to_le_bytes());
    expected.push(1);
    expected.extend_from_slice(&16u64.to_le_bytes());
    expected.extend_from_slice(&4096u64.to_le_bytes());
    expected.extend_from_slice(&7u64.to_le_bytes());
    expected.extend_from_slice(&8u32.to_le_bytes());
    expected.extend_from_slice(&9u16.to_le_bytes());
    expected.extend_from_slice(&10u16.to_le_bytes());
    expected.extend_from_slice(&11u16.to_le_bytes());
    expected.extend_from_slice(&12u16.to_le_bytes());
    expected.push(1);
    assert_eq!(buffer, expected);
    assert_eq!(buffer.len(), 54);
}

#[test]
fn sample_record_layout() {
    let sample = Evk4FileSample {
        system_time: 3,
        system_timestamp: 4,
        illuminance_bits: 2.5f32.to_bits(),
        temperature_bits: 40.0f32.to_bits(),
    };
    let mut buffer = vec![0xEE];
    sample.write_to(&mut buffer);
    assert_eq!(buffer.len(), 25);
    assert_eq!(&buffer[1..9], &3u64.to_le_bytes());
    assert_eq!(&buffer[9..17], &4u64.to_le_bytes());
    assert_eq!(&buffer[17..21], &2.5f32.to_le_bytes());
    assert_eq!(&buffer[21..25], &40.0f32.to_le_bytes());
}

#[test]
fn record_state_with_lookback_and_recording() {
    let mut buffer = Vec::new();
    serialize_record_state_to(
        DeviceId(5),
        &Some(LookbackState { maximum_duration_us: 9, duration_us: 1_000, size_bytes: 2_000 }),
        &Some((String::from("rec"), 30, 40)),
        &mut buffer,
    );
    let mut expected = Vec::new();
    expected.extend_from_slice(&5u32.to_le_bytes());
    expected.push(1);
    expected.extend_from_slice(&1_000u64.to_le_bytes());
    expected.extend_from_slice(&2_000u64.to_le_bytes());
    expected.push(1);
    expected.extend_from_slice(&30u64.to_le_bytes());
    expected.extend_from_slice(&40u64.to_le_bytes());
    expected.extend_from_slice(b"rec");
    assert_eq!(buffer, expected);
}

#[test]
fn record_state_without_lookback_or_recording() {
    let mut buffer = Vec::new();
    serialize_record_state_to(DeviceId(1), &None, &None, &mut buffer);
    let mut expected = 1u32.to_le_bytes().to_vec();
    expected.push(0);
    expected.extend_from_slice(&[0u8; 16]);
    expected.push(0);
    expected.extend_from_slice(&[0u8; 16]);
    assert_eq!(buffer, expected);
}

#[test]
fn record_state_message_is_framed_by_its_length() {
    let mut framed = Vec::new();
    write_record_state_message(DeviceId(5), &None, &Some((String::from("rec"), 30, 40)), &mut framed);
    let mut body = Vec::new();
    serialize_record_state_to(DeviceId(5), &None, &Some((String::from("rec"), 30, 40)), &mut body);
    assert_eq!(&framed[0..4], &45u32.to_le_bytes());
    assert_eq!(&framed[4..], &body[..]);
    assert_eq!(framed.len(), 45);
}
