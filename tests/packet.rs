use kairos::decoder::DecoderState;
use kairos::packet::{packet_end_t, write_packet, EventRateWindow, PacketBuilder, PACKET_MAXIMUM_LENGTH};

fn state(t: u64) -> DecoderState {
    DecoderState { t, overflows: 2, previous_msb_t: Some(3), previous_lsb_t: 4, x: 5, y: 6, polarity: true }
}

#[test]
fn packet_schedule_rounds_to_nearest() {
    assert_eq!(packet_end_t(0), 0);
    assert_eq!(packet_end_t(1), 16_667);
    assert_eq!(packet_end_t(2), 33_333);
    assert_eq!(packet_end_t(3), 50_000);
    assert_eq!(packet_end_t(60), 1_000_000);
    assert_eq!(packet_end_t(61), 1_016_667);
}

#[test]
fn buffer_straddling_the_boundary_splits_there() {
    let mut builder = PacketBuilder::new(state(0));
    assert_eq!(builder.end_t(), 16_667);
    let buffer: Vec<u8> = (0..10u8).collect();
    // the decoder reached the end time after 6 bytes
    assert!(builder.absorb(&buffer, 0, 6, 3, 1));
    let first = builder.finish(state(16_667));
    assert_eq!(first.data, vec![0, 1, 2, 3, 4, 5]);
    assert_eq!(first.start_state, state(0));
    assert_eq!(first.end_t, 16_667);
    assert_eq!((first.on_count, first.off_count), (3, 1));
    assert_eq!(builder.end_t(), 33_333);
    assert_eq!(builder.next_packet_index(), 2);
    // the rest of the buffer goes to the next packet, which starts at the boundary state
    assert!(!builder.absorb(&buffer, 6, 4, 2, 0));
    let second = builder.finish(state(20_000));
    assert_eq!(second.data, vec![6, 7, 8, 9]);
    assert_eq!(second.start_state, state(16_667));
    assert_eq!((second.on_count, second.off_count), (2, 0));
}

#[test]
fn trailing_odd_byte_counts_as_exhausted() {
    let mut builder = PacketBuilder::new(state(0));
    let buffer = vec![0u8; 7];
    assert!(!builder.absorb(&buffer, 0, 6, 0, 0));
}

#[test]
fn packet_record_layout() {
    let mut buffer = vec![9u8; 3];
    let data = [0xAAu8, 0xBB];
    write_packet(&mut buffer, 0x0102, 0x0304, &state(0x0506), 16_667, &data);
    assert_eq!(buffer.len(), 52);
    assert_eq!(&buffer[0..4], &52u32.to_le_bytes());
    assert_eq!(&buffer[4..12], &0x0102u64.to_le_bytes());
    assert_eq!(&buffer[12..20], &0x0304u64.to_le_bytes());
    assert_eq!(&buffer[20..28], &0x0506u64.to_le_bytes());
    assert_eq!(&buffer[28..32], &2u32.to_le_bytes());
    assert_eq!(&buffer[32..34], &3u16.to_le_bytes());
    assert_eq!(&buffer[34..36], &4u16.to_le_bytes());
    assert_eq!(&buffer[36..38], &5u16.to_le_bytes());
    assert_eq!(&buffer[38..40], &6u16.to_le_bytes());
    assert_eq!(&buffer[40..42], &1u16.to_le_bytes());
    assert_eq!(&buffer[42..50], &16_667u64.to_le_bytes());
    assert_eq!(&buffer[50..52], &data);
}

#[test]
fn oversized_packet_is_truncated() {
    let mut buffer = Vec::new();
    let data = vec![1u8; PACKET_MAXIMUM_LENGTH as usize];
    write_packet(&mut buffer, 0, 0, &state(0), 0, &data);
    assert_eq!(buffer.len(), PACKET_MAXIMUM_LENGTH as usize);
    assert_eq!(&buffer[0..4], &PACKET_MAXIMUM_LENGTH.to_le_bytes());
}

#[test]
fn event_rate_window_averages_last_six() {
    let mut window = EventRateWindow::new();
    assert_eq!(window.total(), 0);
    for count in 1..=8u64 {
        window.push(count);
    }
    // the window holds counts 3..=8, each times 60
    assert_eq!(window.total(), (3 + 4 + 5 + 6 + 7 + 8) * 60);
}
