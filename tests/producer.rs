use kairos::decoder::DecoderState;
use kairos::packet::PacketBuilder;
use kairos::producer::packetize;

fn words(words: &[u16]) -> Vec<u8> {
    words.iter().flat_map(|word| word.to_le_bytes()).collect()
}

fn initial_state() -> DecoderState {
    DecoderState { t: 0, overflows: 0, previous_msb_t: None, previous_lsb_t: 0, x: 0, y: 0, polarity: false }
}

#[test]
fn buffer_straddling_a_packet_end_is_cut_at_the_time_word() {
    let mut decoder = initial_state();
    let mut builder = PacketBuilder::new(initial_state());
    // time high 0, y 5, x 10 (on), time low 256, time high 5 (t = 20480), x 11 (on)
    let buffer = words(&[0x8000, 0x0005, 0x280A, 0x6100, 0x8005, 0x280B]);
    let result = packetize(&mut builder, &mut decoder, 1280, 720, &buffer);
    assert_eq!(result.packets.len(), 1);
    assert_eq!(
        decoder,
        DecoderState { t: 20_480, overflows: 0, previous_msb_t: Some(5), previous_lsb_t: 0, x: 11, y: 5, polarity: true }
    );
    let first = &result.packets[0];
    assert_eq!(first.data, buffer[0..10].to_vec());
    assert_eq!(first.start_state, initial_state());
    assert_eq!(first.end_t, 16_667);
    assert_eq!((first.on_count, first.off_count), (1, 0));
    assert_eq!(builder.next_packet_index(), 2);
    let second = builder.finish(initial_state());
    assert_eq!(second.data, buffer[10..12].to_vec());
    assert_eq!(
        second.start_state,
        DecoderState { t: 20_480, overflows: 0, previous_msb_t: Some(5), previous_lsb_t: 0, x: 10, y: 5, polarity: true }
    );
    assert_eq!((second.on_count, second.off_count), (1, 0));
}

#[test]
fn buffer_before_the_packet_end_stays_in_the_builder() {
    let mut decoder = initial_state();
    let mut builder = PacketBuilder::new(initial_state());
    let buffer = words(&[0x8000, 0x0005, 0x200A, 0xA001, 0xA000]);
    let result = packetize(&mut builder, &mut decoder, 1280, 720, &buffer);
    assert!(result.packets.is_empty());
    assert_eq!((result.trigger_rising, result.trigger_falling), (1, 1));
    let packet = builder.finish(initial_state());
    assert_eq!(packet.data, buffer);
    assert_eq!((packet.on_count, packet.off_count), (0, 1));
}
