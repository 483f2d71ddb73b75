use kairos::ids::{ClientId, DeviceId, StreamId};

#[test]
fn stream_id_packs_device_and_index() {
    let stream_id = StreamId::new(DeviceId(0x000100), 0);
    assert_eq!(stream_id.0, 0x0001_0000);
    assert_eq!(stream_id.stream_index(), 0);
    assert_eq!(stream_id.device_id(), DeviceId(0x000100));
    let samples = StreamId::new(DeviceId(0x000100), 1);
    assert_eq!(samples.0, 0x0001_0001);
    assert_eq!(samples.stream_index(), 1);
}

#[test]
fn stream_id_keeps_low_24_bits_of_device() {
    let stream_id = StreamId::new(DeviceId(0xAB12_3456), 7);
    assert_eq!(stream_id.0, 0x1234_5607);
    assert_eq!(stream_id.device_id(), DeviceId(0x12_3456));
}

#[test]
fn client_id_wraps() {
    let mut client_id = ClientId(u32::MAX);
    client_id.increment();
    assert_eq!(client_id, ClientId(0));
    client_id.increment();
    assert_eq!(client_id, ClientId(1));
}

#[test]
fn device_id_wraps_at_24_bits() {
    assert_eq!(DeviceId(0xFF_FFFF).next(), DeviceId(0));
    assert_eq!(DeviceId(5).next(), DeviceId(6));
}
