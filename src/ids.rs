//! Identifiers of devices, streams and clients.
use vstd::prelude::*;

verus! {

/// Device identifiers live in 24 bits; the counter that hands them out wraps there.
pub const DEVICE_ID_MODULUS: u32 = 0x100_0000;

/// Stream id of the per-client control (message) stream.
pub const MESSAGE_STREAM_ID: u32 = 0xff_ffff;

/// Stream id of the record-state stream shared by all devices.
pub const RECORD_STATE_STREAM_ID: u32 = 0xff_fffe;

/// Index of the event-packet stream of a device.
pub const EVENTS_STREAM_INDEX: u8 = 0;

/// Index of the sampler stream of a device.
pub const SAMPLES_STREAM_INDEX: u8 = 1;

#[derive(Debug, Clone, Copy, PartialEq, Eq, Structural, Hash)]
pub struct DeviceId(pub u32);

#[derive(Debug, Clone, Copy, PartialEq, Eq, Structural, Hash)]
pub struct StreamId(pub u32);

#[derive(Debug, Clone, Copy, PartialEq, Eq, Structural, Hash)]
pub struct ClientId(pub u32);

/// The composite stream id: the low byte is the stream index, the three high bytes are
/// the low 24 bits of the device id.
pub open spec fn stream_id_of(device_id: u32, stream_index: u8) -> u32 {
    ((device_id as int % 0x100_0000) * 256 + stream_index as int) as u32
}

impl DeviceId {
    /// The identifier that follows `self` in the process-wide 24-bit counter.
    pub fn next(self) -> (r: DeviceId)
        requires
            self.0 < DEVICE_ID_MODULUS,
        ensures
            r.0 == (self.0 as int + 1) % (DEVICE_ID_MODULUS as int),
    {
        DeviceId((self.0 + 1) % DEVICE_ID_MODULUS)
    }
}

impl StreamId {
    pub fn new(device_id: DeviceId, stream_index: u8) -> (r: StreamId)
        ensures
            r.0 == stream_id_of(device_id.0, stream_index),
    {
        let d: u32 = device_id.0;
        let i: u32 = stream_index as u32;
        let r: u32 = ((d & 0xff_ffff) << 8u32) | i;
        assert(r == ((d as int % 0x100_0000) * 256 + i as int) as u32) by (bit_vector)
            requires
                i < 256,
                r == ((d & 0xff_ffff) << 8u32) | i,
        ;
        StreamId(r)
    }

    pub fn stream_index(self) -> (r: u8)
        ensures
            r as int == self.0 as int % 256,
    {
        let x: u32 = self.0;
        let m: u32 = x & 0xff;
        assert(m == x % 256) by (bit_vector)
            requires
                m == x & 0xff,
        ;
        m as u8
    }

    /// The device part of the stream id (its three high bytes).
    pub fn device_id(self) -> (r: DeviceId)
        ensures
            r.0 as int == self.0 as int / 256,
    {
        let x: u32 = self.0;
        let d: u32 = x >> 8u32;
        assert(d == x / 256) by (bit_vector)
            requires
                d == x >> 8u32,
        ;
        DeviceId(d)
    }
}

impl ClientId {
    pub fn increment(&mut self)
        ensures
            final(self).0 as int == (old(self).0 as int + 1) % 0x1_0000_0000,
    {
        self.0 = self.0.wrapping_add(1);
    }
}

} // verus!
