//! Event packets: the fixed-cadence schedule of packet end times, the assembly of raw USB
//! bytes into packets, and the packet record sent to clients.
use vstd::prelude::*;

use crate::decoder::{le_bytes, push_le, u32_le, u64_le, DecoderState};

verus! {

/// Packets per second.
pub const PACKET_FREQUENCY: u64 = 60;

/// The largest packet record, header included.
pub const PACKET_MAXIMUM_LENGTH: u32 = 4194304;

/// Length of a packet record's header: total length, system time, system timestamp,
/// decoder state and packet end time.
pub const PACKET_HEADER_LENGTH: usize = 50;

/// The width of the moving average of event rates.
pub const EVENT_RATE_SAMPLES: usize = 6;

/// The largest packet index whose end time the schedule computes.
pub const MAXIMUM_PACKET_INDEX: u64 = 9_000_000_000_000;

/// The end time of packet `index`: `index * 10^6 / PACKET_FREQUENCY` microseconds, rounded
/// to the nearest integer, halves up.
pub open spec fn packet_end_t_of(index: nat) -> int {
    (2 * index * 1_000_000 + PACKET_FREQUENCY as int) / (2 * PACKET_FREQUENCY as int)
}

pub fn packet_end_t(index: u64) -> (r: u64)
    requires
        index <= MAXIMUM_PACKET_INDEX,
    ensures
        r == packet_end_t_of(index as nat),
        r * 2 * PACKET_FREQUENCY <= 2 * index * 1_000_000 + PACKET_FREQUENCY < (r + 1) * 2
            * PACKET_FREQUENCY,
{
    let r = (2 * index * 1_000_000 + PACKET_FREQUENCY) / (2 * PACKET_FREQUENCY);
    assert(r * 2 * PACKET_FREQUENCY <= 2 * index * 1_000_000 + PACKET_FREQUENCY < (r + 1) * 2
        * PACKET_FREQUENCY) by (nonlinear_arith)
        requires
            r == (2 * index * 1_000_000 + PACKET_FREQUENCY) / (2 * PACKET_FREQUENCY),
            PACKET_FREQUENCY == 60,
    ;
    r
}

/// Whether the decoder, having stopped `position` bytes after `offset` in a USB buffer of
/// `length` bytes, consumed the whole buffer (events are two-byte words, so a trailing odd
/// byte does not count) rather than reaching the packet's end time.
pub open spec fn buffer_exhausted(offset: nat, position: nat, length: nat) -> bool {
    (offset + position) / 2 >= length / 2
}

/// The bytes and event counts of the packet being assembled.
pub struct PacketBuilder {
    data: Vec<u8>,
    start_state: DecoderState,
    on_count: u64,
    off_count: u64,
    next_packet_index: u64,
    end_t: u64,
}

/// A packet whose end time was reached.
pub struct CompletedPacket {
    pub data: Vec<u8>,
    pub start_state: DecoderState,
    pub end_t: u64,
    pub on_count: u64,
    pub off_count: u64,
}

pub open spec fn saturating(v: int) -> u64 {
    if v > u64::MAX {
        u64::MAX
    } else {
        v as u64
    }
}

impl PacketBuilder {
    pub closed spec fn data(self) -> Seq<u8> {
        self.data@
    }

    /// The decoder state at the first byte of the packet being assembled.
    pub closed spec fn spec_start_state(self) -> DecoderState {
        self.start_state
    }

    pub closed spec fn spec_on_count(self) -> u64 {
        self.on_count
    }

    pub closed spec fn spec_off_count(self) -> u64 {
        self.off_count
    }

    pub closed spec fn spec_next_packet_index(self) -> u64 {
        self.next_packet_index
    }

    /// The device time at which the packet being assembled ends.
    pub closed spec fn spec_end_t(self) -> u64 {
        self.end_t
    }

    pub closed spec fn wf(self) -> bool {
        &&& 1 <= self.next_packet_index <= MAXIMUM_PACKET_INDEX
        &&& self.end_t == packet_end_t_of(self.next_packet_index as nat)
    }

    /// A builder for the first packet, which starts at the decoder's initial state.
    pub fn new(initial_state: DecoderState) -> (r: PacketBuilder)
        ensures
            r.wf(),
            r.data() == Seq::<u8>::empty(),
            r.spec_start_state() == initial_state,
            r.spec_on_count() == 0,
            r.spec_off_count() == 0,
            r.spec_next_packet_index() == 1,
    {
        PacketBuilder {
            data: Vec::new(),
            start_state: initial_state,
            on_count: 0,
            off_count: 0,
            next_packet_index: 1,
            end_t: packet_end_t(1),
        }
    }

    pub fn end_t(&self) -> (r: u64)
        ensures
            r == self.spec_end_t(),
            self.wf() ==> r == packet_end_t_of(self.spec_next_packet_index() as nat),
    {
        self.end_t
    }

    pub fn next_packet_index(&self) -> (r: u64)
        ensures
            r == self.spec_next_packet_index(),
    {
        self.next_packet_index
    }

    /// Takes the `position` bytes that the decoder walked from `offset` in a USB buffer,
    /// with the events it counted there. Returns whether the packet's end time was reached
    /// before the end of the buffer: then the packet is complete, and the rest of the
    /// buffer, from `offset + position`, belongs to the next one.
    pub fn absorb(
        &mut self,
        buffer: &[u8],
        offset: usize,
        position: usize,
        on_events: u64,
        off_events: u64,
    ) -> (boundary: bool)
        requires
            offset + position <= buffer@.len(),
        ensures
            final(self).data() == old(self).data() + buffer@.subrange(
                offset as int,
                offset + position,
            ),
            final(self).spec_on_count() == saturating(old(self).spec_on_count() + on_events),
            final(self).spec_off_count() == saturating(old(self).spec_off_count() + off_events),
            final(self).spec_start_state() == old(self).spec_start_state(),
            final(self).spec_next_packet_index() == old(self).spec_next_packet_index(),
            final(self).spec_end_t() == old(self).spec_end_t(),
            final(self).wf() == old(self).wf(),
            boundary == !buffer_exhausted(offset as nat, position as nat, buffer@.len()),
    {
        let length = buffer.len();
        let end = offset + position;
        let mut k: usize = offset;
        let ghost before = self.data@;
        while k < end
            invariant
                offset <= k <= offset + position,
                end == offset + position,
                offset + position <= buffer@.len(),
                self.data@ == before + buffer@.subrange(offset as int, k as int),
                self.start_state == old(self).start_state,
                self.on_count == old(self).on_count,
                self.off_count == old(self).off_count,
                self.next_packet_index == old(self).next_packet_index,
                self.end_t == old(self).end_t,
            decreases end - k,
        {
            self.data.push(buffer[k]);
            k = k + 1;
            assert(self.data@ =~= before + buffer@.subrange(offset as int, k as int));
        }
        self.on_count = self.on_count.saturating_add(on_events);
        self.off_count = self.off_count.saturating_add(off_events);
        (offset + position) / 2 < buffer.len() / 2
    }

    /// Closes the packet whose end time was reached: hands it out and starts the next one
    /// at `state`, the decoder state reached at the boundary.
    pub fn finish(&mut self, state: DecoderState) -> (packet: CompletedPacket)
        requires
            old(self).wf(),
            old(self).spec_next_packet_index() < MAXIMUM_PACKET_INDEX,
        ensures
            final(self).wf(),
            packet.data@ == old(self).data(),
            packet.start_state == old(self).spec_start_state(),
            packet.end_t == old(self).spec_end_t(),
            packet.end_t == packet_end_t_of(old(self).spec_next_packet_index() as nat),
            packet.on_count == old(self).spec_on_count(),
            packet.off_count == old(self).spec_off_count(),
            final(self).data() == Seq::<u8>::empty(),
            final(self).spec_start_state() == state,
            final(self).spec_on_count() == 0,
            final(self).spec_off_count() == 0,
            final(self).spec_next_packet_index() == old(self).spec_next_packet_index() + 1,
    {
        let mut data: Vec<u8> = Vec::new();
        std::mem::swap(&mut data, &mut self.data);
        let packet = CompletedPacket {
            data,
            start_state: self.start_state,
            end_t: self.end_t,
            on_count: self.on_count,
            off_count: self.off_count,
        };
        self.start_state = state;
        self.on_count = 0;
        self.off_count = 0;
        self.next_packet_index = self.next_packet_index + 1;
        self.end_t = packet_end_t(self.next_packet_index);
        packet
    }
}

/// The number of payload bytes a packet record carries: all of the data, up to the
/// maximum record length.
pub open spec fn packet_payload_length(data_length: nat) -> nat {
    if data_length <= PACKET_MAXIMUM_LENGTH - PACKET_HEADER_LENGTH {
        data_length
    } else {
        (PACKET_MAXIMUM_LENGTH - PACKET_HEADER_LENGTH) as nat
    }
}

/// The packet record: `total_length:u32 | system_time:u64 | system_timestamp:u64 |
/// decoder_state | end_t:u64 | payload`, little-endian.
pub open spec fn packet_record(
    system_time: u64,
    system_timestamp: u64,
    state: DecoderState,
    end_t: u64,
    data: Seq<u8>,
) -> Seq<u8> {
    let payload = packet_payload_length(data.len());
    u32_le((payload + PACKET_HEADER_LENGTH) as u32) + u64_le(system_time) + u64_le(system_timestamp)
        + state.packet_bytes() + u64_le(end_t) + data.subrange(0, payload as int)
}

/// Fills `buffer` (taken from the packet pool) with the packet record.
pub fn write_packet(
    buffer: &mut Vec<u8>,
    system_time: u64,
    system_timestamp: u64,
    state: &DecoderState,
    end_t: u64,
    data: &[u8],
)
    ensures
        final(buffer)@ == packet_record(system_time, system_timestamp, *state, end_t, data@),
        final(buffer)@.len() <= PACKET_MAXIMUM_LENGTH,
{
    let maximum = (PACKET_MAXIMUM_LENGTH as usize) - PACKET_HEADER_LENGTH;
    let data_length = if data.len() < maximum {
        data.len()
    } else {
        maximum
    };
    let total_length = data_length + PACKET_HEADER_LENGTH;
    buffer.clear();
    push_le(buffer, total_length as u64, 4);
    push_le(buffer, system_time, 8);
    push_le(buffer, system_timestamp, 8);
    state.write_packet_bytes(buffer);
    push_le(buffer, end_t, 8);
    let ghost header = buffer@;
    let mut k: usize = 0;
    while k < data_length
        invariant
            k <= data_length,
            data_length <= data@.len(),
            buffer@ == header + data@.subrange(0, k as int),
        decreases data_length - k,
    {
        buffer.push(data[k]);
        k = k + 1;
        assert(buffer@ =~= header + data@.subrange(0, k as int));
    }
    proof {
        lemma_header_lengths(*state);
        lemma_le_bytes_len(total_length as nat, 4);
        lemma_le_bytes_len(system_time as nat, 8);
        lemma_le_bytes_len(system_timestamp as nat, 8);
        lemma_le_bytes_len(end_t as nat, 8);
    }
    assert(buffer@ =~= packet_record(system_time, system_timestamp, *state, end_t, data@));
}

proof fn lemma_le_bytes_len(v: nat, n: nat)
    ensures
        le_bytes(v, n).len() == n,
    decreases n,
{
    if n > 0 {
        lemma_le_bytes_len(v / 256, (n - 1) as nat);
    }
}

proof fn lemma_header_lengths(state: DecoderState)
    ensures
        state.packet_bytes().len() == 22,
        state.index_bytes().len() == 21,
{
    lemma_le_bytes_len(state.t as nat, 8);
    lemma_le_bytes_len(state.overflows as nat, 4);
    lemma_le_bytes_len(crate::decoder::msb_code(state.previous_msb_t) as nat, 2);
    lemma_le_bytes_len(state.previous_lsb_t as nat, 2);
    lemma_le_bytes_len(state.x as nat, 2);
    lemma_le_bytes_len(state.y as nat, 2);
    lemma_le_bytes_len(crate::decoder::polarity_byte(state.polarity) as nat, 2);
}

/// A moving window over the last `EVENT_RATE_SAMPLES` per-packet event rates (events per
/// second: a packet's count times the packet frequency).
pub struct EventRateWindow {
    samples: Vec<u64>,
    index: usize,
}

pub open spec fn seq_sum(s: Seq<u64>) -> int
    decreases s.len(),
{
    if s.len() == 0 {
        0
    } else {
        seq_sum(s.drop_last()) + s.last()
    }
}

impl EventRateWindow {
    /// The rates in the window, as slots: a sample replaces the oldest one.
    pub closed spec fn samples(self) -> Seq<u64> {
        self.samples@
    }

    /// The slot that the next sample overwrites: the oldest one.
    pub closed spec fn next_slot(self) -> usize {
        self.index
    }

    pub closed spec fn wf(self) -> bool {
        &&& self.samples@.len() == EVENT_RATE_SAMPLES
        &&& self.index < EVENT_RATE_SAMPLES
    }

    pub fn new() -> (r: EventRateWindow)
        ensures
            r.wf(),
            r.samples() == Seq::new(EVENT_RATE_SAMPLES as nat, |i: int| 0u64),
            r.next_slot() == 0,
    {
        let mut samples: Vec<u64> = Vec::new();
        while samples.len() < EVENT_RATE_SAMPLES
            invariant
                samples@.len() <= EVENT_RATE_SAMPLES,
                forall|i: int| 0 <= i < samples@.len() ==> #[trigger] samples@[i] == 0,
            decreases EVENT_RATE_SAMPLES - samples@.len(),
        {
            samples.push(0);
        }
        assert(samples@ =~= Seq::new(EVENT_RATE_SAMPLES as nat, |i: int| 0u64));
        EventRateWindow { samples, index: 0 }
    }

    /// Records the event count of one packet, as a rate; the oldest sample leaves.
    pub fn push(&mut self, count: u64)
        requires
            old(self).wf(),
        ensures
            final(self).wf(),
            final(self).samples() == old(self).samples().update(
                old(self).next_slot() as int,
                saturating(count * PACKET_FREQUENCY),
            ),
            final(self).next_slot() == if old(self).next_slot() + 1 == EVENT_RATE_SAMPLES {
                0
            } else {
                old(self).next_slot() + 1
            },
    {
        let rate = if count <= u64::MAX / PACKET_FREQUENCY {
            count * PACKET_FREQUENCY
        } else {
            u64::MAX
        };
        let i = self.index;
        self.samples.set(i, rate);
        self.index = if i + 1 == EVENT_RATE_SAMPLES {
            0
        } else {
            i + 1
        };
    }

    /// The sum of the rates in the window; the moving average is this over
    /// `EVENT_RATE_SAMPLES`.
    pub fn total(&self) -> (r: u128)
        requires
            self.wf(),
        ensures
            r == seq_sum(self.samples()),
    {
        let mut total: u128 = 0;
        let mut k: usize = 0;
        while k < EVENT_RATE_SAMPLES
            invariant
                k <= EVENT_RATE_SAMPLES,
                self.wf(),
                total == seq_sum(self.samples@.subrange(0, k as int)),
                total <= k * 0xffff_ffff_ffff_ffffu128,
            decreases EVENT_RATE_SAMPLES - k,
        {
            assert(self.samples@.subrange(0, k + 1).drop_last() =~= self.samples@.subrange(
                0,
                k as int,
            ));
            total = total + self.samples[k] as u128;
            k = k + 1;
        }
        assert(self.samples@.subrange(0, EVENT_RATE_SAMPLES as int) =~= self.samples@);
        total
    }
}

} // verus!
