//! The event producer's handling of one USB buffer: the EVT3 decoder walks it up to each
//! packet end time, and the buffer is cut into packets there.
use vstd::prelude::*;

use crate::decoder::DecoderState;
use neuromorphic_drivers::adapters::evt3;
use neuromorphic_drivers::types::Polarity;
use crate::packet::{
    packet_end_t_of, saturating, CompletedPacket, PacketBuilder, MAXIMUM_PACKET_INDEX,
};

verus! {

/// What the decoder counted while walking part of a buffer, and how far it went.
#[derive(Debug, Clone, Copy, PartialEq, Eq, Structural)]
pub struct DecodedSpan {
    pub on: u64,
    pub off: u64,
    pub trigger_rising: u64,
    pub trigger_falling: u64,
    /// The bytes walked: whole two-byte words, at least one where there is one.
    pub position: usize,
}

/// What the EVT3 decoder of a `width` x `height` sensor, started at `state`, counts while it
/// walks `slice` until its time reaches `threshold_t` or the slice ends, with the state it
/// reaches there.
pub uninterp spec fn evt3_walk(
    width: u16,
    height: u16,
    state: DecoderState,
    slice: Seq<u8>,
    threshold_t: u64,
) -> (DecodedSpan, DecoderState);

/// Relies on `evt3::Adapter::events_lengths_until`, run on an adapter built by
/// `Adapter::from_dimensions_and_state`: its result depends on the sensor size, the state,
/// the slice and the threshold alone. It walks whole words and stops after the word that
/// takes its time to `threshold_t`, or at the end of the slice; `position` is `index * 2`,
/// with `index` advanced before the word is read. It adds one to the overflow count at most
/// once per word walked, so `requires` leaves out the states whose count could pass
/// `u32::MAX` on this slice.
#[verifier::external_body]
pub(crate) fn evt3_walk_until(width: u16, height: u16, state: DecoderState, slice: &[u8], threshold_t: u64) -> (r: (
    DecodedSpan,
    DecoderState,
))
    requires
        state.overflows + slice@.len() / 2 <= u32::MAX,
    ensures
        r == evt3_walk(width, height, state, slice@, threshold_t),
        r.1.overflows <= state.overflows + r.0.position / 2,
        r.0.position <= slice@.len(),
        r.0.position % 2 == 0,
        slice@.len() >= 2 ==> r.0.position >= 2,
{
    let polarity = if state.polarity { Polarity::On } else { Polarity::Off };
    let start = evt3::State { t: state.t, overflows: state.overflows, previous_msb_t: state.previous_msb_t, previous_lsb_t: state.previous_lsb_t, x: state.x, y: state.y, polarity };
    let mut adapter = evt3::Adapter::from_dimensions_and_state(width, height, start);
    let (lengths, position) = adapter.events_lengths_until(slice, threshold_t);
    let e = adapter.state();
    let span = DecodedSpan { on: lengths.on as u64, off: lengths.off as u64, trigger_rising: lengths.trigger_rising as u64, trigger_falling: lengths.trigger_falling as u64, position };
    (span, DecoderState { t: e.t, overflows: e.overflows, previous_msb_t: e.previous_msb_t, previous_lsb_t: e.previous_lsb_t, x: e.x, y: e.y, polarity: e.polarity == Polarity::On })
}

/// The concatenation of the packets' bytes.
pub open spec fn packets_data(packets: Seq<CompletedPacket>) -> Seq<u8>
    decreases packets.len(),
{
    if packets.len() == 0 {
        Seq::empty()
    } else {
        packets_data(packets.drop_last()) + packets.last().data@
    }
}

pub open spec fn saturating_sum(a: u64, b: u64) -> u64 {
    if a + b > u64::MAX {
        u64::MAX
    } else {
        (a + b) as u64
    }
}

/// A completed packet as a value: its bytes, its start state, its end time, and its on and
/// off event counts.
pub type PacketView = (Seq<u8>, DecoderState, u64, u64, u64);

/// The packet being assembled as a value: its bytes, its start state, its on and off event
/// counts, and its index in the schedule.
pub type BuilderView = (Seq<u8>, DecoderState, u64, u64, nat);

pub open spec fn packet_view(packet: CompletedPacket) -> PacketView {
    (packet.data@, packet.start_state, packet.end_t, packet.on_count, packet.off_count)
}

pub open spec fn builder_view(builder: PacketBuilder) -> BuilderView {
    (
        builder.data(),
        builder.spec_start_state(),
        builder.spec_on_count(),
        builder.spec_off_count(),
        builder.spec_next_packet_index() as nat,
    )
}

/// How a buffer is cut from `offset` on: the decoder, at `state`, walks the rest of the
/// buffer up to the end time of the packet being assembled (`building`). Where it stops
/// before the buffer's last whole word, the walked bytes and events close that packet and
/// the next one starts at the state reached there; else they stay in the packet being
/// assembled. The result holds the completed packets, the packet still being assembled,
/// the decoder's final state, and the trigger counts added to `rising` and `falling`.
pub open spec fn cut(
    width: u16,
    height: u16,
    state: DecoderState,
    building: BuilderView,
    buffer: Seq<u8>,
    offset: nat,
    rising: u64,
    falling: u64,
) -> (Seq<PacketView>, BuilderView, DecoderState, u64, u64)
    decreases buffer.len() - offset,
{
    let walk = evt3_walk(
        width,
        height,
        state,
        buffer.subrange(offset as int, buffer.len() as int),
        packet_end_t_of(building.4) as u64,
    );
    let end = (offset + walk.0.position) as nat;
    let data = building.0 + buffer.subrange(offset as int, end as int);
    let on = saturating(building.2 + walk.0.on);
    let off = saturating(building.3 + walk.0.off);
    let rising = saturating_sum(rising, walk.0.trigger_rising);
    let falling = saturating_sum(falling, walk.0.trigger_falling);
    if offset > buffer.len() || end > buffer.len() || walk.0.position == 0 || end / 2
        >= buffer.len() / 2 {
        (Seq::empty(), (data, building.1, on, off, building.4), walk.1, rising, falling)
    } else {
        let rest = cut(
            width,
            height,
            walk.1,
            (Seq::empty(), walk.1, 0, 0, building.4 + 1),
            buffer,
            end,
            rising,
            falling,
        );
        (
            seq![(data, building.1, packet_end_t_of(building.4) as u64, on, off)] + rest.0,
            rest.1,
            rest.2,
            rest.3,
            rest.4,
        )
    }
}

/// The packets that one USB buffer completed, and the trigger events it held.
pub struct BufferPackets {
    pub packets: Vec<CompletedPacket>,
    pub trigger_rising: u64,
    pub trigger_falling: u64,
}

/// Walks a USB buffer with the decoder, cutting it at each packet end time. The packets,
/// the packet left being assembled, the decoder's final state and the trigger counts are
/// those of `cut`: a packet closes wherever the decoder stops at its end time before the
/// buffer's last whole word, and the next one starts at the state reached there.
#[verifier::rlimit(60)]
pub fn packetize(
    builder: &mut PacketBuilder,
    decoder: &mut DecoderState,
    width: u16,
    height: u16,
    buffer: &[u8],
) -> (r: BufferPackets)
    requires
        old(builder).wf(),
        old(builder).spec_next_packet_index() + buffer@.len() < MAXIMUM_PACKET_INDEX,
        old(decoder).overflows + buffer@.len() / 2 <= u32::MAX,
    ensures
        final(builder).wf(),
        r.packets@.map_values(|p: CompletedPacket| packet_view(p)) == cut(
            width,
            height,
            *old(decoder),
            builder_view(*old(builder)),
            buffer@,
            0,
            0,
            0,
        ).0,
        builder_view(*final(builder)) == cut(
            width,
            height,
            *old(decoder),
            builder_view(*old(builder)),
            buffer@,
            0,
            0,
            0,
        ).1,
        *final(decoder) == cut(
            width,
            height,
            *old(decoder),
            builder_view(*old(builder)),
            buffer@,
            0,
            0,
            0,
        ).2,
        r.trigger_rising == cut(
            width,
            height,
            *old(decoder),
            builder_view(*old(builder)),
            buffer@,
            0,
            0,
            0,
        ).3,
        r.trigger_falling == cut(
            width,
            height,
            *old(decoder),
            builder_view(*old(builder)),
            buffer@,
            0,
            0,
            0,
        ).4,
        packets_data(r.packets@) + final(builder).data() == old(builder).data() + buffer@.subrange(
            0,
            buffer@.len() - buffer@.len() % 2,
        ),
{
    let ghost whole = cut(width, height, *decoder, builder_view(*builder), buffer@, 0, 0, 0);
    let mut packets: Vec<CompletedPacket> = Vec::new();
    let mut trigger_rising: u64 = 0;
    let mut trigger_falling: u64 = 0;
    let mut offset: usize = 0;
    let length = buffer.len();
    loop
        invariant_except_break
            builder.wf(),
            offset <= length,
            offset % 2 == 0,
            length == buffer@.len(),
            builder.spec_next_packet_index() == old(builder).spec_next_packet_index()
                + packets@.len(),
            packets@.len() <= offset / 2,
            packets_data(packets@) + builder.data() == old(builder).data() + buffer@.subrange(
                0,
                offset as int,
            ),
            old(builder).spec_next_packet_index() + buffer@.len() < MAXIMUM_PACKET_INDEX,
            decoder.overflows + (length - offset) / 2 <= u32::MAX,
            whole == cut(width, height, *old(decoder), builder_view(*old(builder)), buffer@, 0, 0, 0),
            packets@.map_values(|p: CompletedPacket| packet_view(p)) + cut(
                width,
                height,
                *decoder,
                builder_view(*builder),
                buffer@,
                offset as nat,
                trigger_rising,
                trigger_falling,
            ).0 == whole.0,
            cut(
                width,
                height,
                *decoder,
                builder_view(*builder),
                buffer@,
                offset as nat,
                trigger_rising,
                trigger_falling,
            ).1 == whole.1,
            cut(
                width,
                height,
                *decoder,
                builder_view(*builder),
                buffer@,
                offset as nat,
                trigger_rising,
                trigger_falling,
            ).2 == whole.2,
            cut(
                width,
                height,
                *decoder,
                builder_view(*builder),
                buffer@,
                offset as nat,
                trigger_rising,
                trigger_falling,
            ).3 == whole.3,
            cut(
                width,
                height,
                *decoder,
                builder_view(*builder),
                buffer@,
                offset as nat,
                trigger_rising,
                trigger_falling,
            ).4 == whole.4,
        ensures
            builder.wf(),
            packets@.map_values(|p: CompletedPacket| packet_view(p)) == whole.0,
            builder_view(*builder) == whole.1,
            *decoder == whole.2,
            trigger_rising == whole.3,
            trigger_falling == whole.4,
            packets_data(packets@) + builder.data() == old(builder).data() + buffer@.subrange(
                0,
                length - length % 2,
            ),
        decreases length - offset,
    {
        let ghost current = cut(
            width,
            height,
            *decoder,
            builder_view(*builder),
            buffer@,
            offset as nat,
            trigger_rising,
            trigger_falling,
        );
        let threshold_t = builder.end_t();
        let walk = evt3_walk_until(width, height, *decoder, &buffer[offset..length], threshold_t);
        let span = walk.0;
        let ghost done = packets_data(packets@);
        let ghost before = builder.data();
        let boundary = builder.absorb(buffer, offset, span.position, span.on, span.off);
        let ghost walked = buffer@.subrange(offset as int, offset + span.position);
        trigger_rising = trigger_rising.saturating_add(span.trigger_rising);
        trigger_falling = trigger_falling.saturating_add(span.trigger_falling);
        assert(buffer@.subrange(0, offset as int) + buffer@.subrange(
            offset as int,
            offset + span.position,
        ) =~= buffer@.subrange(0, offset + span.position));
        assert(done + builder.data() =~= (done + before) + walked);
        assert((old(builder).data() + buffer@.subrange(0, offset as int)) + walked
            =~= old(builder).data() + buffer@.subrange(0, offset + span.position));
        offset = offset + span.position;
        *decoder = walk.1;
        if !boundary {
            assert(offset == length - length % 2);
            assert(current.0 =~= Seq::<PacketView>::empty());
            assert(packets@.map_values(|p: CompletedPacket| packet_view(p)) + current.0
                =~= packets@.map_values(|p: CompletedPacket| packet_view(p)));
            break ;
        }
        let ghost views_before = packets@.map_values(|p: CompletedPacket| packet_view(p));
        let ghost packets_before = packets@;
        let packet = builder.finish(walk.1);
        let ghost view = packet_view(packet);
        packets.push(packet);
        assert(packets@.drop_last() =~= packets_before);
        assert(packets@.map_values(|p: CompletedPacket| packet_view(p)) =~= views_before.push(
            view,
        ));
        assert(current.0 == seq![view] + cut(
            width,
            height,
            *decoder,
            builder_view(*builder),
            buffer@,
            offset as nat,
            trigger_rising,
            trigger_falling,
        ).0);
        assert(views_before + current.0 =~= views_before.push(view) + cut(
            width,
            height,
            *decoder,
            builder_view(*builder),
            buffer@,
            offset as nat,
            trigger_rising,
            trigger_falling,
        ).0);
    }
    BufferPackets { packets, trigger_rising, trigger_falling }
}

} // verus!
