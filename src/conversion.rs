//! The conversion of a recording to CSV: reading file headers and index entries back, and
//! the CSV rows of events, triggers and index entries.
use vstd::prelude::*;

use crate::decoder::{le_bytes, msb_code, DecoderState, NO_PREVIOUS_MSB_T};
use crate::format::{Index, FILE_VERSION};
use crate::producer::{evt3_walk, evt3_walk_until};
use neuromorphic_drivers::adapters::evt3;
use neuromorphic_drivers::types::Polarity;

verus! {

/// The value of little-endian bytes.
pub open spec fn le_value(s: Seq<u8>) -> nat
    decreases s.len(),
{
    if s.len() == 0 {
        0
    } else {
        s[0] as nat + 256 * le_value(s.drop_first())
    }
}

pub open spec fn pow256(n: nat) -> nat
    decreases n,
{
    if n == 0 {
        1
    } else {
        256 * pow256((n - 1) as nat)
    }
}

proof fn lemma_le_round_trip(v: nat, n: nat)
    requires
        v < pow256(n),
    ensures
        le_bytes(v, n).len() == n,
        le_value(le_bytes(v, n)) == v,
    decreases n,
{
    if n > 0 {
        assert(v / 256 < pow256((n - 1) as nat)) by (nonlinear_arith)
            requires
                v < 256 * pow256((n - 1) as nat),
        ;
        lemma_le_round_trip(v / 256, (n - 1) as nat);
        let s = le_bytes(v, n);
        assert(s.drop_first() =~= le_bytes(v / 256, (n - 1) as nat));
    }
}

proof fn lemma_le_value_bound(s: Seq<u8>)
    ensures
        le_value(s) < pow256(s.len()),
    decreases s.len(),
{
    if s.len() > 0 {
        lemma_le_value_bound(s.drop_first());
        assert(s[0] + 256 * le_value(s.drop_first()) < 256 * pow256((s.len() - 1) as nat))
            by (nonlinear_arith)
            requires
                s[0] < 256,
                le_value(s.drop_first()) < pow256((s.len() - 1) as nat),
        ;
    }
}

proof fn lemma_pow256_values()
    ensures
        pow256(1) == 0x100,
        pow256(2) == 0x1_0000,
        pow256(4) == 0x1_0000_0000,
        pow256(8) == 0x1_0000_0000_0000_0000,
{
    reveal_with_fuel(pow256, 9);
}

/// Reads `n` little-endian bytes at `offset`.
fn read_le(bytes: &[u8], offset: usize, n: usize) -> (r: u64)
    requires
        n <= 8,
        offset + n <= bytes@.len(),
    ensures
        r == le_value(bytes@.subrange(offset as int, offset + n)),
{
    let length = bytes.len();
    assert(offset + n <= length);
    let mut r: u64 = 0;
    let mut k: usize = n;
    proof {
        lemma_pow256_values();
    }
    while k > 0
        invariant
            k <= n <= 8,
            offset + n <= bytes@.len(),
            length == bytes@.len(),
            r == le_value(bytes@.subrange(offset + k, offset + n)),
            r < pow256((n - k) as nat),
            pow256(8) == 0x1_0000_0000_0000_0000,
        decreases k,
    {
        let ghost tail = bytes@.subrange(offset + k, offset + n);
        let ghost s = bytes@.subrange(offset + k - 1, offset + n);
        assert(s.drop_first() =~= tail);
        proof {
            lemma_pow256_monotone((n - k) as nat, 7);
        }
        assert(r * 256 + bytes@[offset + k - 1] < 256 * pow256((n - k) as nat)) by (
        nonlinear_arith)
            requires
                r < pow256((n - k) as nat),
                bytes@[offset + k - 1] < 256,
        ;
        r = r * 256 + bytes[offset + k - 1] as u64;
        k = k - 1;
    }
    r
}

proof fn lemma_pow256_monotone(a: nat, b: nat)
    requires
        a <= b,
    ensures
        pow256(a) <= pow256(b),
    decreases b,
{
    if a < b {
        lemma_pow256_monotone(a, (b - 1) as nat);
    }
}

/// Why a file header was refused.
#[derive(Debug, Clone, Copy, PartialEq, Eq, Structural)]
pub enum HeaderError {
    /// The file ends before its header does.
    TooShort,
    BadSignature,
    BadVersion { found: u8 },
}

/// Checks a header made of a signature, a version byte and a format byte, and returns the
/// format.
pub open spec fn header_result(bytes: Seq<u8>, signature: Seq<u8>, version: u8) -> Result<
    u8,
    HeaderError,
> {
    if bytes.len() < signature.len() + 2 {
        Err(HeaderError::TooShort)
    } else if bytes.subrange(0, signature.len() as int) != signature {
        Err(HeaderError::BadSignature)
    } else if bytes[signature.len() as int] != version {
        Err(HeaderError::BadVersion { found: bytes[signature.len() as int] })
    } else {
        Ok(bytes[signature.len() + 1 as int])
    }
}

pub fn read_header(bytes: &[u8], signature: &[u8], version: u8) -> (r: Result<u8, HeaderError>)
    ensures
        r == header_result(bytes@, signature@, version),
{
    if bytes.len() < 2 || bytes.len() - 2 < signature.len() {
        return Err(HeaderError::TooShort);
    }
    let mut k: usize = 0;
    while k < signature.len()
        invariant
            k <= signature@.len(),
            signature@.len() + 2 <= bytes@.len(),
            bytes@.subrange(0, k as int) == signature@.subrange(0, k as int),
        decreases signature@.len() - k,
    {
        if bytes[k] != signature[k] {
            assert(bytes@.subrange(0, signature@.len() as int)[k as int] != signature@[k as int]);
            return Err(HeaderError::BadSignature);
        }
        k = k + 1;
        assert(bytes@.subrange(0, k as int) =~= signature@.subrange(0, k as int));
    }
    assert(bytes@.subrange(0, signature@.len() as int) =~= signature@);
    let found = bytes[signature.len()];
    if found != version {
        return Err(HeaderError::BadVersion { found });
    }
    Ok(bytes[signature.len() + 1])
}

/// A header written as signature, version and format reads back as that format, whatever
/// follows it (the raw file's sensor size, the first entries).
pub proof fn lemma_header_round_trip(signature: Seq<u8>, format: u8, rest: Seq<u8>)
    ensures
        header_result(signature + seq![FILE_VERSION, format] + rest, signature, FILE_VERSION) == Ok::<
            u8,
            HeaderError,
        >(format),
{
    let bytes = signature + seq![FILE_VERSION, format] + rest;
    assert(bytes.subrange(0, signature.len() as int) =~= signature);
    assert(bytes[signature.len() as int] == FILE_VERSION);
    assert(bytes[signature.len() + 1 as int] == format);
}

/// The index entry that 54 bytes hold.
pub open spec fn index_of_bytes(b: Seq<u8>) -> Index {
    Index {
        system_time: le_value(b.subrange(0, 8)) as u64,
        system_timestamp: le_value(b.subrange(8, 16)) as u64,
        first_after_overflow: b[16] == 1,
        raw_file_offset: le_value(b.subrange(17, 25)) as u64,
        raw_length: le_value(b.subrange(25, 33)) as u64,
        state: DecoderState {
            t: le_value(b.subrange(33, 41)) as u64,
            overflows: le_value(b.subrange(41, 45)) as u32,
            previous_msb_t: if le_value(b.subrange(45, 47)) == NO_PREVIOUS_MSB_T {
                None
            } else {
                Some(le_value(b.subrange(45, 47)) as u16)
            },
            previous_lsb_t: le_value(b.subrange(47, 49)) as u16,
            x: le_value(b.subrange(49, 51)) as u16,
            y: le_value(b.subrange(51, 53)) as u16,
            polarity: b[53] == 1,
        },
    }
}

/// Reads an index entry from its 54 bytes at `offset`.
pub fn parse_index_entry(bytes: &[u8], offset: usize) -> (r: Index)
    requires
        offset + 54 <= bytes@.len(),
    ensures
        r == index_of_bytes(bytes@.subrange(offset as int, offset + 54)),
{
    let length = bytes.len();
    assert(offset + 54 <= length);
    let ghost b = bytes@.subrange(offset as int, offset + 54);
    let system_time = read_le(bytes, offset, 8);
    let system_timestamp = read_le(bytes, offset + 8, 8);
    let first_after_overflow = bytes[offset + 16] == 1;
    let raw_file_offset = read_le(bytes, offset + 17, 8);
    let raw_length = read_le(bytes, offset + 25, 8);
    let t = read_le(bytes, offset + 33, 8);
    let overflows = read_le(bytes, offset + 41, 4);
    let previous_msb_t = read_le(bytes, offset + 45, 2);
    let previous_lsb_t = read_le(bytes, offset + 47, 2);
    let x = read_le(bytes, offset + 49, 2);
    let y = read_le(bytes, offset + 51, 2);
    let polarity = bytes[offset + 53] == 1;
    proof {
        lemma_pow256_values();
        assert(b.subrange(0, 8) =~= bytes@.subrange(offset as int, offset + 8));
        assert(b.subrange(8, 16) =~= bytes@.subrange(offset + 8, offset + 16));
        assert(b.subrange(17, 25) =~= bytes@.subrange(offset + 17, offset + 25));
        assert(b.subrange(25, 33) =~= bytes@.subrange(offset + 25, offset + 33));
        assert(b.subrange(33, 41) =~= bytes@.subrange(offset + 33, offset + 41));
        assert(b.subrange(41, 45) =~= bytes@.subrange(offset + 41, offset + 45));
        assert(b.subrange(45, 47) =~= bytes@.subrange(offset + 45, offset + 47));
        assert(b.subrange(47, 49) =~= bytes@.subrange(offset + 47, offset + 49));
        assert(b.subrange(49, 51) =~= bytes@.subrange(offset + 49, offset + 51));
        assert(b.subrange(51, 53) =~= bytes@.subrange(offset + 51, offset + 53));
        lemma_le_value_bound(b.subrange(41, 45));
        lemma_le_value_bound(b.subrange(45, 47));
        lemma_le_value_bound(b.subrange(47, 49));
        lemma_le_value_bound(b.subrange(49, 51));
        lemma_le_value_bound(b.subrange(51, 53));
    }
    Index {
        system_time,
        system_timestamp,
        first_after_overflow,
        raw_file_offset,
        raw_length,
        state: DecoderState {
            t,
            overflows: overflows as u32,
            previous_msb_t: if previous_msb_t == NO_PREVIOUS_MSB_T as u64 {
                None
            } else {
                Some(previous_msb_t as u16)
            },
            previous_lsb_t: previous_lsb_t as u16,
            x: x as u16,
            y: y as u16,
            polarity,
        },
    }
}

/// An index entry written to the index file reads back as itself (its time word being one
/// of twelve bits).
pub proof fn lemma_index_round_trip(index: Index)
    requires
        index.state.previous_msb_t != Some(NO_PREVIOUS_MSB_T),
    ensures
        index.spec_bytes().len() == 54,
        index_of_bytes(index.spec_bytes()) == index,
{
    lemma_pow256_values();
    lemma_le_round_trip(index.system_time as nat, 8);
    lemma_le_round_trip(index.system_timestamp as nat, 8);
    lemma_le_round_trip(index.raw_file_offset as nat, 8);
    lemma_le_round_trip(index.raw_length as nat, 8);
    lemma_le_round_trip(index.state.t as nat, 8);
    lemma_le_round_trip(index.state.overflows as nat, 4);
    lemma_le_round_trip(msb_code(index.state.previous_msb_t) as nat, 2);
    lemma_le_round_trip(index.state.previous_lsb_t as nat, 2);
    lemma_le_round_trip(index.state.x as nat, 2);
    lemma_le_round_trip(index.state.y as nat, 2);
    let b = index.spec_bytes();
    assert(b.subrange(0, 8) =~= le_bytes(index.system_time as nat, 8));
    assert(b.subrange(8, 16) =~= le_bytes(index.system_timestamp as nat, 8));
    assert(b.subrange(17, 25) =~= le_bytes(index.raw_file_offset as nat, 8));
    assert(b.subrange(25, 33) =~= le_bytes(index.raw_length as nat, 8));
    assert(b.subrange(33, 41) =~= le_bytes(index.state.t as nat, 8));
    assert(b.subrange(41, 45) =~= le_bytes(index.state.overflows as nat, 4));
    assert(b.subrange(45, 47) =~= le_bytes(msb_code(index.state.previous_msb_t) as nat, 2));
    assert(b.subrange(47, 49) =~= le_bytes(index.state.previous_lsb_t as nat, 2));
    assert(b.subrange(49, 51) =~= le_bytes(index.state.x as nat, 2));
    assert(b.subrange(51, 53) =~= le_bytes(index.state.y as nat, 2));
}

/// The decimal digits of `v`.
pub open spec fn decimal(v: nat) -> Seq<u8>
    decreases v,
{
    if v < 10 {
        seq![(48 + v) as u8]
    } else {
        decimal(v / 10) + seq![(48 + v % 10) as u8]
    }
}

/// Appends the decimal digits of `v`.
pub fn push_decimal(buffer: &mut Vec<u8>, v: u64)
    ensures
        final(buffer)@ == old(buffer)@ + decimal(v as nat),
    decreases v,
{
    if v >= 10 {
        push_decimal(buffer, v / 10);
    }
    buffer.push((48 + v % 10) as u8);
    assert(buffer@ =~= old(buffer)@ + decimal(v as nat));
}

pub open spec fn flag(b: bool) -> Seq<u8> {
    if b {
        seq![49u8]
    } else {
        seq![48u8]
    }
}

/// A row of the events table: `t,x,y,on`.
pub open spec fn event_row(t: u64, x: u16, y: u16, on: bool) -> Seq<u8> {
    decimal(t as nat) + seq![44u8] + decimal(x as nat) + seq![44u8] + decimal(y as nat) + seq![
        44u8,
    ] + flag(on) + seq![10u8]
}

pub fn push_event_row(buffer: &mut Vec<u8>, t: u64, x: u16, y: u16, on: bool)
    ensures
        final(buffer)@ == old(buffer)@ + event_row(t, x, y, on),
{
    push_decimal(buffer, t);
    buffer.push(44);
    push_decimal(buffer, x as u64);
    buffer.push(44);
    push_decimal(buffer, y as u64);
    buffer.push(44);
    buffer.push(if on {
        49
    } else {
        48
    });
    buffer.push(10);
    assert(buffer@ =~= old(buffer)@ + event_row(t, x, y, on));
}

/// A row of the triggers table: `system_time,system_timestamp,t,id,rising`, where the
/// last column is the trigger's polarity code (falling, rising or pulse).
pub open spec fn trigger_row(
    system_time: u64,
    system_timestamp: u64,
    t: u64,
    id: u64,
    polarity: u8,
) -> Seq<u8> {
    decimal(system_time as nat) + seq![44u8] + decimal(system_timestamp as nat) + seq![44u8]
        + decimal(t as nat) + seq![44u8] + decimal(id as nat) + seq![44u8] + decimal(
        polarity as nat,
    ) + seq![10u8]
}

pub fn push_trigger_row(
    buffer: &mut Vec<u8>,
    system_time: u64,
    system_timestamp: u64,
    t: u64,
    id: u64,
    polarity: u8,
)
    ensures
        final(buffer)@ == old(buffer)@ + trigger_row(system_time, system_timestamp, t, id, polarity),
{
    push_decimal(buffer, system_time);
    buffer.push(44);
    push_decimal(buffer, system_timestamp);
    buffer.push(44);
    push_decimal(buffer, t);
    buffer.push(44);
    push_decimal(buffer, id);
    buffer.push(44);
    push_decimal(buffer, polarity as u64);
    buffer.push(10);
    assert(buffer@ =~= old(buffer)@ + trigger_row(system_time, system_timestamp, t, id, polarity));
}

/// A row of the index table: `system_time,system_timestamp,first_after_overflow,t,offset`,
/// where `offset` is the position of the entry's first event row in the events table.
pub open spec fn index_row(index: Index, csv_offset: u64) -> Seq<u8> {
    decimal(index.system_time as nat) + seq![44u8] + decimal(index.system_timestamp as nat)
        + seq![44u8] + flag(index.first_after_overflow) + seq![44u8] + decimal(
        index.state.t as nat,
    ) + seq![44u8] + decimal(csv_offset as nat) + seq![10u8]
}

pub fn push_index_row(buffer: &mut Vec<u8>, index: &Index, csv_offset: u64)
    ensures
        final(buffer)@ == old(buffer)@ + index_row(*index, csv_offset),
{
    push_decimal(buffer, index.system_time);
    buffer.push(44);
    push_decimal(buffer, index.system_timestamp);
    buffer.push(44);
    buffer.push(if index.first_after_overflow {
        49
    } else {
        48
    });
    buffer.push(44);
    push_decimal(buffer, index.state.t);
    buffer.push(44);
    push_decimal(buffer, csv_offset);
    buffer.push(10);
    assert(buffer@ =~= old(buffer)@ + index_row(*index, csv_offset));
}

/// The raw file was read up to `raw_position` when an index entry pointing at
/// `raw_file_offset` came: they must agree, every buffer following the previous one.
#[derive(Debug, Clone, Copy, PartialEq, Eq, Structural)]
pub struct PositionMismatch {
    pub raw_position: u64,
    pub raw_file_offset: u64,
}

/// Checks that an index entry continues the raw file where the previous one ended, and
/// returns the position after its bytes.
pub fn next_raw_position(raw_position: u64, index: &Index) -> (r: Result<u64, PositionMismatch>)
    ensures
        index.raw_file_offset != raw_position ==> r == Err::<u64, PositionMismatch>(
            PositionMismatch { raw_position, raw_file_offset: index.raw_file_offset },
        ),
        index.raw_file_offset == raw_position && raw_position + index.raw_length <= u64::MAX
            ==> r == Ok::<u64, PositionMismatch>((raw_position + index.raw_length) as u64),
        index.raw_file_offset == raw_position && raw_position + index.raw_length > u64::MAX
            ==> r == Err::<u64, PositionMismatch>(
            PositionMismatch { raw_position, raw_file_offset: index.raw_file_offset },
        ),
{
    if index.raw_file_offset != raw_position || index.raw_length > u64::MAX - raw_position {
        Err(PositionMismatch { raw_position, raw_file_offset: index.raw_file_offset })
    } else {
        Ok(raw_position + index.raw_length)
    }
}

/// A decoded polarity event: time, x, y, and whether it is on.
pub type PolarityEvent = (u64, u16, u16, bool);

/// A decoded trigger event: time, trigger id, and polarity code (falling, rising, pulse).
pub type TriggerEvent = (u64, u8, u8);

/// The events that the EVT3 decoder of a `width` x `height` sensor, started at `state`,
/// reads from `raw`, in order.
pub uninterp spec fn evt3_decode(width: u16, height: u16, state: DecoderState, raw: Seq<u8>) -> (
    Seq<PolarityEvent>,
    Seq<TriggerEvent>,
);

/// Appends one decoded polarity event.
pub fn record_polarity_event(events: &mut Vec<PolarityEvent>, t: u64, x: u16, y: u16, on: bool)
    ensures
        final(events)@ == old(events)@.push((t, x, y, on)),
{
    events.push((t, x, y, on));
}

/// Appends one decoded trigger event.
pub fn record_trigger_event(events: &mut Vec<TriggerEvent>, t: u64, id: u8, polarity: u8)
    ensures
        final(events)@ == old(events)@.push((t, id, polarity)),
{
    events.push((t, id, polarity));
}

/// Relies on `evt3::Adapter::convert`, run on an adapter built by
/// `Adapter::from_dimensions_and_state`: it hands out each polarity and trigger event of
/// the bytes in order, and the events depend on the sensor size, the state and the bytes
/// alone. It adds one to the overflow count at most once per word, so `requires` leaves
/// out the states whose count could pass `u32::MAX` on these bytes.
#[verifier::external_body]
fn evt3_decode_block(width: u16, height: u16, state: DecoderState, raw: &[u8]) -> (r: (
    Vec<PolarityEvent>,
    Vec<TriggerEvent>,
))
    requires
        state.overflows + raw@.len() / 2 <= u32::MAX,
    ensures
        (r.0@, r.1@) == evt3_decode(width, height, state, raw@),
{
    let polarity = if state.polarity { Polarity::On } else { Polarity::Off };
    let start = evt3::State { t: state.t, overflows: state.overflows, previous_msb_t: state.previous_msb_t, previous_lsb_t: state.previous_lsb_t, x: state.x, y: state.y, polarity };
    let mut adapter = evt3::Adapter::from_dimensions_and_state(width, height, start);
    let (mut events, mut triggers) = (Vec::new(), Vec::new());
    adapter.convert(raw, |e| record_polarity_event(&mut events, e.t, e.x, e.y, e.polarity == Polarity::On), |e| record_trigger_event(&mut triggers, e.t, e.id, e.polarity as u8));
    (events, triggers)
}

/// The rows of the events table for a sequence of polarity events.
pub open spec fn event_rows(events: Seq<PolarityEvent>) -> Seq<u8>
    decreases events.len(),
{
    if events.len() == 0 {
        Seq::empty()
    } else {
        let e = events.last();
        event_rows(events.drop_last()) + event_row(e.0, e.1, e.2, e.3)
    }
}

/// The rows of the triggers table for a sequence of trigger events of one index entry.
pub open spec fn trigger_rows(system_time: u64, system_timestamp: u64, events: Seq<TriggerEvent>) -> Seq<u8>
    decreases events.len(),
{
    if events.len() == 0 {
        Seq::empty()
    } else {
        let e = events.last();
        trigger_rows(system_time, system_timestamp, events.drop_last()) + trigger_row(
            system_time,
            system_timestamp,
            e.0,
            e.1 as u64,
            e.2,
        )
    }
}

/// Decodes the raw bytes of one index entry: appends the rows of its events and triggers
/// and returns the decoder state after them (the state the decoder reaches when it walks
/// all the bytes, no time being a threshold it can reach).
pub fn convert_block(
    width: u16,
    height: u16,
    index: &Index,
    raw: &[u8],
    events_csv: &mut Vec<u8>,
    triggers_csv: &mut Vec<u8>,
) -> (r: DecoderState)
    requires
        index.state.overflows + raw@.len() / 2 <= u32::MAX,
    ensures
        final(events_csv)@ == old(events_csv)@ + event_rows(
            evt3_decode(width, height, index.state, raw@).0,
        ),
        final(triggers_csv)@ == old(triggers_csv)@ + trigger_rows(
            index.system_time,
            index.system_timestamp,
            evt3_decode(width, height, index.state, raw@).1,
        ),
        r == evt3_walk(width, height, index.state, raw@, u64::MAX).1,
{
    let decoded = evt3_decode_block(width, height, index.state, raw);
    let reached = evt3_walk_until(width, height, index.state, raw, u64::MAX).1;
    let mut k: usize = 0;
    while k < decoded.0.len()
        invariant
            k <= decoded.0@.len(),
            events_csv@ == old(events_csv)@ + event_rows(decoded.0@.subrange(0, k as int)),
        decreases decoded.0@.len() - k,
    {
        let e = decoded.0[k];
        assert(decoded.0@.subrange(0, k + 1).drop_last() =~= decoded.0@.subrange(0, k as int));
        push_event_row(events_csv, e.0, e.1, e.2, e.3);
        k = k + 1;
    }
    assert(decoded.0@.subrange(0, decoded.0@.len() as int) =~= decoded.0@);
    let mut k: usize = 0;
    while k < decoded.1.len()
        invariant
            k <= decoded.1@.len(),
            triggers_csv@ == old(triggers_csv)@ + trigger_rows(
                index.system_time,
                index.system_timestamp,
                decoded.1@.subrange(0, k as int),
            ),
        decreases decoded.1@.len() - k,
    {
        let e = decoded.1[k];
        assert(decoded.1@.subrange(0, k + 1).drop_last() =~= decoded.1@.subrange(0, k as int));
        push_trigger_row(triggers_csv, index.system_time, index.system_timestamp, e.0, e.1 as u64, e.2);
        k = k + 1;
    }
    assert(decoded.1@.subrange(0, decoded.1@.len() as int) =~= decoded.1@);
    reached
}

/// Where the stored state of an index entry differs from the state the decoder reached at
/// the end of the previous entry's bytes.
#[derive(Debug, Clone, Copy, PartialEq, Eq, Structural)]
pub struct StateMismatch {
    pub reached: DecoderState,
    pub stored: DecoderState,
}

/// Checks that an index entry continues the decoding where the previous one ended.
pub fn check_state_continuity(reached: Option<DecoderState>, stored: DecoderState) -> (r: Result<
    (),
    StateMismatch,
>)
    ensures
        r == match reached {
            Some(reached) => if reached == stored {
                Ok::<(), StateMismatch>(())
            } else {
                Err(StateMismatch { reached, stored })
            },
            None => Ok(()),
        },
{
    match reached {
        Some(reached) => if reached == stored {
            Ok(())
        } else {
            Err(StateMismatch { reached, stored })
        },
        None => Ok(()),
    }
}

} // verus!
