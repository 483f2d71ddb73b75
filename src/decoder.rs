//! Snapshot of an EVT3 decoder, taken at a byte boundary of the raw stream, and its
//! little-endian encodings.
use vstd::prelude::*;

verus! {

/// The EVT3 decoder state at the first byte of a packet payload: enough to decode the
/// packet on its own. `previous_msb_t` is nothing until the decoder has seen a time word.
#[derive(Debug, Clone, Copy, PartialEq, Eq, Structural, Hash)]
pub struct DecoderState {
    pub t: u64,
    pub overflows: u32,
    pub previous_msb_t: Option<u16>,
    pub previous_lsb_t: u16,
    pub x: u16,
    pub y: u16,
    /// Whether the last event's polarity is on.
    pub polarity: bool,
}

/// Little-endian bytes of an unsigned integer of `n` bytes.
pub open spec fn le_bytes(v: nat, n: nat) -> Seq<u8>
    decreases n,
{
    if n == 0 {
        Seq::empty()
    } else {
        seq![(v % 256) as u8] + le_bytes(v / 256, (n - 1) as nat)
    }
}

pub open spec fn u16_le(v: u16) -> Seq<u8> {
    le_bytes(v as nat, 2)
}

pub open spec fn u32_le(v: u32) -> Seq<u8> {
    le_bytes(v as nat, 4)
}

pub open spec fn u64_le(v: u64) -> Seq<u8> {
    le_bytes(v as nat, 8)
}

/// The code stored for the high part of the last time word: the word's twelve bits, or
/// all ones before the first one (no twelve-bit value takes it).
pub open spec fn msb_code(previous_msb_t: Option<u16>) -> u16 {
    match previous_msb_t {
        Some(v) => v,
        None => NO_PREVIOUS_MSB_T,
    }
}

/// The byte that stores a polarity: 1 for on, 0 for off.
pub open spec fn polarity_byte(polarity: bool) -> u8 {
    if polarity {
        1
    } else {
        0
    }
}

/// The code of a missing time word.
pub const NO_PREVIOUS_MSB_T: u16 = 0xffff;

fn msb_code_of(previous_msb_t: Option<u16>) -> (r: u16)
    ensures
        r == msb_code(previous_msb_t),
{
    match previous_msb_t {
        Some(v) => v,
        None => NO_PREVIOUS_MSB_T,
    }
}

impl DecoderState {
    /// The device time the decoder has reached.
    pub open spec fn spec_current_t(self) -> u64 {
        self.t
    }

    pub fn current_t(&self) -> (r: u64)
        ensures
            r == self.spec_current_t(),
    {
        self.t
    }

    /// The 21-byte form stored in each index entry (polarity on one byte).
    pub open spec fn index_bytes(self) -> Seq<u8> {
        u64_le(self.t) + u32_le(self.overflows) + u16_le(msb_code(self.previous_msb_t)) + u16_le(
            self.previous_lsb_t,
        ) + u16_le(self.x) + u16_le(self.y) + seq![polarity_byte(self.polarity)]
    }

    /// The 22-byte form stored in each packet header (polarity on two bytes).
    pub open spec fn packet_bytes(self) -> Seq<u8> {
        u64_le(self.t) + u32_le(self.overflows) + u16_le(msb_code(self.previous_msb_t)) + u16_le(
            self.previous_lsb_t,
        ) + u16_le(self.x) + u16_le(self.y) + u16_le(polarity_byte(self.polarity) as u16)
    }
}

/// Appends the little-endian bytes of `v`, `n` bytes of it.
pub fn push_le(buffer: &mut Vec<u8>, v: u64, n: usize)
    requires
        n <= 8,
    ensures
        final(buffer)@ == old(buffer)@ + le_bytes(v as nat, n as nat),
{
    let mut rest: u64 = v;
    let mut k: usize = 0;
    while k < n
        invariant
            k <= n,
            n <= 8,
            buffer@ + le_bytes(rest as nat, (n - k) as nat) == old(buffer)@ + le_bytes(
                v as nat,
                n as nat,
            ),
        decreases n - k,
    {
        let ghost before = buffer@;
        buffer.push((rest % 256) as u8);
        assert(le_bytes(rest as nat, (n - k) as nat) == seq![(rest % 256) as u8] + le_bytes(
            (rest / 256) as nat,
            (n - k - 1) as nat,
        ));
        assert(buffer@ + le_bytes((rest / 256) as nat, (n - k - 1) as nat) =~= before
            + le_bytes(rest as nat, (n - k) as nat));
        rest = rest / 256;
        k = k + 1;
    }
    assert(le_bytes(rest as nat, 0) =~= Seq::<u8>::empty());
    assert(buffer@ =~= buffer@ + le_bytes(rest as nat, 0));
}

impl DecoderState {
    /// Appends the 21-byte index form of the state.
    pub fn write_index_bytes(&self, buffer: &mut Vec<u8>)
        ensures
            final(buffer)@ == old(buffer)@ + self.index_bytes(),
    {
        push_le(buffer, self.t, 8);
        push_le(buffer, self.overflows as u64, 4);
        push_le(buffer, msb_code_of(self.previous_msb_t) as u64, 2);
        push_le(buffer, self.previous_lsb_t as u64, 2);
        push_le(buffer, self.x as u64, 2);
        push_le(buffer, self.y as u64, 2);
        buffer.push(if self.polarity {
            1u8
        } else {
            0u8
        });
        assert(buffer@ =~= old(buffer)@ + self.index_bytes());
    }

    /// Appends the 22-byte packet-header form of the state.
    pub fn write_packet_bytes(&self, buffer: &mut Vec<u8>)
        ensures
            final(buffer)@ == old(buffer)@ + self.packet_bytes(),
    {
        push_le(buffer, self.t, 8);
        push_le(buffer, self.overflows as u64, 4);
        push_le(buffer, msb_code_of(self.previous_msb_t) as u64, 2);
        push_le(buffer, self.previous_lsb_t as u64, 2);
        push_le(buffer, self.x as u64, 2);
        push_le(buffer, self.y as u64, 2);
        push_le(buffer, if self.polarity {
            1u64
        } else {
            0u64
        }, 2);
        assert(buffer@ =~= old(buffer)@ + self.packet_bytes());
    }
}

} // verus!
