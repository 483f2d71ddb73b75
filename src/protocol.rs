//! The wire protocol around the JSON messages: stream headers, length-prefixed framing of
//! control messages in both directions, and the pong reply.
use vstd::prelude::*;

use crate::decoder::{le_bytes, push_le, u32_le};

verus! {

/// The largest control message, length prefix included.
pub const MESSAGE_MAXIMUM_LENGTH: u32 = 1048576;

pub const MESSAGE_RECOMMENDED_BUFFER_COUNT: u32 = 32;

pub const PACKET_RECOMMENDED_BUFFER_COUNT: u32 = 16;

/// A stream that a device offers to the clients.
#[derive(Debug, Clone, Copy, PartialEq, Eq, Structural)]
pub enum Stream {
    /// Event packets of an EVT3 sensor of this size.
    Evt3 { width: u16, height: u16 },
    /// The samples of an EVK4 camera.
    Evk4Samples,
}

/// The reply to a ping: a message of eight bytes whose payload is `pong`.
pub open spec fn pong_bytes() -> Seq<u8> {
    seq![8u8, 0u8, 0u8, 0u8, 112u8, 111u8, 110u8, 103u8]
}

pub fn pong() -> (r: Vec<u8>)
    ensures
        r@ == pong_bytes(),
{
    let r = vec![8u8, 0u8, 0u8, 0u8, 112u8, 111u8, 110u8, 103u8];
    assert(r@ =~= pong_bytes());
    r
}

/// The little-endian value of four bytes.
pub open spec fn u32_from_le(b: Seq<u8>) -> int {
    b[0] + 256 * b[1] + 65536 * b[2] + 16777216 * b[3]
}

proof fn lemma_u32_le(v: u32)
    ensures
        u32_le(v).len() == 4,
        u32_from_le(u32_le(v)) == v,
{
    reveal_with_fuel(le_bytes, 5);
    let b = u32_le(v);
    assert(b[0] == v % 256);
    assert(b[1] == (v / 256) % 256);
    assert(b[2] == (v / 256 / 256) % 256);
    assert(b[3] == (v / 256 / 256 / 256) % 256);
    assert(v / 256 / 256 / 256 < 256) by (nonlinear_arith)
        requires
            v < 0x1_0000_0000,
    ;
    assert(u32_from_le(b) == v) by (nonlinear_arith)
        requires
            b[0] == v % 256,
            b[1] == (v / 256) % 256,
            b[2] == (v / 256 / 256) % 256,
            b[3] == v / 256 / 256 / 256,
    ;
}

/// The 12-byte header that opens every stream: stream id, recommended buffer count and
/// maximum message length, little-endian.
pub open spec fn stream_description_bytes(
    stream_id: u32,
    recommended_buffer_count: u32,
    maximum_length: u32,
) -> Seq<u8> {
    u32_le(stream_id) + u32_le(recommended_buffer_count) + u32_le(maximum_length)
}

pub fn stream_description(stream_id: u32, recommended_buffer_count: u32, maximum_length: u32) -> (r:
    Vec<u8>)
    ensures
        r@ == stream_description_bytes(stream_id, recommended_buffer_count, maximum_length),
        r@.len() == 12,
{
    let mut message: Vec<u8> = Vec::new();
    push_le(&mut message, stream_id as u64, 4);
    push_le(&mut message, recommended_buffer_count as u64, 4);
    push_le(&mut message, maximum_length as u64, 4);
    proof {
        lemma_u32_le(stream_id);
        lemma_u32_le(recommended_buffer_count);
        lemma_u32_le(maximum_length);
    }
    assert(message@ =~= stream_description_bytes(
        stream_id,
        recommended_buffer_count,
        maximum_length,
    ));
    message
}

/// A serialized message whose payload, once framed, would exceed the maximum length.
#[derive(Debug, Clone, Copy, PartialEq, Eq, Structural)]
pub struct MessageTooLong {
    pub payload_length: usize,
}

/// A framed message: its length (prefix included) on four bytes, then the payload.
pub open spec fn framed(payload: Seq<u8>) -> Seq<u8> {
    u32_le((payload.len() + 4) as u32) + payload
}

/// Frames a serialized server message. Fails where the framed message would exceed
/// `MESSAGE_MAXIMUM_LENGTH`.
pub fn frame_message(payload: &[u8]) -> (r: Result<Vec<u8>, MessageTooLong>)
    ensures
        payload@.len() + 4 <= MESSAGE_MAXIMUM_LENGTH ==> r is Ok && r->Ok_0@ == framed(payload@),
        payload@.len() + 4 > MESSAGE_MAXIMUM_LENGTH ==> r == Err::<Vec<u8>, MessageTooLong>(
            MessageTooLong { payload_length: payload@.len() as usize },
        ),
{
    if payload.len() > (MESSAGE_MAXIMUM_LENGTH as usize) - 4 {
        return Err(MessageTooLong { payload_length: payload.len() });
    }
    let mut bytes: Vec<u8> = Vec::new();
    push_le(&mut bytes, (payload.len() + 4) as u64, 4);
    let ghost header = bytes@;
    let mut k: usize = 0;
    while k < payload.len()
        invariant
            k <= payload@.len(),
            bytes@ == header + payload@.subrange(0, k as int),
        decreases payload@.len() - k,
    {
        bytes.push(payload[k]);
        k = k + 1;
        assert(bytes@ =~= header + payload@.subrange(0, k as int));
    }
    assert(payload@.subrange(0, payload@.len() as int) =~= payload@);
    Ok(bytes)
}

/// What the pending bytes of a control stream hold.
#[derive(Debug, Clone, Copy, PartialEq, Eq, Structural)]
pub enum MessageSplit {
    /// Not yet a whole message: read more.
    Incomplete,
    /// A whole message of `length` bytes (prefix included): its payload is the bytes from
    /// 4 to `length`, and what follows belongs to the next message.
    Complete { length: usize },
    /// The declared length cannot be a message: shorter than its prefix, or longer than
    /// the maximum.
    Invalid { length: u32 },
}

/// Splits the first message off the pending bytes of a control stream.
pub open spec fn split_of(pending: Seq<u8>) -> MessageSplit {
    if pending.len() < 4 {
        MessageSplit::Incomplete
    } else {
        let length = u32_from_le(pending);
        if length < 4 || length > MESSAGE_MAXIMUM_LENGTH {
            MessageSplit::Invalid { length: length as u32 }
        } else if pending.len() < length {
            MessageSplit::Incomplete
        } else {
            MessageSplit::Complete { length: length as usize }
        }
    }
}

pub fn next_message(pending: &[u8]) -> (r: MessageSplit)
    ensures
        r == split_of(pending@),
{
    if pending.len() < 4 {
        return MessageSplit::Incomplete;
    }
    let length: u64 = pending[0] as u64 + 256 * (pending[1] as u64) + 65536 * (pending[2] as u64)
        + 16777216 * (pending[3] as u64);
    if length < 4 || length > MESSAGE_MAXIMUM_LENGTH as u64 {
        MessageSplit::Invalid { length: length as u32 }
    } else if (pending.len() as u64) < length {
        MessageSplit::Incomplete
    } else {
        MessageSplit::Complete { length: length as usize }
    }
}

/// A framed payload is split back off whole, whatever follows it.
pub proof fn lemma_frame_round_trip(payload: Seq<u8>, rest: Seq<u8>)
    requires
        payload.len() + 4 <= MESSAGE_MAXIMUM_LENGTH,
    ensures
        split_of(framed(payload) + rest) == (MessageSplit::Complete {
            length: (payload.len() + 4) as usize,
        }),
        (framed(payload) + rest).subrange(4, payload.len() + 4 as int) == payload,
        (framed(payload) + rest).subrange(payload.len() + 4 as int, payload.len() + 4 + rest.len() as int)
            == rest,
{
    let v = (payload.len() + 4) as u32;
    lemma_u32_le(v);
    let all = framed(payload) + rest;
    assert(all[0] == u32_le(v)[0]);
    assert(all[1] == u32_le(v)[1]);
    assert(all[2] == u32_le(v)[2]);
    assert(all[3] == u32_le(v)[3]);
    assert(all.subrange(4, payload.len() + 4 as int) =~= payload);
    assert(all.subrange(payload.len() + 4 as int, payload.len() + 4 + rest.len() as int) =~= rest);
}

} // verus!
