//! The on-disk recording formats: file names, file headers, index entries, sample records
//! and the record-state message.
use vstd::prelude::*;
use vstd::string::StringSliceAdditionalSpecFns;

use crate::decoder::{push_le, u16_le, u32_le, u64_le, DecoderState};
use crate::ids::DeviceId;
use crate::lookback::LookbackState;

verus! {

pub const INDEX_FILE_EXTENSION: &'static str = ".index.kai";

pub const INDEX_FILE_SIGNATURE: &'static str = "KAIROS-INDEX";

pub const RAW_FILE_EXTENSION: &'static str = ".raw.kai";

pub const RAW_FILE_SIGNATURE: &'static str = "KAIROS-RAW";

pub const SAMPLES_FILE_EXTENSION: &'static str = ".samples.kai";

pub const SAMPLES_FILE_SIGNATURE: &'static str = "KAIROS-SAMPLES";

pub const METADATA_FILE_EXTENSION: &'static str = ".toml";

pub const ZIP_FILE_EXTENSION: &'static str = ".zip";

/// The suffix of a file under construction.
pub const WRITE_SUFFIX: &'static str = ".write";

/// The only version of the file formats.
pub const FILE_VERSION: u8 = 0;

/// The format byte of EVT3 recordings.
pub const EVT3_FORMAT: u8 = 0;

/// The size of one index entry.
pub const INDEX_ENTRY_LENGTH: usize = 54;

/// Appends the UTF-8 bytes of `s`.
pub fn push_str_bytes(buffer: &mut Vec<u8>, s: &str)
    ensures
        final(buffer)@ == old(buffer)@ + s.spec_bytes(),
{
    let bytes = s.as_bytes();
    let ghost before = buffer@;
    let mut k: usize = 0;
    while k < bytes.len()
        invariant
            k <= bytes@.len(),
            bytes@ == s.spec_bytes(),
            buffer@ == before + bytes@.subrange(0, k as int),
        decreases bytes@.len() - k,
    {
        buffer.push(bytes[k]);
        k = k + 1;
        assert(buffer@ =~= before + bytes@.subrange(0, k as int));
    }
    assert(bytes@.subrange(0, bytes@.len() as int) =~= bytes@);
}

/// The name of a recording file: the stem, the extension, and the staging suffix while the
/// file is written.
pub open spec fn file_name(name: Seq<u8>, extension: Seq<u8>, write: bool) -> Seq<u8> {
    name + extension + if write {
        WRITE_SUFFIX.spec_bytes()
    } else {
        Seq::empty()
    }
}

fn file_name_with(name: &str, extension: &str, write: bool) -> (r: Vec<u8>)
    ensures
        r@ == file_name(name.spec_bytes(), extension.spec_bytes(), write),
{
    let mut r: Vec<u8> = Vec::new();
    push_str_bytes(&mut r, name);
    push_str_bytes(&mut r, extension);
    if write {
        push_str_bytes(&mut r, WRITE_SUFFIX);
    }
    assert(r@ =~= file_name(name.spec_bytes(), extension.spec_bytes(), write));
    r
}

pub fn index_file_name(name: &str, write: bool) -> (r: Vec<u8>)
    ensures
        r@ == file_name(name.spec_bytes(), INDEX_FILE_EXTENSION.spec_bytes(), write),
{
    file_name_with(name, INDEX_FILE_EXTENSION, write)
}

pub fn raw_file_name(name: &str, write: bool) -> (r: Vec<u8>)
    ensures
        r@ == file_name(name.spec_bytes(), RAW_FILE_EXTENSION.spec_bytes(), write),
{
    file_name_with(name, RAW_FILE_EXTENSION, write)
}

pub fn metadata_file_name(name: &str, write: bool) -> (r: Vec<u8>)
    ensures
        r@ == file_name(name.spec_bytes(), METADATA_FILE_EXTENSION.spec_bytes(), write),
{
    file_name_with(name, METADATA_FILE_EXTENSION, write)
}

pub fn samples_file_name(name: &str, write: bool) -> (r: Vec<u8>)
    ensures
        r@ == file_name(name.spec_bytes(), SAMPLES_FILE_EXTENSION.spec_bytes(), write),
{
    file_name_with(name, SAMPLES_FILE_EXTENSION, write)
}

/// The header of an EVT3 raw file: signature, version, format, sensor width and height.
pub open spec fn raw_file_header(width: u16, height: u16) -> Seq<u8> {
    RAW_FILE_SIGNATURE.spec_bytes() + seq![FILE_VERSION, EVT3_FORMAT] + u16_le(width) + u16_le(
        height,
    )
}

pub fn raw_file_header_bytes(width: u16, height: u16) -> (r: Vec<u8>)
    ensures
        r@ == raw_file_header(width, height),
{
    let mut r: Vec<u8> = Vec::new();
    push_str_bytes(&mut r, RAW_FILE_SIGNATURE);
    r.push(FILE_VERSION);
    r.push(EVT3_FORMAT);
    push_le(&mut r, width as u64, 2);
    push_le(&mut r, height as u64, 2);
    assert(r@ =~= raw_file_header(width, height));
    r
}

/// The header of an index file: signature, version, format.
pub open spec fn index_file_header(format: u8) -> Seq<u8> {
    INDEX_FILE_SIGNATURE.spec_bytes() + seq![FILE_VERSION, format]
}

pub fn index_file_header_bytes(format: u8) -> (r: Vec<u8>)
    ensures
        r@ == index_file_header(format),
{
    let mut r: Vec<u8> = Vec::new();
    push_str_bytes(&mut r, INDEX_FILE_SIGNATURE);
    r.push(FILE_VERSION);
    r.push(format);
    assert(r@ =~= index_file_header(format));
    r
}

/// The header of a samples file: signature, version, format.
pub open spec fn samples_file_header(format: u8) -> Seq<u8> {
    SAMPLES_FILE_SIGNATURE.spec_bytes() + seq![FILE_VERSION, format]
}

pub fn samples_file_header_bytes(format: u8) -> (r: Vec<u8>)
    ensures
        r@ == samples_file_header(format),
{
    let mut r: Vec<u8> = Vec::new();
    push_str_bytes(&mut r, SAMPLES_FILE_SIGNATURE);
    r.push(FILE_VERSION);
    r.push(format);
    assert(r@ =~= samples_file_header(format));
    r
}

/// One entry of the index file: where a USB buffer lies in the raw file, and the decoder
/// state at its first byte.
#[derive(Debug, Clone, Copy, PartialEq, Eq, Structural)]
pub struct Index {
    pub system_time: u64,
    pub system_timestamp: u64,
    pub first_after_overflow: bool,
    pub raw_file_offset: u64,
    pub raw_length: u64,
    pub state: DecoderState,
}

impl Index {
    pub open spec fn spec_bytes(self) -> Seq<u8> {
        u64_le(self.system_time) + u64_le(self.system_timestamp) + seq![
            if self.first_after_overflow {
                1u8
            } else {
                0u8
            },
        ] + u64_le(self.raw_file_offset) + u64_le(self.raw_length) + self.state.index_bytes()
    }

    /// Appends the entry's bytes.
    pub fn write_to(&self, buffer: &mut Vec<u8>)
        ensures
            final(buffer)@ == old(buffer)@ + self.spec_bytes(),
    {
        push_le(buffer, self.system_time, 8);
        push_le(buffer, self.system_timestamp, 8);
        buffer.push(if self.first_after_overflow {
            1u8
        } else {
            0u8
        });
        push_le(buffer, self.raw_file_offset, 8);
        push_le(buffer, self.raw_length, 8);
        self.state.write_index_bytes(buffer);
        assert(buffer@ =~= old(buffer)@ + self.spec_bytes());
    }
}

/// One sample of the samples file of an EVK4 camera. Illuminance and temperature are
/// kept as the bits of their single-precision values.
#[derive(Debug, Clone, Copy, PartialEq, Eq, Structural)]
pub struct Evk4FileSample {
    pub system_time: u64,
    pub system_timestamp: u64,
    pub illuminance_bits: u32,
    pub temperature_bits: u32,
}

impl Evk4FileSample {
    pub open spec fn spec_bytes(self) -> Seq<u8> {
        u64_le(self.system_time) + u64_le(self.system_timestamp) + u32_le(self.illuminance_bits)
            + u32_le(self.temperature_bits)
    }

    /// Appends the sample's 24 bytes.
    pub fn write_to(&self, buffer: &mut Vec<u8>)
        ensures
            final(buffer)@ == old(buffer)@ + self.spec_bytes(),
    {
        push_le(buffer, self.system_time, 8);
        push_le(buffer, self.system_timestamp, 8);
        push_le(buffer, self.illuminance_bits as u64, 4);
        push_le(buffer, self.temperature_bits as u64, 4);
        assert(buffer@ =~= old(buffer)@ + self.spec_bytes());
    }
}

/// The record-state message of one device: its id, then the lookback's duration and size
/// (behind a presence byte), then the open recording's duration, size and name (behind a
/// presence byte, with zeros in place of the numbers and no name when absent).
pub open spec fn record_state_bytes(
    device_id: u32,
    lookback_state: Option<LookbackState>,
    recording: Option<(Seq<u8>, u64, u64)>,
) -> Seq<u8> {
    u32_le(device_id) + match lookback_state {
        Some(l) => seq![1u8] + u64_le(l.duration_us) + u64_le(l.size_bytes as u64),
        None => seq![0u8] + u64_le(0) + u64_le(0),
    } + match recording {
        Some((name, duration_us, size_bytes)) => seq![1u8] + u64_le(duration_us) + u64_le(
            size_bytes,
        ) + name,
        None => seq![0u8] + u64_le(0) + u64_le(0),
    }
}

/// Appends the record-state message of a device.
pub fn serialize_record_state_to(
    device_id: DeviceId,
    lookback_state: &Option<LookbackState>,
    name_and_duration_us_and_size_bytes: &Option<(String, u64, u64)>,
    buffer: &mut Vec<u8>,
)
    ensures
        final(buffer)@ == old(buffer)@ + record_state_bytes(
            device_id.0,
            *lookback_state,
            match name_and_duration_us_and_size_bytes {
                Some(r) => Some((vstd::utf8::encode_utf8(r.0@), r.1, r.2)),
                None => None,
            },
        ),
{
    push_le(buffer, device_id.0 as u64, 4);
    match lookback_state {
        Some(lookback_state) => {
            buffer.push(1);
            push_le(buffer, lookback_state.duration_us, 8);
            push_le(buffer, lookback_state.size_bytes as u64, 8);
        },
        None => {
            buffer.push(0);
            push_le(buffer, 0, 8);
            push_le(buffer, 0, 8);
        },
    }
    match name_and_duration_us_and_size_bytes {
        Some(recording) => {
            buffer.push(1);
            push_le(buffer, recording.1, 8);
            push_le(buffer, recording.2, 8);
            push_str_bytes(buffer, recording.0.as_str());
        },
        None => {
            buffer.push(0);
            push_le(buffer, 0, 8);
            push_le(buffer, 0, 8);
        },
    }
    assert(buffer@ =~= old(buffer)@ + record_state_bytes(
        device_id.0,
        *lookback_state,
        match name_and_duration_us_and_size_bytes {
            Some(r) => Some((vstd::utf8::encode_utf8(r.0@), r.1, r.2)),
            None => None,
        },
    ));
}

/// The length of a framed record-state message: its 4-byte length, the device id, both
/// presence bytes with their 16 bytes of numbers, and the recording's name.
pub open spec fn record_state_length(recording: Option<(Seq<u8>, u64, u64)>) -> int {
    42 + match recording {
        Some((name, _, _)) => name.len() as int,
        None => 0,
    }
}

/// Appends the record-state message of a device, framed by its length as the record-state
/// stream sends it.
pub fn write_record_state_message(
    device_id: DeviceId,
    lookback_state: &Option<LookbackState>,
    name_and_duration_us_and_size_bytes: &Option<(String, u64, u64)>,
    buffer: &mut Vec<u8>,
)
    requires
        record_state_length(
            match name_and_duration_us_and_size_bytes {
                Some(r) => Some((vstd::utf8::encode_utf8(r.0@), r.1, r.2)),
                None => None,
            },
        ) <= u32::MAX,
    ensures
        final(buffer)@ == old(buffer)@ + u32_le(
            record_state_length(
                match name_and_duration_us_and_size_bytes {
                    Some(r) => Some((vstd::utf8::encode_utf8(r.0@), r.1, r.2)),
                    None => None,
                },
            ) as u32,
        ) + record_state_bytes(
            device_id.0,
            *lookback_state,
            match name_and_duration_us_and_size_bytes {
                Some(r) => Some((vstd::utf8::encode_utf8(r.0@), r.1, r.2)),
                None => None,
            },
        ),
{
    let name_length: usize = match name_and_duration_us_and_size_bytes {
        Some(recording) => recording.0.as_str().as_bytes().len(),
        None => 0,
    };
    let ghost prefix = buffer@;
    push_le(buffer, 42 + name_length as u64, 4);
    let ghost framed = buffer@;
    serialize_record_state_to(device_id, lookback_state, name_and_duration_us_and_size_bytes, buffer);
    assert(buffer@ =~= prefix + (framed.subrange(prefix.len() as int, framed.len() as int))
        + record_state_bytes(
        device_id.0,
        *lookback_state,
        match name_and_duration_us_and_size_bytes {
            Some(r) => Some((vstd::utf8::encode_utf8(r.0@), r.1, r.2)),
            None => None,
        },
    ));
}

} // verus!
