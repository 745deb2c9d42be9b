//! The publisher socket frame: a 64-bit variable count, a 64-bit timestamp
//! whose top four bits are flags, then one 32-bit float per variable, all in
//! the machine's byte order.

use vstd::prelude::*;

use crate::bytes::{read_word64, read_words32, spec_word32, spec_word64, ByteOrder};

verus! {

/// The bytes of a frame header: the variable count and the timestamp.
pub const FRAME_HEADER_LEN: usize = 16;

/// The low 60 bits of the timestamp word hold the time in microseconds.
pub const TIMESTAMP_MASK: u64 = 0x0fff_ffff_ffff_ffff;

/// The header of one publisher frame.
#[derive(Clone, Copy, Debug, PartialEq, Eq, Structural)]
pub struct FrameHeader {
    /// The number of 32-bit values that follow the header.
    pub variable_count: u64,
    /// Simulation timestamp in microseconds.
    pub stamp_us: u64,
}

/// The time in microseconds carried by a raw timestamp word: its low 60
/// bits.
pub open spec fn spec_stamp_us(raw: u64) -> u64 {
    (raw % 0x1000_0000_0000_0000) as u64
}

/// Decodes the 16-byte header of a publisher frame.
pub fn decode_frame_header(header: &[u8], order: ByteOrder) -> (r: FrameHeader)
    requires
        header.len() == FRAME_HEADER_LEN,
    ensures
        r.variable_count == spec_word64(header@, 0, order),
        r.stamp_us == spec_stamp_us(spec_word64(header@, 8, order)),
{
    let variable_count = read_word64(header, 0, order);
    let raw = read_word64(header, 8, order);
    let stamp_us = raw & TIMESTAMP_MASK;
    assert(raw & 0x0fff_ffff_ffff_ffff == raw % 0x1000_0000_0000_0000) by (bit_vector);
    FrameHeader { variable_count, stamp_us }
}

/// The payload length in bytes of a frame with `variable_count` values, when
/// it fits in `usize`.
pub fn frame_payload_len(variable_count: u64) -> (r: Option<usize>)
    ensures
        match r {
            Some(n) => n == 4 * variable_count,
            None => 4 * variable_count > usize::MAX,
        },
{
    if variable_count <= (usize::MAX / 4) as u64 {
        Some(4 * variable_count as usize)
    } else {
        None
    }
}

/// Decodes a frame payload into the bit patterns of its 32-bit floats.
pub fn decode_frame_payload(payload: &[u8], order: ByteOrder) -> (r: Vec<u32>)
    requires
        payload.len() % 4 == 0,
    ensures
        r.len() == payload.len() / 4,
        forall|i: int| 0 <= i < r.len() ==> #[trigger] r@[i] == spec_word32(payload@, 4 * i, order),
{
    read_words32(payload, 0, payload.len() / 4, order)
}

} // verus!
