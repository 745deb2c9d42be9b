//! Fixed-width unsigned words read from byte buffers in a given byte order.

use vstd::prelude::*;

verus! {

/// The order of the bytes of a word in memory.
#[derive(Clone, Copy, Debug, PartialEq, Eq, Structural)]
pub enum ByteOrder {
    Little,
    Big,
}

/// The 16-bit word made of `b0` then `b1` in memory.
pub open spec fn spec_word16(b0: u8, b1: u8, order: ByteOrder) -> u16 {
    (match order {
        ByteOrder::Little => b0 + 256 * b1,
        ByteOrder::Big => 256 * b0 + b1,
    }) as u16
}

/// `u16::from_ne_bytes`: the two bytes read in the machine's byte order.
/// Every Rust target stores words either little- or big-endian; which one
/// this machine uses is left unsaid.
#[verifier::external_body]
fn u16_from_native_bytes(bytes: [u8; 2]) -> (r: u16)
    ensures
        r == spec_word16(bytes[0], bytes[1], ByteOrder::Little) || r == spec_word16(
            bytes[0],
            bytes[1],
            ByteOrder::Big,
        ),
{
    u16::from_ne_bytes(bytes)
}

/// The byte order in which the machine read `probe` as `read`: little-endian
/// when `read` is the little-endian reading of the two bytes, big-endian
/// otherwise. The two bytes differ, so the two readings differ.
pub fn order_of_probe(probe: [u8; 2], read: u16) -> (r: ByteOrder)
    requires
        probe[0] != probe[1],
    ensures
        r == (if read == spec_word16(probe[0], probe[1], ByteOrder::Little) {
            ByteOrder::Little
        } else {
            ByteOrder::Big
        }),
{
    let little = probe[0] as u16 + 256 * probe[1] as u16;
    if read == little {
        ByteOrder::Little
    } else {
        ByteOrder::Big
    }
}

impl ByteOrder {
    /// The byte order of the machine this runs on: the order in which it
    /// reads two different bytes as a word. Which order that is depends on
    /// the machine; whichever it is, the decoders read in it.
    pub fn native() -> (r: ByteOrder)
        ensures
            r is Little || r is Big,
    {
        let probe: [u8; 2] = [1, 0];
        order_of_probe(probe, u16_from_native_bytes(probe))
    }
}

/// The 32-bit word stored in `b[at..at + 4]`.
pub open spec fn spec_word32(b: Seq<u8>, at: int, order: ByteOrder) -> u32 {
    (match order {
        ByteOrder::Little => b[at] + 256 * b[at + 1] + 65536 * b[at + 2] + 16777216 * b[at + 3],
        ByteOrder::Big => 16777216 * b[at] + 65536 * b[at + 1] + 256 * b[at + 2] + b[at + 3],
    }) as u32
}

/// The 64-bit word stored in `b[at..at + 8]`: two 32-bit halves, the low one
/// first in little-endian order.
pub open spec fn spec_word64(b: Seq<u8>, at: int, order: ByteOrder) -> u64 {
    (match order {
        ByteOrder::Little => spec_word32(b, at, order) + 4294967296 * spec_word32(b, at + 4, order),
        ByteOrder::Big => 4294967296 * spec_word32(b, at, order) + spec_word32(b, at + 4, order),
    }) as u64
}

/// Reads the 32-bit word stored at `b[at..at + 4]`.
pub fn read_word32(b: &[u8], at: usize, order: ByteOrder) -> (r: u32)
    requires
        at + 4 <= b.len(),
    ensures
        r == spec_word32(b@, at as int, order),
{
    let b0 = b[at] as u32;
    let b1 = b[at + 1] as u32;
    let b2 = b[at + 2] as u32;
    let b3 = b[at + 3] as u32;
    match order {
        ByteOrder::Little => b0 + 256 * b1 + 65536 * b2 + 16777216 * b3,
        ByteOrder::Big => 16777216 * b0 + 65536 * b1 + 256 * b2 + b3,
    }
}

/// Reads the 64-bit word stored at `b[at..at + 8]`.
pub fn read_word64(b: &[u8], at: usize, order: ByteOrder) -> (r: u64)
    requires
        at + 8 <= b.len(),
    ensures
        r == spec_word64(b@, at as int, order),
{
    let first = read_word32(b, at, order) as u64;
    let second = read_word32(b, at + 4, order) as u64;
    match order {
        ByteOrder::Little => first + 4294967296 * second,
        ByteOrder::Big => 4294967296 * first + second,
    }
}

/// Reads `count` consecutive 32-bit words starting at `b[at]`.
pub fn read_words32(b: &[u8], at: usize, count: usize, order: ByteOrder) -> (r: Vec<u32>)
    requires
        at + 4 * count <= b.len(),
    ensures
        r.len() == count,
        forall|i: int| 0 <= i < count ==> #[trigger] r@[i] == spec_word32(b@, at + 4 * i, order),
{
    let mut r: Vec<u32> = Vec::new();
    let mut i: usize = 0;
    while i < count
        invariant
            i <= count,
            at + 4 * count <= b.len(),
            r.len() == i,
            forall|k: int| 0 <= k < i ==> #[trigger] r@[k] == spec_word32(b@, at + 4 * k, order),
        decreases count - i,
    {
        r.push(read_word32(b, at + 4 * i, order));
        i = i + 1;
    }
    r
}

/// Reads `count` consecutive 64-bit words starting at `b[at]`.
pub fn read_words64(b: &[u8], at: usize, count: usize, order: ByteOrder) -> (r: Vec<u64>)
    requires
        at + 8 * count <= b.len(),
    ensures
        r.len() == count,
        forall|i: int| 0 <= i < count ==> #[trigger] r@[i] == spec_word64(b@, at + 8 * i, order),
{
    let mut r: Vec<u64> = Vec::new();
    let mut i: usize = 0;
    while i < count
        invariant
            i <= count,
            at + 8 * count <= b.len(),
            r.len() == i,
            forall|k: int| 0 <= k < i ==> #[trigger] r@[k] == spec_word64(b@, at + 8 * k, order),
        decreases count - i,
    {
        r.push(read_word64(b, at + 8 * i, order));
        i = i + 1;
    }
    r
}

} // verus!
