//! Big- and little-endian integer reads from byte buffers.
//!
//! GET frame headers store multi-byte fields big-endian, including the odd
//! 24-bit and 48-bit widths; FRIBDAQ ring items store theirs little-endian.
//! Each reader is specified against a spec-level combination of the bytes.

use vstd::prelude::*;

verus! {

/// The 16-bit big-endian integer at position `i` of `b`.
pub open spec fn spec_be_u16(b: Seq<u8>, i: int) -> int {
    b[i] * 0x100 + b[i + 1]
}

/// The 24-bit big-endian integer at position `i` of `b`.
pub open spec fn spec_be_u24(b: Seq<u8>, i: int) -> int {
    b[i] * 0x1_0000 + b[i + 1] * 0x100 + b[i + 2]
}

/// The 32-bit big-endian integer at position `i` of `b`.
pub open spec fn spec_be_u32(b: Seq<u8>, i: int) -> int {
    b[i] * 0x100_0000 + b[i + 1] * 0x1_0000 + b[i + 2] * 0x100 + b[i + 3]
}

/// The 48-bit big-endian integer at position `i` of `b`.
pub open spec fn spec_be_u48(b: Seq<u8>, i: int) -> int {
    b[i] * 0x100_0000_0000 + b[i + 1] * 0x1_0000_0000 + b[i + 2] * 0x100_0000 + b[i + 3]
        * 0x1_0000 + b[i + 4] * 0x100 + b[i + 5]
}

/// The 16-bit little-endian integer at position `i` of `b`.
pub open spec fn spec_le_u16(b: Seq<u8>, i: int) -> int {
    b[i + 1] * 0x100 + b[i]
}

/// The 32-bit little-endian integer at position `i` of `b`.
pub open spec fn spec_le_u32(b: Seq<u8>, i: int) -> int {
    b[i + 3] * 0x100_0000 + b[i + 2] * 0x1_0000 + b[i + 1] * 0x100 + b[i]
}

/// The 64-bit little-endian integer at position `i` of `b`.
pub open spec fn spec_le_u64(b: Seq<u8>, i: int) -> int {
    b[i + 7] * 0x100_0000_0000_0000 + b[i + 6] * 0x1_0000_0000_0000 + b[i + 5]
        * 0x100_0000_0000 + b[i + 4] * 0x1_0000_0000 + b[i + 3] * 0x100_0000 + b[i + 2]
        * 0x1_0000 + b[i + 1] * 0x100 + b[i]
}

/// Read a 16-bit big-endian integer.
pub fn be_u16(b: &[u8], pos: usize) -> (r: u16)
    requires
        pos + 2 <= b@.len(),
    ensures
        r == spec_be_u16(b@, pos as int),
{
    (b[pos] as u16) * 0x100 + (b[pos + 1] as u16)
}

/// Read a 24-bit big-endian integer into a `u32`.
pub fn be_u24(b: &[u8], pos: usize) -> (r: u32)
    requires
        pos + 3 <= b@.len(),
    ensures
        r == spec_be_u24(b@, pos as int),
        r < 0x100_0000,
{
    (b[pos] as u32) * 0x1_0000 + (b[pos + 1] as u32) * 0x100 + (b[pos + 2] as u32)
}

/// Read a 32-bit big-endian integer.
pub fn be_u32(b: &[u8], pos: usize) -> (r: u32)
    requires
        pos + 4 <= b@.len(),
    ensures
        r == spec_be_u32(b@, pos as int),
{
    (b[pos] as u32) * 0x100_0000 + (b[pos + 1] as u32) * 0x1_0000 + (b[pos + 2] as u32) * 0x100
        + (b[pos + 3] as u32)
}

/// Read a 48-bit big-endian integer into a `u64`.
pub fn be_u48(b: &[u8], pos: usize) -> (r: u64)
    requires
        pos + 6 <= b@.len(),
    ensures
        r == spec_be_u48(b@, pos as int),
        r < 0x1_0000_0000_0000,
{
    (b[pos] as u64) * 0x100_0000_0000 + (b[pos + 1] as u64) * 0x1_0000_0000 + (b[pos
        + 2] as u64) * 0x100_0000 + (b[pos + 3] as u64) * 0x1_0000 + (b[pos + 4] as u64) * 0x100
        + (b[pos + 5] as u64)
}

/// Read a 16-bit little-endian integer.
pub fn le_u16(b: &[u8], pos: usize) -> (r: u16)
    requires
        pos + 2 <= b@.len(),
    ensures
        r == spec_le_u16(b@, pos as int),
{
    (b[pos] as u16) + (b[pos + 1] as u16) * 0x100
}

/// Read a 32-bit little-endian integer.
pub fn le_u32(b: &[u8], pos: usize) -> (r: u32)
    requires
        pos + 4 <= b@.len(),
    ensures
        r == spec_le_u32(b@, pos as int),
{
    (b[pos] as u32) + (b[pos + 1] as u32) * 0x100 + (b[pos + 2] as u32) * 0x1_0000 + (b[pos
        + 3] as u32) * 0x100_0000
}

/// Read a 64-bit little-endian integer.
pub fn le_u64(b: &[u8], pos: usize) -> (r: u64)
    requires
        pos + 8 <= b@.len(),
    ensures
        r == spec_le_u64(b@, pos as int),
{
    (b[pos] as u64) + (b[pos + 1] as u64) * 0x100 + (b[pos + 2] as u64) * 0x1_0000 + (b[pos
        + 3] as u64) * 0x100_0000 + (b[pos + 4] as u64) * 0x1_0000_0000 + (b[pos + 5] as u64)
        * 0x100_0000_0000 + (b[pos + 6] as u64) * 0x1_0000_0000_0000 + (b[pos + 7] as u64)
        * 0x100_0000_0000_0000
}

} // verus!
