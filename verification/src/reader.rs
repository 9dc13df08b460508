//! Bounds-checked big-endian reads out of an immutable byte buffer.
//!
//! The compiled timezone table is a read-only byte blob; everything the
//! resolver needs from it is a byte, a big-endian unsigned 32-bit count, or a
//! big-endian signed 32- or 64-bit value at a known position. Each read here
//! states exactly which bytes it consumes and what integer they denote.

use vstd::prelude::*;

verus! {

/// The unsigned value of the 4 bytes at `pos`, big-endian.
pub open spec fn be_u32(s: Seq<u8>, pos: int) -> nat {
    (s[pos] as nat) * 0x1000000 + (s[pos + 1] as nat) * 0x10000 + (s[pos + 2] as nat) * 0x100
        + (s[pos + 3] as nat)
}

/// The two's-complement value of the 4 bytes at `pos`, big-endian.
pub open spec fn be_i32(s: Seq<u8>, pos: int) -> int {
    if be_u32(s, pos) < 0x80000000 {
        be_u32(s, pos) as int
    } else {
        be_u32(s, pos) - 0x100000000
    }
}

/// The unsigned value of the 8 bytes at `pos`, big-endian.
pub open spec fn be_u64(s: Seq<u8>, pos: int) -> nat {
    (s[pos] as nat) * 0x100000000000000 + (s[pos + 1] as nat) * 0x1000000000000 + (s[pos
        + 2] as nat) * 0x10000000000 + (s[pos + 3] as nat) * 0x100000000 + (s[pos
        + 4] as nat) * 0x1000000 + (s[pos + 5] as nat) * 0x10000 + (s[pos + 6] as nat) * 0x100 + (
    s[pos + 7] as nat)
}

/// The two's-complement value of the 8 bytes at `pos`, big-endian.
pub open spec fn be_i64(s: Seq<u8>, pos: int) -> int {
    if be_u64(s, pos) < 0x8000000000000000 {
        be_u64(s, pos) as int
    } else {
        be_u64(s, pos) - 0x10000000000000000
    }
}

/// Reads one byte.
pub fn read_u8(buf: &Vec<u8>, pos: usize) -> (r: u8)
    requires
        pos < buf.len(),
    ensures
        r == buf@[pos as int],
{
    buf[pos]
}

/// Reads a big-endian unsigned 32-bit value.
pub fn read_u32_be(buf: &Vec<u8>, pos: usize) -> (r: u32)
    requires
        pos + 4 <= buf.len(),
    ensures
        r == be_u32(buf@, pos as int),
{
    (buf[pos] as u32) * 0x1000000 + (buf[pos + 1] as u32) * 0x10000 + (buf[pos + 2] as u32) * 0x100
        + (buf[pos + 3] as u32)
}

/// Reads a big-endian signed 32-bit value.
pub fn read_i32_be(buf: &Vec<u8>, pos: usize) -> (r: i32)
    requires
        pos + 4 <= buf.len(),
    ensures
        r == be_i32(buf@, pos as int),
{
    let u: u32 = read_u32_be(buf, pos);
    if u < 0x80000000 {
        u as i32
    } else {
        // two's complement: the value is u - 2^32, reached without truncation
        -((u32::MAX - u) as i32) - 1
    }
}

/// Reads a big-endian signed 64-bit value.
pub fn read_i64_be(buf: &Vec<u8>, pos: usize) -> (r: i64)
    requires
        pos + 8 <= buf.len(),
    ensures
        r == be_i64(buf@, pos as int),
{
    let u: u64 = (buf[pos] as u64) * 0x100000000000000 + (buf[pos + 1] as u64) * 0x1000000000000 + (
    buf[pos + 2] as u64) * 0x10000000000 + (buf[pos + 3] as u64) * 0x100000000 + (buf[pos
        + 4] as u64) * 0x1000000 + (buf[pos + 5] as u64) * 0x10000 + (buf[pos + 6] as u64) * 0x100
        + (buf[pos + 7] as u64);
    if u < 0x8000000000000000 {
        u as i64
    } else {
        // two's complement: the value is u - 2^64, reached without truncation
        -((u64::MAX - u) as i64) - 1
    }
}

} // verus!
