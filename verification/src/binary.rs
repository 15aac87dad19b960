//! Little-endian readers for BSP and PAK data.
//!
//! The `read_*` functions require the bytes to be in bounds (for data that
//! was already validated); the `try_read_*` variants check the bounds and
//! report a drop error instead.

use vstd::prelude::*;
use crate::error::{is_drop, Q2Error, Q2Result};

verus! {

/// Unsigned value of two little-endian bytes.
pub open spec fn le_u16(b0: u8, b1: u8) -> int {
    b0 + 256 * b1
}

/// Unsigned value of four little-endian bytes.
pub open spec fn le_u32(b0: u8, b1: u8, b2: u8, b3: u8) -> int {
    b0 + 256 * b1 + 65536 * b2 + 16777216 * b3
}

/// Two's-complement reading of a 16-bit unsigned value.
pub open spec fn signed16(u: int) -> int {
    if u >= 32768 { u - 65536 } else { u }
}

/// Two's-complement reading of a 32-bit unsigned value.
pub open spec fn signed32(u: int) -> int {
    if u >= 0x8000_0000 { u - 0x1_0000_0000 } else { u }
}

/// The unsigned 16-bit value stored at `off`.
pub open spec fn u16_at(data: Seq<u8>, off: int) -> int {
    le_u16(data[off], data[off + 1])
}

/// The unsigned 32-bit value stored at `off`.
pub open spec fn u32_at(data: Seq<u8>, off: int) -> int {
    le_u32(data[off], data[off + 1], data[off + 2], data[off + 3])
}

pub proof fn lemma_u16_as_i16(u: u16)
    ensures
        (u as i16) as int == signed16(u as int),
{
    assert((u as i16) as int == if u >= 32768 { u - 65536 } else { u as int }) by (bit_vector);
}

pub proof fn lemma_u32_as_i32(u: u32)
    ensures
        (u as i32) as int == signed32(u as int),
{
    assert((u as i32) as int == if u >= 0x8000_0000 { u - 0x1_0000_0000 } else { u as int })
        by (bit_vector);
}

pub fn read_u16(data: &[u8], off: usize) -> (r: u16)
    requires
        off + 2 <= data@.len(),
    ensures
        r == u16_at(data@, off as int),
{
    data[off] as u16 + 256 * (data[off + 1] as u16)
}

pub fn read_i16(data: &[u8], off: usize) -> (r: i16)
    requires
        off + 2 <= data@.len(),
    ensures
        r == signed16(u16_at(data@, off as int)),
{
    let u = read_u16(data, off);
    proof {
        lemma_u16_as_i16(u);
    }
    u as i16
}

pub fn read_u32(data: &[u8], off: usize) -> (r: u32)
    requires
        off + 4 <= data@.len(),
    ensures
        r == u32_at(data@, off as int),
{
    data[off] as u32 + 256 * (data[off + 1] as u32) + 65536 * (data[off + 2] as u32)
        + 16777216 * (data[off + 3] as u32)
}

pub fn read_i32(data: &[u8], off: usize) -> (r: i32)
    requires
        off + 4 <= data@.len(),
    ensures
        r == signed32(u32_at(data@, off as int)),
{
    let u = read_u32(data, off);
    proof {
        lemma_u32_as_i32(u);
    }
    u as i32
}

pub fn try_read_u16(data: &[u8], off: usize) -> (r: Q2Result<u16>)
    ensures
        off + 2 <= data@.len() ==> r == Ok::<u16, Q2Error>(u16_at(data@, off as int) as u16),
        off + 2 > data@.len() ==> is_drop(r, "u16 read out of bounds"@),
{
    if off > data.len() || data.len() - off < 2 {
        return Err(Q2Error::Drop("u16 read out of bounds".to_owned()));
    }
    Ok(read_u16(data, off))
}

pub fn try_read_i16(data: &[u8], off: usize) -> (r: Q2Result<i16>)
    ensures
        off + 2 <= data@.len() ==> r == Ok::<i16, Q2Error>(
            signed16(u16_at(data@, off as int)) as i16,
        ),
        off + 2 > data@.len() ==> is_drop(r, "i16 read out of bounds"@),
{
    if off > data.len() || data.len() - off < 2 {
        return Err(Q2Error::Drop("i16 read out of bounds".to_owned()));
    }
    Ok(read_i16(data, off))
}

pub fn try_read_u32(data: &[u8], off: usize) -> (r: Q2Result<u32>)
    ensures
        off + 4 <= data@.len() ==> r == Ok::<u32, Q2Error>(u32_at(data@, off as int) as u32),
        off + 4 > data@.len() ==> is_drop(r, "u32 read out of bounds"@),
{
    if off > data.len() || data.len() - off < 4 {
        return Err(Q2Error::Drop("u32 read out of bounds".to_owned()));
    }
    Ok(read_u32(data, off))
}

pub fn try_read_i32(data: &[u8], off: usize) -> (r: Q2Result<i32>)
    ensures
        off + 4 <= data@.len() ==> r == Ok::<i32, Q2Error>(
            signed32(u32_at(data@, off as int)) as i32,
        ),
        off + 4 > data@.len() ==> is_drop(r, "i32 read out of bounds"@),
{
    if off > data.len() || data.len() - off < 4 {
        return Err(Q2Error::Drop("i32 read out of bounds".to_owned()));
    }
    Ok(read_i32(data, off))
}

} // verus!
