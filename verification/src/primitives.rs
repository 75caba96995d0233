//! Primitive decoders: pure functions turning a little-endian byte span into
//! one primitive value.
//!
//! Each decoder reads exactly the intrinsic width of its type from the front
//! of the span and returns nothing when fewer bytes than that are present.
//! The 32- and 64-bit float decoders return IEEE 754 bit patterns rather
//! than float values, so their results stay in integer arithmetic.

use crate::numeric::{f64_bits_of_i64, f64_bits_of_int, widen_f32_bits, widen_f32};
use vstd::bytes::{
    spec_u16_from_le_bytes, spec_u32_from_le_bytes, spec_u64_from_le_bytes, u16_from_le_bytes,
    u32_from_le_bytes, u64_from_le_bytes,
};
use vstd::prelude::*;
use vstd::slice::slice_subrange;

verus! {

/// The value of a byte reinterpreted as a signed 8-bit integer.
pub open spec fn as_i8(b: u8) -> int {
    if b < 0x80 {
        b as int
    } else {
        b - 0x100
    }
}

/// The value of a 16-bit word reinterpreted as a signed 16-bit integer.
pub open spec fn as_i16(u: u16) -> int {
    if u < 0x8000 {
        u as int
    } else {
        u - 0x10000
    }
}

/// The value of a 32-bit word reinterpreted as a signed 32-bit integer.
pub open spec fn as_i32(u: u32) -> int {
    if u < 0x80000000 {
        u as int
    } else {
        u - 0x100000000
    }
}

/// Signed 8-bit value of the first byte (two's complement); nothing when the
/// span is empty.
pub fn i8_from_bytes(bytes: &[u8]) -> (r: Option<i8>)
    ensures
        r is Some <==> bytes@.len() >= 1,
        r matches Some(v) ==> v as int == as_i8(bytes@[0]),
{
    if bytes.len() < 1 {
        return None;
    }
    let b = bytes[0];
    if b < 0x80 {
        Some(b as i8)
    } else {
        Some(((b as i16) - 0x100) as i8)
    }
}

/// Unsigned 8-bit value of the first byte; nothing when the span is empty.
pub fn u8_from_bytes(bytes: &[u8]) -> (r: Option<u8>)
    ensures
        r is Some <==> bytes@.len() >= 1,
        r matches Some(v) ==> v == bytes@[0],
{
    if bytes.len() < 1 {
        return None;
    }
    Some(bytes[0])
}

/// Boolean value of the first byte: false exactly for a zero byte; nothing
/// when the span is empty.
pub fn bool_from_bytes(bytes: &[u8]) -> (r: Option<bool>)
    ensures
        r is Some <==> bytes@.len() >= 1,
        r matches Some(v) ==> v == (bytes@[0] != 0),
{
    if bytes.len() < 1 {
        return None;
    }
    Some(bytes[0] != 0)
}

/// Signed 16-bit value of the first two bytes, little-endian; nothing when
/// fewer than two bytes are present.
pub fn i16_from_bytes(bytes: &[u8]) -> (r: Option<i16>)
    ensures
        r is Some <==> bytes@.len() >= 2,
        r matches Some(v) ==> v as int == as_i16(spec_u16_from_le_bytes(bytes@.subrange(0, 2))),
{
    if bytes.len() < 2 {
        return None;
    }
    let u = u16_from_le_bytes(slice_subrange(bytes, 0, 2));
    if u < 0x8000 {
        Some(u as i16)
    } else {
        Some(((u as i32) - 0x10000) as i16)
    }
}

/// Signed 32-bit value of the first four bytes, little-endian; nothing when
/// fewer than four bytes are present.
pub fn i32_from_bytes(bytes: &[u8]) -> (r: Option<i32>)
    ensures
        r is Some <==> bytes@.len() >= 4,
        r matches Some(v) ==> v as int == as_i32(spec_u32_from_le_bytes(bytes@.subrange(0, 4))),
{
    if bytes.len() < 4 {
        return None;
    }
    let u = u32_from_le_bytes(slice_subrange(bytes, 0, 4));
    if u < 0x80000000 {
        Some(u as i32)
    } else {
        Some(((u as i64) - 0x100000000) as i32)
    }
}

/// Unsigned 32-bit value of the first four bytes, little-endian; nothing
/// when fewer than four bytes are present.
pub fn u32_from_bytes(bytes: &[u8]) -> (r: Option<u32>)
    ensures
        r is Some <==> bytes@.len() >= 4,
        r matches Some(v) ==> v == spec_u32_from_le_bytes(bytes@.subrange(0, 4)),
{
    if bytes.len() < 4 {
        return None;
    }
    Some(u32_from_le_bytes(slice_subrange(bytes, 0, 4)))
}

/// Unsigned 64-bit value of the first eight bytes, little-endian; nothing
/// when fewer than eight bytes are present.
pub fn u64_from_bytes(bytes: &[u8]) -> (r: Option<u64>)
    ensures
        r is Some <==> bytes@.len() >= 8,
        r matches Some(v) ==> v == spec_u64_from_le_bytes(bytes@.subrange(0, 8)),
{
    if bytes.len() < 8 {
        return None;
    }
    Some(u64_from_le_bytes(slice_subrange(bytes, 0, 8)))
}

/// Bit pattern of the 64-bit float stored in the first eight bytes,
/// little-endian; nothing when fewer than eight bytes are present.
pub fn f64_bits_from_bytes(bytes: &[u8]) -> (r: Option<u64>)
    ensures
        r is Some <==> bytes@.len() >= 8,
        r matches Some(v) ==> v == spec_u64_from_le_bytes(bytes@.subrange(0, 8)),
{
    u64_from_bytes(bytes)
}

/// Bit pattern of the 32-bit float stored in the first four bytes,
/// little-endian; nothing when fewer than four bytes are present.
pub fn f32_bits_from_bytes(bytes: &[u8]) -> (r: Option<u32>)
    ensures
        r is Some <==> bytes@.len() >= 4,
        r matches Some(v) ==> v == spec_u32_from_le_bytes(bytes@.subrange(0, 4)),
{
    u32_from_bytes(bytes)
}

/// Bit pattern of the 64-bit float denoting the same value as the 32-bit
/// float stored in the first four bytes, little-endian; the widening is
/// exact.  Nothing when fewer than four bytes are present.
pub fn f32_widened_from_bytes(bytes: &[u8]) -> (r: Option<u64>)
    ensures
        r is Some <==> bytes@.len() >= 4,
        r matches Some(v) ==> v == widen_f32_bits(spec_u32_from_le_bytes(bytes@.subrange(0, 4))),
{
    match f32_bits_from_bytes(bytes) {
        Some(b) => Some(widen_f32(b)),
        None => None,
    }
}

/// Bit pattern of the 64-bit float with the value of the signed 8-bit
/// integer stored in the first byte; exact.  Nothing when the span is empty.
pub fn i8_widened_from_bytes(bytes: &[u8]) -> (r: Option<u64>)
    ensures
        r is Some <==> bytes@.len() >= 1,
        r matches Some(v) ==> v == f64_bits_of_int(as_i8(bytes@[0])),
{
    match i8_from_bytes(bytes) {
        Some(v) => Some(f64_bits_of_i64(v as i64)),
        None => None,
    }
}

/// Bit pattern of the 64-bit float with the value of the unsigned 8-bit
/// integer stored in the first byte; exact.  Nothing when the span is empty.
pub fn u8_widened_from_bytes(bytes: &[u8]) -> (r: Option<u64>)
    ensures
        r is Some <==> bytes@.len() >= 1,
        r matches Some(v) ==> v == f64_bits_of_int(bytes@[0] as int),
{
    match u8_from_bytes(bytes) {
        Some(v) => Some(f64_bits_of_i64(v as i64)),
        None => None,
    }
}

} // verus!
