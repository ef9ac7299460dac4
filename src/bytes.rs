//! Little-endian integers at a position in a byte slice.

use byteorder::{ByteOrder, LittleEndian};
use vstd::prelude::*;

use crate::error::VdfrError;

verus! {

/// The unsigned value of the two bytes at `p`, least significant first.
pub open spec fn le_u16(s: Seq<u8>, p: int) -> int {
    s[p] + 256 * s[p + 1]
}

/// The unsigned value of the four bytes at `p`, least significant first.
pub open spec fn le_u32(s: Seq<u8>, p: int) -> int {
    s[p] + 256 * s[p + 1] + 65536 * s[p + 2] + 16777216 * s[p + 3]
}

/// The unsigned value of the eight bytes at `p`, least significant first.
pub open spec fn le_u64(s: Seq<u8>, p: int) -> int {
    le_u32(s, p) + 4294967296 * le_u32(s, p + 4)
}

/// Two's-complement reading of a 32-bit unsigned value.
pub open spec fn as_signed32(x: int) -> int {
    if x < 0x8000_0000 { x } else { x - 0x1_0000_0000 }
}

/// Two's-complement reading of a 64-bit unsigned value.
pub open spec fn as_signed64(x: int) -> int {
    if x < 0x8000_0000_0000_0000 { x } else { x - 0x1_0000_0000_0000_0000 }
}

/// Whether `n` bytes can be read at `p`.
pub open spec fn fits(s: Seq<u8>, p: int, n: int) -> bool {
    0 <= p && p + n <= s.len()
}

/// Relies on byteorder's `LittleEndian::read_u16`: the first two bytes of the
/// slice from `pos`, least significant first (it panics on fewer than two).
#[verifier::external_body]
fn le_read_u16(data: &[u8], pos: usize) -> (r: u16)
    requires
        fits(data@, pos as int, 2),
    ensures
        r as int == le_u16(data@, pos as int),
{
    LittleEndian::read_u16(&data[pos..])
}

/// Relies on byteorder's `LittleEndian::read_u32`: the first four bytes of the
/// slice from `pos`, least significant first (it panics on fewer than four).
#[verifier::external_body]
pub(crate) fn le_read_u32(data: &[u8], pos: usize) -> (r: u32)
    requires
        fits(data@, pos as int, 4),
    ensures
        r as int == le_u32(data@, pos as int),
{
    LittleEndian::read_u32(&data[pos..])
}

/// Relies on byteorder's `LittleEndian::read_u64`: the first eight bytes of the
/// slice from `pos`, least significant first (it panics on fewer than eight).
#[verifier::external_body]
pub(crate) fn le_read_u64(data: &[u8], pos: usize) -> (r: u64)
    requires
        fits(data@, pos as int, 8),
    ensures
        r as int == le_u64(data@, pos as int),
{
    LittleEndian::read_u64(&data[pos..])
}

/// Relies on byteorder's `LittleEndian::read_i32`: `read_u32` reinterpreted as
/// two's complement.
#[verifier::external_body]
fn le_read_i32(data: &[u8], pos: usize) -> (r: i32)
    requires
        fits(data@, pos as int, 4),
    ensures
        r as int == as_signed32(le_u32(data@, pos as int)),
{
    LittleEndian::read_i32(&data[pos..])
}

/// Relies on byteorder's `LittleEndian::read_i64`: `read_u64` reinterpreted as
/// two's complement.
#[verifier::external_body]
fn le_read_i64(data: &[u8], pos: usize) -> (r: i64)
    requires
        fits(data@, pos as int, 8),
    ensures
        r as int == as_signed64(le_u64(data@, pos as int)),
{
    LittleEndian::read_i64(&data[pos..])
}

/// Whether `n` bytes remain at `pos`, without overflow.
pub fn has_bytes(data: &[u8], pos: usize, n: usize) -> (r: bool)
    requires
        pos <= data@.len(),
    ensures
        r == fits(data@, pos as int, n as int),
        data@.len() <= usize::MAX,
{
    data.len() - pos >= n
}

/// The byte at `pos`, or `ReadError` past the end.
pub fn take_u8(data: &[u8], pos: usize) -> (r: Result<u8, VdfrError>)
    requires
        pos <= data@.len(),
    ensures
        data@.len() <= usize::MAX,
        r == (if fits(data@, pos as int, 1) {
            Ok::<u8, VdfrError>(data@[pos as int])
        } else {
            Err(VdfrError::ReadError)
        }),
{
    if has_bytes(data, pos, 1) {
        Ok(data[pos])
    } else {
        Err(VdfrError::ReadError)
    }
}

/// The little-endian `u16` at `pos`, or `ReadError` if fewer than two bytes remain.
pub fn take_u16(data: &[u8], pos: usize) -> (r: Result<u16, VdfrError>)
    requires
        pos <= data@.len(),
    ensures
        data@.len() <= usize::MAX,
        fits(data@, pos as int, 2) ==> (r matches Ok(v) && v as int == le_u16(data@, pos as int)),
        !fits(data@, pos as int, 2) ==> r == Err::<u16, VdfrError>(VdfrError::ReadError),
{
    if has_bytes(data, pos, 2) {
        Ok(le_read_u16(data, pos))
    } else {
        Err(VdfrError::ReadError)
    }
}

/// The little-endian `u32` at `pos`, or `ReadError` if fewer than four bytes remain.
pub fn take_u32(data: &[u8], pos: usize) -> (r: Result<u32, VdfrError>)
    requires
        pos <= data@.len(),
    ensures
        data@.len() <= usize::MAX,
        fits(data@, pos as int, 4) ==> (r matches Ok(v) && v as int == le_u32(data@, pos as int)),
        !fits(data@, pos as int, 4) ==> r == Err::<u32, VdfrError>(VdfrError::ReadError),
{
    if has_bytes(data, pos, 4) {
        Ok(le_read_u32(data, pos))
    } else {
        Err(VdfrError::ReadError)
    }
}

/// The little-endian `u64` at `pos`, or `ReadError` if fewer than eight bytes remain.
pub fn take_u64(data: &[u8], pos: usize) -> (r: Result<u64, VdfrError>)
    requires
        pos <= data@.len(),
    ensures
        data@.len() <= usize::MAX,
        fits(data@, pos as int, 8) ==> (r matches Ok(v) && v as int == le_u64(data@, pos as int)),
        !fits(data@, pos as int, 8) ==> r == Err::<u64, VdfrError>(VdfrError::ReadError),
{
    if has_bytes(data, pos, 8) {
        Ok(le_read_u64(data, pos))
    } else {
        Err(VdfrError::ReadError)
    }
}

/// The little-endian `i32` at `pos`, or `ReadError` if fewer than four bytes remain.
pub fn take_i32(data: &[u8], pos: usize) -> (r: Result<i32, VdfrError>)
    requires
        pos <= data@.len(),
    ensures
        data@.len() <= usize::MAX,
        fits(data@, pos as int, 4) ==> (r matches Ok(v) && v as int == as_signed32(
            le_u32(data@, pos as int),
        )),
        !fits(data@, pos as int, 4) ==> r == Err::<i32, VdfrError>(VdfrError::ReadError),
{
    if has_bytes(data, pos, 4) {
        Ok(le_read_i32(data, pos))
    } else {
        Err(VdfrError::ReadError)
    }
}

/// The little-endian `i64` at `pos`, or `ReadError` if fewer than eight bytes remain.
pub fn take_i64(data: &[u8], pos: usize) -> (r: Result<i64, VdfrError>)
    requires
        pos <= data@.len(),
    ensures
        data@.len() <= usize::MAX,
        fits(data@, pos as int, 8) ==> (r matches Ok(v) && v as int == as_signed64(
            le_u64(data@, pos as int),
        )),
        !fits(data@, pos as int, 8) ==> r == Err::<i64, VdfrError>(VdfrError::ReadError),
{
    if has_bytes(data, pos, 8) {
        Ok(le_read_i64(data, pos))
    } else {
        Err(VdfrError::ReadError)
    }
}

} // verus!
