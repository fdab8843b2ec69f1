//! Fixed-width little-endian fields at a position of a byte buffer.

use crate::error::SaveError;
use byteorder::{ByteOrder, LittleEndian};
use vstd::prelude::*;
use vstd::slice::slice_subrange;

verus! {

/// The unsigned 32-bit value stored least significant byte first in the four
/// bytes of `buf` that start at `pos`.
pub open spec fn le_u32_at(buf: Seq<u8>, pos: int) -> int {
    buf[pos] + 0x100 * buf[pos + 1] + 0x1_0000 * buf[pos + 2] + 0x100_0000 * buf[pos + 3]
}

/// The same four bytes read as a two's-complement signed value.
pub open spec fn le_i32_at(buf: Seq<u8>, pos: int) -> int {
    let unsigned = le_u32_at(buf, pos);
    if unsigned < 0x8000_0000 {
        unsigned
    } else {
        unsigned - 0x1_0000_0000
    }
}

/// The unsigned 16-bit value stored least significant byte first in the two
/// bytes of `buf` that start at `pos`.
pub open spec fn le_u16_at(buf: Seq<u8>, pos: int) -> int {
    buf[pos] + 0x100 * buf[pos + 1]
}

/// Whether `width` bytes of a buffer of `len` bytes lie at `pos`.
pub open spec fn has_bytes(len: nat, pos: int, width: int) -> bool {
    0 <= pos && pos + width <= len
}

/// `byteorder::LittleEndian::read_u32`: the first four bytes of `field`,
/// least significant first, as one unsigned number. The crate panics on a
/// shorter slice, which the precondition rules out.
#[verifier::external_body]
fn le_u32(field: &[u8]) -> (value: u32)
    requires
        field@.len() >= 4,
    ensures
        value == le_u32_at(field@, 0),
{
    LittleEndian::read_u32(field)
}

/// `byteorder::LittleEndian::read_i32`: the first four bytes of `field`,
/// least significant first, reinterpreted as a two's-complement number. The
/// crate panics on a shorter slice, which the precondition rules out.
#[verifier::external_body]
fn le_i32(field: &[u8]) -> (value: i32)
    requires
        field@.len() >= 4,
    ensures
        value == le_i32_at(field@, 0),
{
    LittleEndian::read_i32(field)
}

/// `byteorder::LittleEndian::read_u16_into`: fills `dst` with the 16-bit
/// numbers that `src` holds, two bytes each, least significant byte first. The
/// crate panics unless `src` is exactly twice as long as `dst`, which the
/// precondition demands. The length of `dst` does not change.
#[verifier::external_body]
fn le_u16_into(src: &[u8], dst: &mut Vec<u16>)
    requires
        src@.len() == 2 * old(dst)@.len(),
    ensures
        final(dst)@.len() == old(dst)@.len(),
        forall|i: int|
            0 <= i < final(dst)@.len() ==> #[trigger] final(dst)@[i] == le_u16_at(src@, 2 * i),
{
    LittleEndian::read_u16_into(src, dst)
}

/// The 16-bit units that `bytes` holds, two bytes each, least significant
/// byte first. A trailing odd byte is not part of any unit.
pub open spec fn le_units(bytes: Seq<u8>) -> Seq<u16> {
    Seq::new((bytes.len() / 2) as nat, |i: int| le_u16_at(bytes, 2 * i) as u16)
}

/// Reads the little-endian 16-bit units that `bytes` holds. A trailing odd
/// byte is left out.
pub fn read_units_le(bytes: &[u8]) -> (units: Vec<u16>)
    ensures
        units@ == le_units(bytes@),
{
    let count = bytes.len() / 2;
    let mut units: Vec<u16> = vec![0u16; count];
    le_u16_into(slice_subrange(bytes, 0, 2 * count), &mut units);
    assert(units@ =~= le_units(bytes@));
    units
}

/// Reads an unsigned 32-bit little-endian field at `pos` and returns it with
/// the position just past it.
pub fn read_u32_le(buf: &[u8], pos: usize) -> (r: Result<(u32, usize), SaveError>)
    ensures
        match r {
            Ok((value, next)) => {
                &&& has_bytes(buf@.len(), pos as int, 4)
                &&& value == le_u32_at(buf@, pos as int)
                &&& next == pos + 4
            },
            Err(e) => e == SaveError::TruncatedInput && !has_bytes(buf@.len(), pos as int, 4),
        },
{
    if pos > buf.len() || buf.len() - pos < 4 {
        return Err(SaveError::TruncatedInput);
    }
    let field = slice_subrange(buf, pos, pos + 4);
    Ok((le_u32(field), pos + 4))
}

/// Reads a signed 32-bit little-endian field at `pos` and returns it with the
/// position just past it.
pub fn read_i32_le(buf: &[u8], pos: usize) -> (r: Result<(i32, usize), SaveError>)
    ensures
        match r {
            Ok((value, next)) => {
                &&& has_bytes(buf@.len(), pos as int, 4)
                &&& value == le_i32_at(buf@, pos as int)
                &&& next == pos + 4
            },
            Err(e) => e == SaveError::TruncatedInput && !has_bytes(buf@.len(), pos as int, 4),
        },
{
    if pos > buf.len() || buf.len() - pos < 4 {
        return Err(SaveError::TruncatedInput);
    }
    let field = slice_subrange(buf, pos, pos + 4);
    Ok((le_i32(field), pos + 4))
}

} // verus!
