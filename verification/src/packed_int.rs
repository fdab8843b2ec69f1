//! The packed integer: a signed number in one to five bytes.
//!
//! The first byte carries the sign in bit `0x80`, a continuation flag in bit
//! `0x40` and the six lowest bits of the magnitude. The second, third and
//! fourth bytes each carry a continuation flag in bit `0x80` and seven more
//! bits of the magnitude. A fifth byte carries eight bits and ends the number,
//! so a magnitude has at most 35 significant bits.

use crate::error::SaveError;
use crate::fields::has_bytes;
use vstd::prelude::*;

verus! {

/// The largest magnitude that five bytes can carry.
pub const MAX_PACKED_MAGNITUDE: i64 = 0x7_FFFF_FFFF;

/// Whether the first byte of a packed integer announces a second one.
pub open spec fn first_continues(byte: u8) -> bool {
    (byte as int / 0x40) % 2 == 1
}

/// Whether the second, third or fourth byte of a packed integer announces
/// another one.
pub open spec fn later_continues(byte: u8) -> bool {
    byte >= 0x80
}

/// How many bytes the packed integer at `pos` occupies; `None` where the
/// buffer ends before the last byte that the flags announce.
pub open spec fn packed_width_at(buf: Seq<u8>, pos: int) -> Option<int> {
    if !has_bytes(buf.len(), pos, 1) {
        None
    } else if !first_continues(buf[pos]) {
        Some(1)
    } else if !has_bytes(buf.len(), pos, 2) {
        None
    } else if !later_continues(buf[pos + 1]) {
        Some(2)
    } else if !has_bytes(buf.len(), pos, 3) {
        None
    } else if !later_continues(buf[pos + 2]) {
        Some(3)
    } else if !has_bytes(buf.len(), pos, 4) {
        None
    } else if !later_continues(buf[pos + 3]) {
        Some(4)
    } else if !has_bytes(buf.len(), pos, 5) {
        None
    } else {
        Some(5)
    }
}

/// The magnitude that the `width` bytes at `pos` carry: six bits, then seven
/// bits at bit 6, at bit 13 and at bit 20, then eight bits at bit 27.
pub open spec fn packed_magnitude(buf: Seq<u8>, pos: int, width: int) -> int {
    buf[pos] % 0x40 + (if width >= 2 {
        (buf[pos + 1] % 0x80) * 0x40
    } else {
        0
    }) + (if width >= 3 {
        (buf[pos + 2] % 0x80) * 0x2000
    } else {
        0
    }) + (if width >= 4 {
        (buf[pos + 3] % 0x80) * 0x10_0000
    } else {
        0
    }) + (if width >= 5 {
        buf[pos + 4] * 0x800_0000
    } else {
        0
    })
}

/// The packed integer at `pos` and the position just past it; `None` where
/// the buffer ends inside it.
pub open spec fn packed_int_at(buf: Seq<u8>, pos: int) -> Option<(int, int)> {
    match packed_width_at(buf, pos) {
        None => None,
        Some(width) => {
            let magnitude = packed_magnitude(buf, pos, width);
            Some((if buf[pos] >= 0x80 { -magnitude } else { magnitude }, pos + width))
        },
    }
}

/// Whether `value` can be written as a packed integer.
pub open spec fn packed_int_fits(value: int) -> bool {
    -MAX_PACKED_MAGNITUDE <= value <= MAX_PACKED_MAGNITUDE
}

/// The shortest packed integer that carries `value`.
pub open spec fn packed_bytes(value: int) -> Seq<u8> {
    let m = if value < 0 { -value } else { value };
    let first = (if value < 0 { 0x80int } else { 0int }) + m % 0x40;
    if m < 0x40 {
        seq![first as u8]
    } else if m < 0x2000 {
        seq![(first + 0x40) as u8, (m / 0x40) as u8]
    } else if m < 0x10_0000 {
        seq![(first + 0x40) as u8, (0x80 + m / 0x40 % 0x80) as u8, (m / 0x2000) as u8]
    } else if m < 0x800_0000 {
        seq![
            (first + 0x40) as u8,
            (0x80 + m / 0x40 % 0x80) as u8,
            (0x80 + m / 0x2000 % 0x80) as u8,
            (m / 0x10_0000) as u8,
        ]
    } else {
        seq![
            (first + 0x40) as u8,
            (0x80 + m / 0x40 % 0x80) as u8,
            (0x80 + m / 0x2000 % 0x80) as u8,
            (0x80 + m / 0x10_0000 % 0x80) as u8,
            (m / 0x800_0000) as u8,
        ]
    }
}

proof fn lemma_first_byte(a: u8)
    ensures
        (a & 0x3F) == a % 0x40,
        ((a & 0x40) != 0) == first_continues(a),
{
    assert((a & 0x3F) == a % 0x40) by (bit_vector);
    assert(((a & 0x40) != 0) == ((a / 0x40) % 2 == 1)) by (bit_vector);
}

proof fn lemma_merge_bits(val: i64, b: i64)
    requires
        0 <= b < 0x100,
    ensures
        0 <= val < 0x40 ==> val | ((b & 0x7F) << 6) == val + (b % 0x80) * 0x40,
        0 <= val < 0x2000 ==> val | ((b & 0x7F) << 13) == val + (b % 0x80) * 0x2000,
        0 <= val < 0x10_0000 ==> val | ((b & 0x7F) << 20) == val + (b % 0x80) * 0x10_0000,
        0 <= val < 0x800_0000 ==> val | (b << 27) == val + b * 0x800_0000,
{
    assert(0 <= val < 0x40 ==> val | ((b & 0x7F) << 6) == val + (b % 0x80) * 0x40) by (bit_vector)
        requires
            0 <= b < 0x100,
    ;
    assert(0 <= val < 0x2000 ==> val | ((b & 0x7F) << 13) == val + (b % 0x80) * 0x2000)
        by (bit_vector)
        requires
            0 <= b < 0x100,
    ;
    assert(0 <= val < 0x10_0000 ==> val | ((b & 0x7F) << 20) == val + (b % 0x80) * 0x10_0000)
        by (bit_vector)
        requires
            0 <= b < 0x100,
    ;
    assert(0 <= val < 0x800_0000 ==> val | (b << 27) == val + b * 0x800_0000) by (bit_vector)
        requires
            0 <= b < 0x100,
    ;
}

/// Reads the packed integer at `pos` and returns it with the position just
/// past it. Fails with `TruncatedInput` where the buffer ends inside it.
pub fn read_packed_int(buf: &[u8], pos: usize) -> (r: Result<(i64, usize), SaveError>)
    ensures
        match r {
            Ok((value, next)) => {
                &&& packed_int_at(buf@, pos as int) == Some((value as int, next as int))
                &&& packed_int_fits(value as int)
                &&& pos < next <= pos + 5
                &&& next <= buf@.len()
            },
            Err(e) => e == SaveError::TruncatedInput && packed_int_at(buf@, pos as int) is None,
        },
{
    let len = buf.len();
    if pos >= len {
        return Err(SaveError::TruncatedInput);
    }
    let a = buf[pos];
    let mut val: i64 = (a & 0x3F) as i64;
    let negative = a >= 0x80;
    let mut next: usize = pos + 1;
    proof {
        lemma_first_byte(a);
    }
    if (a & 0x40) != 0 {
        if next >= len {
            return Err(SaveError::TruncatedInput);
        }
        let b = buf[next] as i64;
        next = next + 1;
        proof {
            lemma_merge_bits(val, b);
        }
        val = val | ((b & 0x7F) << 6);
        if b >= 0x80 {
            if next >= len {
                return Err(SaveError::TruncatedInput);
            }
            let c = buf[next] as i64;
            next = next + 1;
            proof {
                lemma_merge_bits(val, c);
            }
            val = val | ((c & 0x7F) << 13);
            if c >= 0x80 {
                if next >= len {
                    return Err(SaveError::TruncatedInput);
                }
                let d = buf[next] as i64;
                next = next + 1;
                proof {
                    lemma_merge_bits(val, d);
                }
                val = val | ((d & 0x7F) << 20);
                if d >= 0x80 {
                    if next >= len {
                        return Err(SaveError::TruncatedInput);
                    }
                    let e = buf[next] as i64;
                    next = next + 1;
                    proof {
                        lemma_merge_bits(val, e);
                    }
                    val = val | (e << 27);
                }
            }
        }
    }
    Ok((if negative { -val } else { val }, next))
}

proof fn lemma_split_bits(m: u64)
    requires
        m <= 0x7_FFFF_FFFF,
    ensures
        (m & 0x3F) == m % 0x40,
        ((m >> 6) & 0x7F) == m / 0x40 % 0x80,
        ((m >> 13) & 0x7F) == m / 0x2000 % 0x80,
        ((m >> 20) & 0x7F) == m / 0x10_0000 % 0x80,
        (m >> 6) == m / 0x40,
        (m >> 13) == m / 0x2000,
        (m >> 20) == m / 0x10_0000,
        (m >> 27) == m / 0x800_0000,
        (m >> 27) < 0x100,
{
    assert((m & 0x3F) == m % 0x40) by (bit_vector);
    assert(((m >> 6) & 0x7F) == m / 0x40 % 0x80) by (bit_vector);
    assert(((m >> 13) & 0x7F) == m / 0x2000 % 0x80) by (bit_vector);
    assert(((m >> 20) & 0x7F) == m / 0x10_0000 % 0x80) by (bit_vector);
    assert((m >> 6) == m / 0x40) by (bit_vector);
    assert((m >> 13) == m / 0x2000) by (bit_vector);
    assert((m >> 20) == m / 0x10_0000) by (bit_vector);
    assert((m >> 27) == m / 0x800_0000) by (bit_vector);
    assert((m >> 27) < 0x100) by (bit_vector)
        requires
            m <= 0x7_FFFF_FFFF,
    ;
}

/// Writes `value` as the shortest packed integer that carries it. Returns
/// `None` where the magnitude needs more than 35 bits.
pub fn write_packed_int(value: i64) -> (r: Option<Vec<u8>>)
    ensures
        match r {
            Some(bytes) => packed_int_fits(value as int) && bytes@ == packed_bytes(value as int),
            None => !packed_int_fits(value as int),
        },
{
    if value < -MAX_PACKED_MAGNITUDE || value > MAX_PACKED_MAGNITUDE {
        return None;
    }
    let sign: u8 = if value < 0 { 0x80 } else { 0 };
    let m: u64 = if value < 0 { (-value) as u64 } else { value as u64 };
    proof {
        lemma_split_bits(m);
    }
    let low: u8 = (m & 0x3F) as u8;
    let mut out: Vec<u8> = Vec::new();
    if m < 0x40 {
        out.push(sign + low);
    } else {
        out.push(sign + 0x40 + low);
        if m < 0x2000 {
            out.push((m >> 6) as u8);
        } else {
            out.push(0x80 + ((m >> 6) & 0x7F) as u8);
            if m < 0x10_0000 {
                out.push((m >> 13) as u8);
            } else {
                out.push(0x80 + ((m >> 13) & 0x7F) as u8);
                if m < 0x800_0000 {
                    out.push((m >> 20) as u8);
                } else {
                    out.push(0x80 + ((m >> 20) & 0x7F) as u8);
                    out.push((m >> 27) as u8);
                }
            }
        }
    }
    assert(out@ =~= packed_bytes(value as int));
    Some(out)
}

proof fn lemma_first_byte_parts(sign: int, flag: int, low: int)
    requires
        sign == 0 || sign == 0x80,
        flag == 0 || flag == 0x40,
        0 <= low < 0x40,
    ensures
        0 <= sign + flag + low < 0x100,
        (sign + flag + low) % 0x40 == low,
        first_continues((sign + flag + low) as u8) == (flag == 0x40),
        (sign + flag + low >= 0x80) == (sign == 0x80),
{
}

proof fn lemma_later_byte_parts(flag: int, low: int)
    requires
        flag == 0 || flag == 0x80,
        0 <= low < 0x80,
    ensures
        0 <= flag + low < 0x100,
        (flag + low) % 0x80 == low,
        later_continues((flag + low) as u8) == (flag == 0x80),
{
}

proof fn lemma_groups(m: int)
    requires
        0 <= m <= MAX_PACKED_MAGNITUDE,
    ensures
        m == m % 0x40 + (m / 0x40) * 0x40,
        m / 0x40 == m / 0x40 % 0x80 + (m / 0x2000) * 0x80,
        m / 0x2000 == m / 0x2000 % 0x80 + (m / 0x10_0000) * 0x80,
        m / 0x10_0000 == m / 0x10_0000 % 0x80 + (m / 0x800_0000) * 0x80,
        0 <= m / 0x800_0000 < 0x100,
        m < 0x2000 ==> m / 0x40 < 0x80,
        m < 0x10_0000 ==> m / 0x2000 < 0x80,
        m < 0x800_0000 ==> m / 0x10_0000 < 0x80,
{
}

proof fn lemma_round_trip_alone(value: int)
    requires
        packed_int_fits(value),
    ensures
        1 <= packed_bytes(value).len() <= 5,
        packed_int_at(packed_bytes(value), 0) == Some((value, packed_bytes(value).len() as int)),
{
    let bytes = packed_bytes(value);
    let m = if value < 0 { -value } else { value };
    let sign = if value < 0 { 0x80int } else { 0int };
    lemma_groups(m);
    if m < 0x40 {
        lemma_first_byte_parts(sign, 0, m % 0x40);
        assert(bytes[0] == sign + m % 0x40);
        assert(packed_width_at(bytes, 0) == Some(1int));
    } else {
        lemma_first_byte_parts(sign, 0x40, m % 0x40);
        assert(bytes[0] == sign + 0x40 + m % 0x40);
        if m < 0x2000 {
            lemma_later_byte_parts(0, m / 0x40);
            assert(bytes[1] == m / 0x40);
            assert(packed_width_at(bytes, 0) == Some(2int));
        } else {
            lemma_later_byte_parts(0x80, m / 0x40 % 0x80);
            assert(bytes[1] == 0x80 + m / 0x40 % 0x80);
            if m < 0x10_0000 {
                lemma_later_byte_parts(0, m / 0x2000);
                assert(bytes[2] == m / 0x2000);
                assert(packed_width_at(bytes, 0) == Some(3int));
            } else {
                lemma_later_byte_parts(0x80, m / 0x2000 % 0x80);
                assert(bytes[2] == 0x80 + m / 0x2000 % 0x80);
                if m < 0x800_0000 {
                    lemma_later_byte_parts(0, m / 0x10_0000);
                    assert(bytes[3] == m / 0x10_0000);
                    assert(packed_width_at(bytes, 0) == Some(4int));
                } else {
                    lemma_later_byte_parts(0x80, m / 0x10_0000 % 0x80);
                    assert(bytes[3] == 0x80 + m / 0x10_0000 % 0x80);
                    assert(bytes[4] == m / 0x800_0000);
                    assert(packed_width_at(bytes, 0) == Some(5int));
                }
            }
        }
    }
    assert(packed_magnitude(bytes, 0, bytes.len() as int) == m);
}

/// A packed integer is read from its own bytes alone: what stands before and
/// after them in the buffer changes only the positions.
pub proof fn lemma_packed_int_in_place(bytes: Seq<u8>, before: Seq<u8>, after: Seq<u8>)
    requires
        packed_int_at(bytes, 0) is Some,
    ensures
        match packed_int_at(bytes, 0) {
            Some((value, next)) => packed_int_at(before + bytes + after, before.len() as int)
                == Some((value, before.len() + next)),
            None => false,
        },
{
    let buf = before + bytes + after;
    let pos = before.len() as int;
    let width = packed_width_at(bytes, 0)->0;
    assert(1 <= width <= 5 && width <= bytes.len());
    assert(buf[pos] == bytes[0]);
    if width >= 2 {
        assert(buf[pos + 1] == bytes[1]);
    }
    if width >= 3 {
        assert(buf[pos + 2] == bytes[2]);
    }
    if width >= 4 {
        assert(buf[pos + 3] == bytes[3]);
    }
    if width >= 5 {
        assert(buf[pos + 4] == bytes[4]);
    }
    assert(packed_width_at(buf, pos) == Some(width));
}

/// Reading back what was written gives the value again: wherever the bytes of
/// a value that fits stand in a buffer, the packed integer there is that value
/// and ends where those bytes end. This holds for every width and both signs.
pub proof fn lemma_packed_int_round_trip(value: int, before: Seq<u8>, after: Seq<u8>)
    requires
        packed_int_fits(value),
    ensures
        1 <= packed_bytes(value).len() <= 5,
        packed_int_at(before + packed_bytes(value) + after, before.len() as int) == Some(
            (value, (before.len() + packed_bytes(value).len()) as int),
        ),
{
    lemma_round_trip_alone(value);
    lemma_packed_int_in_place(packed_bytes(value), before, after);
}

} // verus!
