//! The prefixed string: a packed integer, then the text it measures.
//!
//! The sign of the prefix selects the encoding. A negative prefix `-n` is
//! followed by `n` bytes of UTF-8. A prefix `n` that is not negative is
//! followed by `n` little-endian 16-bit units of UTF-16, that is `2 * n` bytes.

use crate::error::SaveError;
use crate::fields::{has_bytes, le_units, read_units_le};
use crate::packed_int::{packed_int_at, read_packed_int};
use vstd::prelude::*;
use vstd::slice::{slice_subrange, slice_to_vec};
use vstd::utf8::{decode_utf8, valid_utf8};

verus! {

/// Where the text of a prefixed string lies in its buffer, and how it is
/// encoded.
#[derive(Clone, Copy, Debug, PartialEq, Eq, Structural)]
pub struct TextFrame {
    /// `true` for UTF-16 units, `false` for UTF-8 bytes.
    pub wide: bool,
    /// Position of the first byte of the text.
    pub start: usize,
    /// Position just past the last byte of the text.
    pub end: usize,
}

/// The frame of the prefixed string at `pos` as encoding, start and end;
/// `None` where the buffer ends inside the prefix or before the end of the
/// text.
pub open spec fn pstr_frame_at(buf: Seq<u8>, pos: int) -> Option<(bool, int, int)> {
    match packed_int_at(buf, pos) {
        None => None,
        Some((count, start)) => {
            let width = if count < 0 { -count } else { 2 * count };
            if has_bytes(buf.len(), start, width) {
                Some((count >= 0, start, start + width))
            } else {
                None
            }
        },
    }
}

/// The text that a sequence of UTF-16 units encodes; `None` where the units
/// are not valid UTF-16.
pub uninterp spec fn utf16_text(units: Seq<u16>) -> Option<Seq<char>>;

/// The text that a sequence of bytes encodes in UTF-8; `None` where the bytes
/// are not valid UTF-8.
pub open spec fn utf8_text(bytes: Seq<u8>) -> Option<Seq<char>> {
    if valid_utf8(bytes) {
        Some(decode_utf8(bytes))
    } else {
        None
    }
}

/// The text that the bytes of a frame encode.
pub open spec fn frame_text(payload: Seq<u8>, wide: bool) -> Option<Seq<char>> {
    if wide {
        utf16_text(le_units(payload))
    } else {
        utf8_text(payload)
    }
}

/// The prefixed string at `pos` and the position just past it.
pub open spec fn pstr_at(buf: Seq<u8>, pos: int) -> Result<(Seq<char>, int), SaveError> {
    match pstr_frame_at(buf, pos) {
        None => Err(SaveError::TruncatedInput),
        Some((wide, start, end)) => match frame_text(buf.subrange(start, end), wide) {
            Some(text) => Ok((text, end)),
            None => Err(SaveError::InvalidText),
        },
    }
}

/// `String::from_utf8`, with its error reduced to `None`: it succeeds exactly
/// on valid UTF-8, and the string it gives is the text those bytes encode.
#[verifier::external_body]
fn utf8_to_string(bytes: Vec<u8>) -> (text: Option<String>)
    ensures
        match text {
            Some(s) => utf8_text(bytes@) == Some(s@),
            None => utf8_text(bytes@) is None,
        },
{
    String::from_utf8(bytes).ok()
}

/// `String::from_utf16`, with its error reduced to `None`: whether it
/// succeeds and which string it gives depend on the units alone. Nothing is
/// claimed of what a given sequence of units decodes to.
#[verifier::external_body]
fn utf16_to_string(units: &Vec<u16>) -> (text: Option<String>)
    ensures
        match text {
            Some(s) => utf16_text(units@) == Some(s@),
            None => utf16_text(units@) is None,
        },
{
    String::from_utf16(units).ok()
}

/// Finds the text of the prefixed string at `pos` without decoding it. Fails
/// with `TruncatedInput` where the buffer ends inside the prefix or holds
/// fewer bytes than the prefix asks for.
pub fn locate_pstr(buf: &[u8], pos: usize) -> (r: Result<TextFrame, SaveError>)
    ensures
        match r {
            Ok(frame) => {
                &&& pstr_frame_at(buf@, pos as int) == Some(
                    (frame.wide, frame.start as int, frame.end as int),
                )
                &&& pos < frame.start <= frame.end <= buf@.len()
            },
            Err(e) => e == SaveError::TruncatedInput && pstr_frame_at(buf@, pos as int) is None,
        },
{
    let (count, start) = match read_packed_int(buf, pos) {
        Ok(found) => found,
        Err(e) => {
            return Err(e);
        },
    };
    let wide = count >= 0;
    let width: u64 = if wide { 2 * (count as u64) } else { (-count) as u64 };
    let room: usize = buf.len() - start;
    if (room as u64) < width {
        return Err(SaveError::TruncatedInput);
    }
    Ok(TextFrame { wide, start, end: start + width as usize })
}

/// Decodes the bytes of a frame: as UTF-16 units where `wide` is set, else
/// as UTF-8. `None` where the bytes are not valid in that encoding.
pub fn decode_text(payload: &[u8], wide: bool) -> (text: Option<String>)
    ensures
        match text {
            Some(s) => frame_text(payload@, wide) == Some(s@),
            None => frame_text(payload@, wide) is None,
        },
{
    if wide {
        let units = read_units_le(payload);
        utf16_to_string(&units)
    } else {
        utf8_to_string(slice_to_vec(payload))
    }
}

/// Turns decoded text and the end of its frame into what reading a prefixed
/// string returns: the text with the position after it, or `InvalidText`
/// where there is no text.
pub fn text_or_invalid(text: Option<String>, end: usize) -> (r: Result<(String, usize), SaveError>)
    ensures
        match text {
            Some(s) => r == Ok::<(String, usize), SaveError>((s, end)),
            None => r == Err::<(String, usize), SaveError>(SaveError::InvalidText),
        },
{
    match text {
        Some(s) => Ok((s, end)),
        None => Err(SaveError::InvalidText),
    }
}

/// Reads the prefixed string at `pos` and returns its text with the position
/// just past it. Fails with `TruncatedInput` where the buffer ends too early
/// and with `InvalidText` where the bytes are not valid in the encoding that
/// the prefix selects.
pub fn read_pstr(buf: &[u8], pos: usize) -> (r: Result<(String, usize), SaveError>)
    ensures
        match r {
            Ok((text, next)) => {
                &&& pstr_at(buf@, pos as int) == Ok::<(Seq<char>, int), SaveError>(
                    (text@, next as int),
                )
                &&& pos < next <= buf@.len()
            },
            Err(e) => pstr_at(buf@, pos as int) == Err::<(Seq<char>, int), SaveError>(e),
        },
{
    let frame = match locate_pstr(buf, pos) {
        Ok(frame) => frame,
        Err(e) => {
            return Err(e);
        },
    };
    let payload = slice_subrange(buf, frame.start, frame.end);
    text_or_invalid(decode_text(payload, frame.wide), frame.end)
}

} // verus!
