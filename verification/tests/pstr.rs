use cpsave::error::SaveError;
use cpsave::pstr::{decode_text, locate_pstr, read_pstr, text_or_invalid, TextFrame};

#[test]
fn negative_count_selects_utf8() {
    // -5, then five bytes.
    let buf = [0x85, b'h', b'e', b'l', b'l', b'o'];
    assert_eq!(read_pstr(&buf, 0), Ok(("hello".to_string(), 6)));
}

#[test]
fn positive_count_selects_utf16() {
    // 3, then three little-endian units.
    let buf = [0x03, b'a', 0x00, b'b', 0x00, b'c', 0x00];
    assert_eq!(read_pstr(&buf, 0), Ok(("abc".to_string(), 7)));
}

#[test]
fn utf8_count_is_in_bytes() {
    // "né" is three bytes of UTF-8.
    let buf = [0x83, b'n', 0xC3, 0xA9, 0x77];
    assert_eq!(read_pstr(&buf, 0), Ok(("n\u{e9}".to_string(), 4)));
}

#[test]
fn utf16_count_is_in_units() {
    // U+00E9, then U+1D11E as a surrogate pair: three units, six bytes.
    let buf = [0x03, 0xE9, 0x00, 0x34, 0xD8, 0x1E, 0xDD, 0x77];
    assert_eq!(read_pstr(&buf, 0), Ok(("\u{e9}\u{1d11e}".to_string(), 7)));
}

#[test]
fn too_few_bytes_is_truncated() {
    // -3 with only two bytes.
    assert_eq!(read_pstr(&[0x83, b'a', b'b'], 0), Err(SaveError::TruncatedInput));
}

#[test]
fn too_few_units_is_truncated() {
    // 2 units need four bytes.
    assert_eq!(read_pstr(&[0x02, b'a', 0x00, b'b'], 0), Err(SaveError::TruncatedInput));
}

#[test]
fn missing_or_cut_prefix_is_truncated() {
    assert_eq!(read_pstr(&[], 0), Err(SaveError::TruncatedInput));
    assert_eq!(read_pstr(&[0xC0], 0), Err(SaveError::TruncatedInput));
}

#[test]
fn huge_counts_are_truncated() {
    // -(2^35 - 1) and 2^35 - 1 with nothing behind them.
    assert_eq!(
        read_pstr(&[0xFF, 0xFF, 0xFF, 0xFF, 0xFF], 0),
        Err(SaveError::TruncatedInput)
    );
    assert_eq!(
        read_pstr(&[0x7F, 0xFF, 0xFF, 0xFF, 0xFF, 0x00], 0),
        Err(SaveError::TruncatedInput)
    );
}

#[test]
fn bad_utf8_is_invalid_text() {
    assert_eq!(read_pstr(&[0x82, 0xC3, 0x28], 0), Err(SaveError::InvalidText));
    assert_eq!(read_pstr(&[0x81, 0xFF], 0), Err(SaveError::InvalidText));
    // An encoded surrogate is not UTF-8.
    assert_eq!(read_pstr(&[0x83, 0xED, 0xA0, 0x80], 0), Err(SaveError::InvalidText));
    // Neither is an overlong form.
    assert_eq!(read_pstr(&[0x82, 0xC0, 0x80], 0), Err(SaveError::InvalidText));
}

#[test]
fn bad_utf16_is_invalid_text() {
    // A lone high surrogate.
    assert_eq!(read_pstr(&[0x01, 0x00, 0xD8], 0), Err(SaveError::InvalidText));
    // A low surrogate first.
    assert_eq!(
        read_pstr(&[0x02, 0x1E, 0xDD, 0x34, 0xD8], 0),
        Err(SaveError::InvalidText)
    );
}

#[test]
fn zero_count_is_the_empty_string() {
    assert_eq!(read_pstr(&[0x00, 0x99], 0), Ok((String::new(), 1)));
    assert_eq!(read_pstr(&[0x80, 0x99], 0), Ok((String::new(), 1)));
}

#[test]
fn reads_at_a_position() {
    let buf = [0xEE, 0xEE, 0x82, b'o', b'k', 0xEE];
    assert_eq!(read_pstr(&buf, 2), Ok(("ok".to_string(), 5)));
}

#[test]
fn two_byte_prefix() {
    // -64 is written 0xC0 0x01; sixty-four bytes follow.
    let mut buf = vec![0xC0, 0x01];
    buf.extend(std::iter::repeat(b'x').take(64));
    assert_eq!(read_pstr(&buf, 0), Ok(("x".repeat(64), 66)));
}

#[test]
fn frames_are_located_without_decoding() {
    assert_eq!(
        locate_pstr(&[0x83, 0xFF, 0xFF, 0xFF, 0x00], 0),
        Ok(TextFrame { wide: false, start: 1, end: 4 })
    );
    assert_eq!(
        locate_pstr(&[0x00, 0x02, 1, 2, 3, 4], 1),
        Ok(TextFrame { wide: true, start: 2, end: 6 })
    );
    assert_eq!(locate_pstr(&[0x02, 1, 2, 3], 0), Err(SaveError::TruncatedInput));
}

#[test]
fn text_decodes_in_the_encoding_asked_for() {
    let bytes = [b'h', 0x00, b'i', 0x00];
    assert_eq!(decode_text(&bytes, true), Some("hi".to_string()));
    assert_eq!(decode_text(&bytes, false), Some("h\0i\0".to_string()));
    assert_eq!(decode_text(&[0xFF], false), None);
    assert_eq!(decode_text(&[0x00, 0xDC], true), None);
    assert_eq!(decode_text(&[], true), Some(String::new()));
    assert_eq!(decode_text(&[], false), Some(String::new()));
}

#[test]
fn odd_byte_after_the_last_unit_is_left_out() {
    assert_eq!(decode_text(&[b'h', 0x00, b'i'], true), Some("h".to_string()));
}

#[test]
fn text_or_invalid_keeps_text_and_position() {
    assert_eq!(text_or_invalid(Some("abc".to_string()), 9), Ok(("abc".to_string(), 9)));
    assert_eq!(text_or_invalid(None, 9), Err(SaveError::InvalidText));
}
