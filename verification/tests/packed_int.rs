use cpsave::error::SaveError;
use cpsave::packed_int::{read_packed_int, write_packed_int, MAX_PACKED_MAGNITUDE};

#[test]
fn one_byte_values() {
    assert_eq!(read_packed_int(&[0x00], 0), Ok((0, 1)));
    assert_eq!(read_packed_int(&[0x01], 0), Ok((1, 1)));
    assert_eq!(read_packed_int(&[0x3F], 0), Ok((63, 1)));
    assert_eq!(read_packed_int(&[0x81], 0), Ok((-1, 1)));
    assert_eq!(read_packed_int(&[0xBF], 0), Ok((-63, 1)));
}

#[test]
fn negative_zero_is_zero() {
    assert_eq!(read_packed_int(&[0x80], 0), Ok((0, 1)));
}

#[test]
fn two_byte_values() {
    assert_eq!(read_packed_int(&[0x40, 0x01], 0), Ok((64, 2)));
    assert_eq!(read_packed_int(&[0xC1, 0x01], 0), Ok((-65, 2)));
    assert_eq!(read_packed_int(&[0x7F, 0x7F], 0), Ok((8191, 2)));
}

#[test]
fn three_byte_values() {
    assert_eq!(read_packed_int(&[0x40, 0x80, 0x01], 0), Ok((8192, 3)));
    assert_eq!(read_packed_int(&[0xFF, 0xFF, 0x7F], 0), Ok((-1_048_575, 3)));
}

#[test]
fn four_byte_values() {
    assert_eq!(read_packed_int(&[0x40, 0x80, 0x80, 0x01], 0), Ok((1 << 20, 4)));
    assert_eq!(read_packed_int(&[0x7F, 0xFF, 0xFF, 0x7F], 0), Ok(((1 << 27) - 1, 4)));
}

#[test]
fn five_byte_values() {
    assert_eq!(read_packed_int(&[0x40, 0x80, 0x80, 0x80, 0x01], 0), Ok((1 << 27, 5)));
    assert_eq!(
        read_packed_int(&[0x7F, 0xFF, 0xFF, 0xFF, 0xFF], 0),
        Ok((MAX_PACKED_MAGNITUDE, 5))
    );
    assert_eq!(
        read_packed_int(&[0xFF, 0xFF, 0xFF, 0xFF, 0xFF], 0),
        Ok((-MAX_PACKED_MAGNITUDE, 5))
    );
}

#[test]
fn fifth_byte_has_no_continuation_flag() {
    // The high bit of the fifth byte is data: a sixth byte is never read.
    assert_eq!(
        read_packed_int(&[0x40, 0x80, 0x80, 0x80, 0x80, 0x55], 0),
        Ok((128 << 27, 5))
    );
}

#[test]
fn reads_at_a_position_and_leaves_the_rest() {
    let buf = [0xAA, 0xBB, 0xC1, 0x01, 0xCC];
    assert_eq!(read_packed_int(&buf, 2), Ok((-65, 4)));
}

#[test]
fn redundant_continuation_bytes_are_accepted() {
    assert_eq!(read_packed_int(&[0x45, 0x00], 0), Ok((5, 2)));
    assert_eq!(read_packed_int(&[0x45, 0x80, 0x00], 0), Ok((5, 3)));
}

#[test]
fn truncated_at_every_width() {
    assert_eq!(read_packed_int(&[], 0), Err(SaveError::TruncatedInput));
    assert_eq!(read_packed_int(&[0x40], 0), Err(SaveError::TruncatedInput));
    assert_eq!(read_packed_int(&[0x40, 0x80], 0), Err(SaveError::TruncatedInput));
    assert_eq!(read_packed_int(&[0x40, 0x80, 0x80], 0), Err(SaveError::TruncatedInput));
    assert_eq!(
        read_packed_int(&[0x40, 0x80, 0x80, 0x80], 0),
        Err(SaveError::TruncatedInput)
    );
}

#[test]
fn position_at_or_past_the_end_is_truncated() {
    assert_eq!(read_packed_int(&[0x01], 1), Err(SaveError::TruncatedInput));
    assert_eq!(read_packed_int(&[0x01], 7), Err(SaveError::TruncatedInput));
    assert_eq!(read_packed_int(&[0x01], usize::MAX), Err(SaveError::TruncatedInput));
}

#[test]
fn writes_the_shortest_form() {
    assert_eq!(write_packed_int(0), Some(vec![0x00]));
    assert_eq!(write_packed_int(63), Some(vec![0x3F]));
    assert_eq!(write_packed_int(-1), Some(vec![0x81]));
    assert_eq!(write_packed_int(64), Some(vec![0x40, 0x01]));
    assert_eq!(write_packed_int(-65), Some(vec![0xC1, 0x01]));
    assert_eq!(write_packed_int(8191), Some(vec![0x7F, 0x7F]));
    assert_eq!(write_packed_int(8192), Some(vec![0x40, 0x80, 0x01]));
    assert_eq!(write_packed_int(1 << 20), Some(vec![0x40, 0x80, 0x80, 0x01]));
    assert_eq!(write_packed_int(1 << 27), Some(vec![0x40, 0x80, 0x80, 0x80, 0x01]));
    assert_eq!(
        write_packed_int(-MAX_PACKED_MAGNITUDE),
        Some(vec![0xFF, 0xFF, 0xFF, 0xFF, 0xFF])
    );
}

#[test]
fn refuses_what_does_not_fit() {
    assert_eq!(write_packed_int(MAX_PACKED_MAGNITUDE + 1), None);
    assert_eq!(write_packed_int(-MAX_PACKED_MAGNITUDE - 1), None);
    assert_eq!(write_packed_int(i64::MAX), None);
    assert_eq!(write_packed_int(i64::MIN), None);
}

fn round_trips(value: i64) {
    let bytes = write_packed_int(value).unwrap();
    assert_eq!(read_packed_int(&bytes, 0), Ok((value, bytes.len())));
    // The same bytes inside a larger buffer.
    let mut buf = vec![0xFF, 0xFF];
    buf.extend_from_slice(&bytes);
    buf.push(0xFF);
    assert_eq!(read_packed_int(&buf, 2), Ok((value, 2 + bytes.len())));
}

#[test]
fn round_trip_at_the_width_boundaries() {
    for magnitude in [
        0i64,
        1,
        63,
        64,
        65,
        8191,
        8192,
        (1 << 20) - 1,
        1 << 20,
        (1 << 27) - 1,
        1 << 27,
        MAX_PACKED_MAGNITUDE - 1,
        MAX_PACKED_MAGNITUDE,
    ] {
        round_trips(magnitude);
        round_trips(-magnitude);
    }
}

#[test]
fn round_trip_over_a_spread_of_values() {
    let mut value: i64 = 1;
    while value <= MAX_PACKED_MAGNITUDE {
        round_trips(value);
        round_trips(-value);
        round_trips(value - 1);
        value = value * 3 + 1;
    }
    for value in -5000..5000 {
        round_trips(value);
    }
}

#[test]
fn widths_of_written_values() {
    assert_eq!(write_packed_int(63).unwrap().len(), 1);
    assert_eq!(write_packed_int(-8191).unwrap().len(), 2);
    assert_eq!(write_packed_int((1 << 20) - 1).unwrap().len(), 3);
    assert_eq!(write_packed_int(-((1 << 27) - 1)).unwrap().len(), 4);
    assert_eq!(write_packed_int(MAX_PACKED_MAGNITUDE).unwrap().len(), 5);
}
