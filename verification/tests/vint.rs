use bytes::Bytes;
use lucene_utils::util::{read_vint, read_vlong, ReadError};

#[test]
fn test_vint_one_byte() {
    let mut bytes = Bytes::from(vec![0x02]);

    let result = read_vint(&mut bytes).unwrap();

    assert_eq!(result, 2);
}

#[test]
fn test_vint_two_bytes() {
    let mut bytes = Bytes::from(vec![0x81, 0x01]);
    let result = read_vint(&mut bytes).unwrap();

    assert_eq!(result, 129)
}

#[test]
fn test_vint_two_bytes_max() {
    let mut bytes = Bytes::from(vec![0xFF, 0x7F]);
    let result = read_vint(&mut bytes).unwrap();

    assert_eq!(result, 16383)
}

#[test]
fn test_vint_three_bytes() {
    let mut bytes = Bytes::from(vec![0x81, 0x80, 0x01]);
    let result = read_vint(&mut bytes).unwrap();

    assert_eq!(result, 16385)
}

/// Writes `value` as a base-128 varint.
fn encode(mut value: u64) -> Vec<u8> {
    let mut out = Vec::new();
    while value >= 0x80 {
        out.push((value & 0x7f) as u8 | 0x80);
        value >>= 7;
    }
    out.push(value as u8);
    out
}

#[test]
fn vint_zero_is_one_zero_byte() {
    let mut bytes = Bytes::from(vec![0x00, 0x55]);
    assert_eq!(read_vint(&mut bytes), Ok(0));
    assert_eq!(bytes.len(), 1);
}

#[test]
fn vint_leaves_what_follows() {
    let mut bytes = Bytes::from(vec![0x81, 0x01, 0xAA, 0xBB]);
    assert_eq!(read_vint(&mut bytes), Ok(129));
    assert_eq!(&bytes[..], &[0xAA, 0xBB]);
}

#[test]
fn vint_round_trips() {
    let values: [u32; 14] = [
        0,
        1,
        127,
        128,
        129,
        16383,
        16384,
        16385,
        2097151,
        2097152,
        268435455,
        268435456,
        0x7fff_ffff,
        u32::MAX,
    ];
    for value in values {
        let mut bytes = Bytes::from(encode(value as u64));
        assert_eq!(read_vint(&mut bytes), Ok(value));
        assert_eq!(bytes.len(), 0);
    }
}

#[test]
fn vint_round_trips_across_the_range() {
    for value in (0..=70_000u32).chain((70_000..=u32::MAX).step_by(65_521)) {
        let mut data = encode(value as u64);
        data.push(0x80);
        let length = data.len();
        let mut bytes = Bytes::from(data);
        assert_eq!(read_vint(&mut bytes), Ok(value));
        assert_eq!(bytes.len(), 1);
        let expected = match value {
            0..=0x7f => 1,
            0x80..=0x3fff => 2,
            0x4000..=0x1f_ffff => 3,
            0x20_0000..=0xfff_ffff => 4,
            _ => 5,
        };
        assert_eq!(length - 1, expected);
    }
}

#[test]
fn vint_max_is_five_bytes() {
    let mut bytes = Bytes::from(vec![0xFF, 0xFF, 0xFF, 0xFF, 0x0F]);
    assert_eq!(read_vint(&mut bytes), Ok(u32::MAX));
}

#[test]
fn vint_drops_bits_past_the_width() {
    let mut bytes = Bytes::from(vec![0x80, 0x80, 0x80, 0x80, 0x7F]);
    assert_eq!(read_vint(&mut bytes), Ok(0xF000_0000));
}

#[test]
fn vint_empty_input_is_eof() {
    let mut bytes = Bytes::from(Vec::new());
    assert_eq!(read_vint(&mut bytes), Err(ReadError::UnexpectedEof));
}

#[test]
fn vint_cut_short_is_eof() {
    let mut bytes = Bytes::from(vec![0x81]);
    assert_eq!(read_vint(&mut bytes), Err(ReadError::UnexpectedEof));
    let mut bytes = Bytes::from(vec![0x81, 0x80]);
    assert_eq!(read_vint(&mut bytes), Err(ReadError::UnexpectedEof));
    let mut bytes = Bytes::from(vec![0xFF, 0xFF, 0xFF, 0xFF]);
    assert_eq!(read_vint(&mut bytes), Err(ReadError::UnexpectedEof));
}

#[test]
fn vint_sixth_byte_is_overflow() {
    let mut bytes = Bytes::from(vec![0x80, 0x80, 0x80, 0x80, 0x80, 0x01]);
    assert_eq!(read_vint(&mut bytes), Err(ReadError::VarIntOverflow));
    let mut bytes = Bytes::from(vec![0xFF, 0xFF, 0xFF, 0xFF, 0xFF]);
    assert_eq!(read_vint(&mut bytes), Err(ReadError::VarIntOverflow));
}

#[test]
fn vlong_round_trips() {
    let values: [u64; 8] = [
        0,
        127,
        128,
        u32::MAX as u64,
        u32::MAX as u64 + 1,
        1 << 56,
        (1 << 63) - 1,
        u64::MAX,
    ];
    for value in values {
        let mut bytes = Bytes::from(encode(value));
        assert_eq!(read_vlong(&mut bytes), Ok(value));
        assert_eq!(bytes.len(), 0);
    }
}

#[test]
fn vlong_takes_ten_bytes_and_no_more() {
    let mut bytes =
        Bytes::from(vec![0xFF, 0xFF, 0xFF, 0xFF, 0xFF, 0xFF, 0xFF, 0xFF, 0xFF, 0x01]);
    assert_eq!(read_vlong(&mut bytes), Ok(u64::MAX));
    let mut bytes =
        Bytes::from(vec![0x80, 0x80, 0x80, 0x80, 0x80, 0x80, 0x80, 0x80, 0x80, 0x80, 0x01]);
    assert_eq!(read_vlong(&mut bytes), Err(ReadError::VarIntOverflow));
    let mut bytes = Bytes::from(vec![0x80, 0x80, 0x80, 0x80, 0x80, 0x80]);
    assert_eq!(read_vlong(&mut bytes), Err(ReadError::UnexpectedEof));
}
