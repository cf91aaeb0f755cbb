use bytes::Bytes;
use lucene_utils::header::{
    check_header, check_header_id, check_header_no_magic, check_header_suffix, check_magic,
    HeaderError, CODEC_MAGIC,
};
use lucene_utils::util::ReadError;

const MAGIC: [u8; 4] = [0x3f, 0xd7, 0x6c, 0x17];

/// A header with the given magic number, codec name and version.
fn header(magic: [u8; 4], codec: &str, version: u32) -> Vec<u8> {
    let mut out = magic.to_vec();
    out.push(codec.len() as u8);
    out.extend(codec.as_bytes());
    out.extend(version.to_be_bytes());
    out
}

#[test]
fn magic_constant() {
    assert_eq!(CODEC_MAGIC, 0x3fd76c17);
    assert_eq!(CODEC_MAGIC.to_be_bytes(), MAGIC);
}

#[test]
fn check_magic_accepts_the_magic_number() {
    let mut bytes = Bytes::from(vec![0x3f, 0xd7, 0x6c, 0x17, 0xAB]);
    assert_eq!(check_magic(&mut bytes), Ok(0x3fd76c17));
    assert_eq!(&bytes[..], &[0xAB]);
}

#[test]
fn check_magic_names_both_numbers() {
    let mut bytes = Bytes::from(vec![0x01, 0x02, 0x03, 0x04]);
    assert_eq!(
        check_magic(&mut bytes),
        Err(HeaderError::MagicMismatch { expected: 0x3fd76c17, actual: 0x01020304 })
    );
}

#[test]
fn check_magic_on_short_input_is_eof() {
    let mut bytes = Bytes::from(vec![0x3f, 0xd7, 0x6c]);
    assert_eq!(check_magic(&mut bytes), Err(HeaderError::UnexpectedEof));
}

#[test]
fn check_header_returns_the_version() {
    let mut data = header(MAGIC, "segments", 10);
    data.push(0xEE);
    let mut bytes = Bytes::from(data);
    assert_eq!(check_header(&mut bytes, "segments", 9, 10), Ok(10));
    assert_eq!(&bytes[..], &[0xEE]);

    let mut bytes = Bytes::from(header(MAGIC, "segments", 9));
    assert_eq!(check_header(&mut bytes, "segments", 9, 10), Ok(9));
    assert_eq!(bytes.len(), 0);
}

#[test]
fn wrong_magic_wins_over_wrong_codec() {
    let mut bytes = Bytes::from(header([0xDE, 0xAD, 0xBE, 0xEF], "other", 10));
    assert_eq!(
        check_header(&mut bytes, "segments", 9, 10),
        Err(HeaderError::MagicMismatch { expected: 0x3fd76c17, actual: 0xDEADBEEF })
    );
}

#[test]
fn wrong_magic_wins_over_everything_behind_it() {
    let mut bytes = Bytes::from(vec![0, 0, 0, 0, 0xFF, 0xFF, 0xFF, 0xFF, 0xFF, 0xFF]);
    assert_eq!(
        check_header(&mut bytes, "segments", 9, 10),
        Err(HeaderError::MagicMismatch { expected: 0x3fd76c17, actual: 0 })
    );
    let mut bytes = Bytes::from(vec![0, 0, 0, 1]);
    assert_eq!(
        check_header(&mut bytes, "segments", 9, 10),
        Err(HeaderError::MagicMismatch { expected: 0x3fd76c17, actual: 1 })
    );
}

#[test]
fn wrong_codec_wins_over_wrong_version() {
    let mut bytes = Bytes::from(header(MAGIC, "other", 99));
    assert_eq!(
        check_header(&mut bytes, "segments", 9, 10),
        Err(HeaderError::CodecMismatch {
            expected: "segments".to_string(),
            actual: "other".to_string()
        })
    );
}

#[test]
fn codec_name_must_match_exactly() {
    let mut bytes = Bytes::from(header(MAGIC, "Segments", 10));
    assert!(matches!(
        check_header(&mut bytes, "segments", 9, 10),
        Err(HeaderError::CodecMismatch { .. })
    ));
    let mut bytes = Bytes::from(header(MAGIC, "segment", 10));
    assert!(matches!(
        check_header(&mut bytes, "segments", 9, 10),
        Err(HeaderError::CodecMismatch { .. })
    ));
    let mut bytes = Bytes::from(header(MAGIC, "", 10));
    assert_eq!(
        check_header(&mut bytes, "segments", 9, 10),
        Err(HeaderError::CodecMismatch { expected: "segments".to_string(), actual: String::new() })
    );
}

#[test]
fn codec_name_that_is_not_utf8() {
    let mut data = MAGIC.to_vec();
    data.extend([2, 0xFF, 0xFE]);
    data.extend(10u32.to_be_bytes());
    let mut bytes = Bytes::from(data);
    assert_eq!(check_header(&mut bytes, "segments", 9, 10), Err(HeaderError::MalformedCodecName));
}

#[test]
fn codec_name_with_endless_length() {
    let mut data = MAGIC.to_vec();
    data.extend([0x80, 0x80, 0x80, 0x80, 0x80, 0x01]);
    let mut bytes = Bytes::from(data);
    assert_eq!(check_header(&mut bytes, "segments", 9, 10), Err(HeaderError::VarIntOverflow));
}

#[test]
fn version_out_of_range() {
    let mut bytes = Bytes::from(header(MAGIC, "segments", 8));
    assert_eq!(check_header(&mut bytes, "segments", 9, 10), Err(HeaderError::VersionTooOld));
    let mut bytes = Bytes::from(header(MAGIC, "segments", 11));
    assert_eq!(check_header(&mut bytes, "segments", 9, 10), Err(HeaderError::VersionTooNew));
    let mut bytes = Bytes::from(header(MAGIC, "segments", 0));
    assert_eq!(check_header(&mut bytes, "segments", 9, 10), Err(HeaderError::VersionTooOld));
    let mut bytes = Bytes::from(header(MAGIC, "segments", u32::MAX));
    assert_eq!(check_header(&mut bytes, "segments", 9, 10), Err(HeaderError::VersionTooNew));
}

#[test]
fn version_range_is_inclusive() {
    for version in [3u32, 4, 5] {
        let mut bytes = Bytes::from(header(MAGIC, "c", version));
        assert_eq!(check_header(&mut bytes, "c", 3, 5), Ok(version));
    }
    let mut bytes = Bytes::from(header(MAGIC, "c", 7));
    assert_eq!(check_header(&mut bytes, "c", 7, 7), Ok(7));
}

#[test]
fn header_cut_short_is_eof() {
    let whole = header(MAGIC, "segments", 10);
    for cut in 0..whole.len() {
        let mut bytes = Bytes::from(whole[..cut].to_vec());
        assert_eq!(
            check_header(&mut bytes, "segments", 9, 10),
            Err(HeaderError::UnexpectedEof),
            "cut at {}",
            cut
        );
    }
}

#[test]
fn check_header_no_magic_starts_at_the_codec() {
    let mut data = vec![3, b'a', b'b', b'c'];
    data.extend(4u32.to_be_bytes());
    data.push(0xEE);
    let mut bytes = Bytes::from(data);
    assert_eq!(check_header_no_magic(&mut bytes, "abc", 1, 4), Ok(4));
    assert_eq!(&bytes[..], &[0xEE]);
}

#[test]
fn check_header_id_compares_sixteen_bytes() {
    let id: Vec<u8> = (1..=16).collect();
    let mut data = id.clone();
    data.push(0xEE);
    let mut bytes = Bytes::from(data);
    assert_eq!(check_header_id(&mut bytes, &id), Ok(id.clone()));
    assert_eq!(&bytes[..], &[0xEE]);

    let mut other = id.clone();
    other[15] ^= 1;
    let mut bytes = Bytes::from(other);
    assert_eq!(check_header_id(&mut bytes, &id), Err(HeaderError::BadHeaderId));

    let mut bytes = Bytes::from(id.clone());
    assert_eq!(check_header_id(&mut bytes, &vec![1, 2, 3]), Err(HeaderError::BadHeaderId));

    let mut bytes = Bytes::from(id[..15].to_vec());
    assert_eq!(check_header_id(&mut bytes, &id), Err(HeaderError::UnexpectedEof));
}

#[test]
fn check_header_suffix_compares_text() {
    let mut bytes = Bytes::from(vec![0, 0xEE]);
    assert_eq!(check_header_suffix(&mut bytes, ""), Ok(String::new()));
    assert_eq!(&bytes[..], &[0xEE]);

    let mut bytes = Bytes::from(vec![2, b'1', b'2', 0xEE]);
    assert_eq!(check_header_suffix(&mut bytes, "12"), Ok("12".to_string()));
    assert_eq!(&bytes[..], &[0xEE]);

    let mut bytes = Bytes::from(vec![2, b'1', b'3']);
    assert_eq!(check_header_suffix(&mut bytes, "12"), Err(HeaderError::BadHeaderSuffix));
    let mut bytes = Bytes::from(vec![0]);
    assert_eq!(check_header_suffix(&mut bytes, "12"), Err(HeaderError::BadHeaderSuffix));
    let mut bytes = Bytes::from(vec![1, b'1']);
    assert_eq!(check_header_suffix(&mut bytes, ""), Err(HeaderError::BadHeaderSuffix));
}

#[test]
fn check_header_suffix_faults_of_the_cursor() {
    let mut bytes = Bytes::from(Vec::new());
    assert_eq!(check_header_suffix(&mut bytes, ""), Err(HeaderError::UnexpectedEof));
    let mut bytes = Bytes::from(vec![3, b'a', b'b']);
    assert_eq!(check_header_suffix(&mut bytes, "abc"), Err(HeaderError::UnexpectedEof));
    let mut bytes = Bytes::from(vec![1, 0xFF]);
    assert_eq!(check_header_suffix(&mut bytes, "a"), Err(HeaderError::InvalidEncoding));
}

#[test]
fn cursor_faults_keep_their_names_in_a_header() {
    assert_eq!(HeaderError::from(ReadError::UnexpectedEof), HeaderError::UnexpectedEof);
    assert_eq!(HeaderError::from(ReadError::InvalidEncoding), HeaderError::InvalidEncoding);
    assert_eq!(HeaderError::from(ReadError::VarIntOverflow), HeaderError::VarIntOverflow);
}
