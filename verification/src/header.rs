//! The framing header that opens every file of the format: a magic number, a
//! codec name, a version, and optionally an identifier and a suffix.
//!
//! The checks run in that order and the first one that fails decides the
//! fault.

use crate::cursor::unread;
use crate::laws::{
    cut_reads, lemma_fixed_width_reads_are_local, lemma_string_reads_are_local,
};
use crate::util::{
    advanced, left_by, lemma_advanced_trans, lemma_parse_fixed_advances,
    lemma_parse_string_advances, lemma_parse_utf8_advances, parse_id, parse_string, parse_u32_be,
    parse_u8, parse_utf8, read_id, read_string, read_string_fixed, read_u32_be, read_u8,
    same_bytes, ReadError,
};
use bytes::Bytes;
use vstd::prelude::*;
use vstd::std_specs::convert::FromSpecImpl;

verus! {

/// The magic number that opens every header.
pub const CODEC_MAGIC: u32 = 0x3fd76c17;

/// A fault found while checking a header.
#[derive(Debug, Clone, PartialEq, Eq)]
#[allow(inconsistent_fields)]
pub enum HeaderError {
    /// The first four bytes are not [`CODEC_MAGIC`].
    MagicMismatch { expected: u32, actual: u32 },
    /// The codec name is not the one asked for.
    CodecMismatch { expected: String, actual: String },
    /// The codec name is not valid UTF-8.
    MalformedCodecName,
    /// The version is below the lowest accepted one.
    VersionTooOld,
    /// The version is above the highest accepted one.
    VersionTooNew,
    /// The identifier is not the one asked for.
    BadHeaderId,
    /// The suffix is not the one asked for.
    BadHeaderSuffix,
    /// The input ended inside the header.
    UnexpectedEof,
    /// The suffix is not valid UTF-8.
    InvalidEncoding,
    /// The length of the codec name is a varint that does not end.
    VarIntOverflow,
}

/// A [`HeaderError`] with each string seen as its text.
#[allow(inconsistent_fields)]
pub enum HeaderFault {
    MagicMismatch { expected: u32, actual: u32 },
    CodecMismatch { expected: Seq<char>, actual: Seq<char> },
    MalformedCodecName,
    VersionTooOld,
    VersionTooNew,
    BadHeaderId,
    BadHeaderSuffix,
    UnexpectedEof,
    InvalidEncoding,
    VarIntOverflow,
}

impl View for HeaderError {
    type V = HeaderFault;

    open spec fn view(&self) -> HeaderFault {
        match *self {
            HeaderError::MagicMismatch { expected, actual } => HeaderFault::MagicMismatch {
                expected,
                actual,
            },
            HeaderError::CodecMismatch { expected, actual } => HeaderFault::CodecMismatch {
                expected: expected@,
                actual: actual@,
            },
            HeaderError::MalformedCodecName => HeaderFault::MalformedCodecName,
            HeaderError::VersionTooOld => HeaderFault::VersionTooOld,
            HeaderError::VersionTooNew => HeaderFault::VersionTooNew,
            HeaderError::BadHeaderId => HeaderFault::BadHeaderId,
            HeaderError::BadHeaderSuffix => HeaderFault::BadHeaderSuffix,
            HeaderError::UnexpectedEof => HeaderFault::UnexpectedEof,
            HeaderError::InvalidEncoding => HeaderFault::InvalidEncoding,
            HeaderError::VarIntOverflow => HeaderFault::VarIntOverflow,
        }
    }
}

/// A fault of the cursor as a header fault: the same fault, under the same
/// name.
pub open spec fn read_fault(e: ReadError) -> HeaderFault {
    match e {
        ReadError::UnexpectedEof => HeaderFault::UnexpectedEof,
        ReadError::InvalidEncoding => HeaderFault::InvalidEncoding,
        ReadError::VarIntOverflow => HeaderFault::VarIntOverflow,
    }
}

impl From<ReadError> for HeaderError {
    fn from(e: ReadError) -> (r: HeaderError) {
        match e {
            ReadError::UnexpectedEof => HeaderError::UnexpectedEof,
            ReadError::InvalidEncoding => HeaderError::InvalidEncoding,
            ReadError::VarIntOverflow => HeaderError::VarIntOverflow,
        }
    }
}

impl FromSpecImpl<ReadError> for HeaderError {
    open spec fn obeys_from_spec() -> bool {
        true
    }

    open spec fn from_spec(e: ReadError) -> HeaderError {
        match e {
            ReadError::UnexpectedEof => HeaderError::UnexpectedEof,
            ReadError::InvalidEncoding => HeaderError::InvalidEncoding,
            ReadError::VarIntOverflow => HeaderError::VarIntOverflow,
        }
    }
}

/// The magic number: four bytes, big-endian, equal to [`CODEC_MAGIC`].
pub open spec fn parse_magic(s: Seq<u8>) -> Result<(u32, Seq<u8>), HeaderFault> {
    match parse_u32_be(s) {
        Err(e) => Err(read_fault(e)),
        Ok((actual, rest)) => if actual == CODEC_MAGIC {
            Ok((actual, rest))
        } else {
            Err(HeaderFault::MagicMismatch { expected: CODEC_MAGIC, actual })
        },
    }
}

/// The codec name, which must be `codec`, and then the version, which must
/// lie in `min_version..=max_version`.
pub open spec fn parse_codec_and_version(
    s: Seq<u8>,
    codec: Seq<char>,
    min_version: u32,
    max_version: u32,
) -> Result<(u32, Seq<u8>), HeaderFault> {
    match parse_string(s) {
        Err(ReadError::InvalidEncoding) => Err(HeaderFault::MalformedCodecName),
        Err(e) => Err(read_fault(e)),
        Ok((actual, after_name)) => if actual != codec {
            Err(HeaderFault::CodecMismatch { expected: codec, actual })
        } else {
            match parse_u32_be(after_name) {
                Err(e) => Err(read_fault(e)),
                Ok((version, rest)) => if version < min_version {
                    Err(HeaderFault::VersionTooOld)
                } else if version > max_version {
                    Err(HeaderFault::VersionTooNew)
                } else {
                    Ok((version, rest))
                },
            }
        },
    }
}

/// Magic number, codec name and version, in that order.
pub open spec fn parse_header(
    s: Seq<u8>,
    codec: Seq<char>,
    min_version: u32,
    max_version: u32,
) -> Result<(u32, Seq<u8>), HeaderFault> {
    match parse_magic(s) {
        Err(e) => Err(e),
        Ok((_, rest)) => parse_codec_and_version(rest, codec, min_version, max_version),
    }
}

/// An identifier, which must be `id`.
pub open spec fn parse_header_id(s: Seq<u8>, id: Seq<u8>) -> Result<
    (Seq<u8>, Seq<u8>),
    HeaderFault,
> {
    match parse_id(s) {
        Err(e) => Err(read_fault(e)),
        Ok((actual, rest)) => if actual == id {
            Ok((actual, rest))
        } else {
            Err(HeaderFault::BadHeaderId)
        },
    }
}

/// One byte of length and then that many bytes of text, which must be
/// `suffix`.
pub open spec fn parse_header_suffix(s: Seq<u8>, suffix: Seq<char>) -> Result<
    (Seq<char>, Seq<u8>),
    HeaderFault,
> {
    match parse_u8(s) {
        Err(e) => Err(read_fault(e)),
        Ok((length, after_length)) => match parse_utf8(after_length, length as nat) {
            Err(e) => Err(read_fault(e)),
            Ok((actual, rest)) => if actual == suffix {
                Ok((actual, rest))
            } else {
                Err(HeaderFault::BadHeaderSuffix)
            },
        },
    }
}

/// What follows a checked part of a header is a suffix of what was checked.
pub proof fn lemma_header_parses_advance(
    s: Seq<u8>,
    codec: Seq<char>,
    min_version: u32,
    max_version: u32,
    id: Seq<u8>,
    suffix: Seq<char>,
)
    ensures
        parse_magic(s) matches Ok((_, rest)) ==> advanced(s, rest),
        parse_codec_and_version(s, codec, min_version, max_version) matches Ok((_, rest))
            ==> advanced(s, rest),
        parse_header(s, codec, min_version, max_version) matches Ok((_, rest)) ==> advanced(
            s,
            rest,
        ),
        parse_header_id(s, id) matches Ok((_, rest)) ==> advanced(s, rest),
        parse_header_suffix(s, suffix) matches Ok((_, rest)) ==> advanced(s, rest),
{
    lemma_parse_fixed_advances(s);
    lemma_parse_string_advances(s);
    if let Ok((_, after_name)) = parse_string(s) {
        lemma_parse_fixed_advances(after_name);
        if let Ok((_, rest)) = parse_u32_be(after_name) {
            lemma_advanced_trans(s, after_name, rest);
        }
    }
    if let Ok((_, after_magic)) = parse_magic(s) {
        lemma_parse_string_advances(after_magic);
        if let Ok((_, after_name)) = parse_string(after_magic) {
            lemma_parse_fixed_advances(after_name);
            if let Ok((_, rest)) = parse_u32_be(after_name) {
                lemma_advanced_trans(after_magic, after_name, rest);
                lemma_advanced_trans(s, after_magic, rest);
            }
        }
    }
    if let Ok((length, after_length)) = parse_u8(s) {
        lemma_parse_utf8_advances(after_length, length as nat);
        if let Ok((_, rest)) = parse_utf8(after_length, length as nat) {
            lemma_advanced_trans(s, after_length, rest);
        }
    }
}

/// The first check that fails decides the fault. A header with a wrong magic
/// number is a `MagicMismatch` whatever stands behind the number; one with
/// the right magic number and another codec name is a `CodecMismatch`
/// whatever its version; and a version below the lowest accepted one is
/// `VersionTooOld` even where it is also above the highest.
pub proof fn lemma_first_failed_check_decides(
    s: Seq<u8>,
    codec: Seq<char>,
    min_version: u32,
    max_version: u32,
)
    ensures
        match parse_u32_be(s) {
            Ok((actual, _)) => actual != CODEC_MAGIC ==> parse_header(
                s,
                codec,
                min_version,
                max_version,
            ) == Err::<(u32, Seq<u8>), HeaderFault>(
                HeaderFault::MagicMismatch { expected: CODEC_MAGIC, actual },
            ),
            Err(_) => true,
        },
        match parse_magic(s) {
            Ok((_, after_magic)) => match parse_string(after_magic) {
                Ok((actual, after_name)) => {
                    &&& actual != codec ==> parse_header(s, codec, min_version, max_version)
                        == Err::<(u32, Seq<u8>), HeaderFault>(
                        HeaderFault::CodecMismatch { expected: codec, actual },
                    )
                    &&& match parse_u32_be(after_name) {
                        Ok((version, _)) => actual == codec && version < min_version
                            ==> parse_header(s, codec, min_version, max_version) == Err::<
                            (u32, Seq<u8>),
                            HeaderFault,
                        >(HeaderFault::VersionTooOld),
                        Err(_) => true,
                    }
                },
                Err(_) => true,
            },
            Err(_) => true,
        },
{
}

/// Of a spent input, every check of a header fails with `UnexpectedEof`.
pub proof fn lemma_spent_header_is_eof(
    codec: Seq<char>,
    min_version: u32,
    max_version: u32,
    id: Seq<u8>,
    suffix: Seq<char>,
)
    ensures
        parse_magic(Seq::empty()) == Err::<(u32, Seq<u8>), HeaderFault>(
            HeaderFault::UnexpectedEof,
        ),
        parse_codec_and_version(Seq::empty(), codec, min_version, max_version) == Err::<
            (u32, Seq<u8>),
            HeaderFault,
        >(HeaderFault::UnexpectedEof),
        parse_header(Seq::empty(), codec, min_version, max_version) == Err::<
            (u32, Seq<u8>),
            HeaderFault,
        >(HeaderFault::UnexpectedEof),
        parse_header_id(Seq::empty(), id) == Err::<(Seq<u8>, Seq<u8>), HeaderFault>(
            HeaderFault::UnexpectedEof,
        ),
        parse_header_suffix(Seq::empty(), suffix) == Err::<(Seq<char>, Seq<u8>), HeaderFault>(
            HeaderFault::UnexpectedEof,
        ),
{
}

/// The magic number is checked on its four bytes alone.
pub proof fn lemma_magic_is_local(s: Seq<u8>, k: int)
    requires
        0 <= k <= s.len(),
    ensures
        cut_reads(parse_magic(s), parse_magic(s.take(k)), s, k, HeaderFault::UnexpectedEof),
{
    lemma_fixed_width_reads_are_local(s, k, 0);
}

/// Codec name and version are checked on their own bytes alone.
pub proof fn lemma_codec_and_version_are_local(
    s: Seq<u8>,
    k: int,
    codec: Seq<char>,
    min_version: u32,
    max_version: u32,
)
    requires
        0 <= k <= s.len(),
    ensures
        cut_reads(
            parse_codec_and_version(s, codec, min_version, max_version),
            parse_codec_and_version(s.take(k), codec, min_version, max_version),
            s,
            k,
            HeaderFault::UnexpectedEof,
        ),
{
    lemma_string_reads_are_local(s, k);
    if let Ok((_, after_name)) = parse_string(s) {
        let first = s.len() - after_name.len();
        lemma_parse_fixed_advances(after_name);
        if let Ok((_, rest)) = parse_u32_be(after_name) {
            lemma_advanced_trans(s, after_name, rest);
            if k >= first {
                lemma_fixed_width_reads_are_local(after_name, k - first, 0);
            }
        }
    }
}

/// The identifier of a header is checked on its sixteen bytes alone.
pub proof fn lemma_header_id_is_local(s: Seq<u8>, k: int, id: Seq<u8>)
    requires
        0 <= k <= s.len(),
    ensures
        cut_reads(
            parse_header_id(s, id),
            parse_header_id(s.take(k), id),
            s,
            k,
            HeaderFault::UnexpectedEof,
        ),
{
    lemma_fixed_width_reads_are_local(s, k, 0);
}

/// The suffix of a header is checked on its own bytes alone.
pub proof fn lemma_header_suffix_is_local(s: Seq<u8>, k: int, suffix: Seq<char>)
    requires
        0 <= k <= s.len(),
    ensures
        cut_reads(
            parse_header_suffix(s, suffix),
            parse_header_suffix(s.take(k), suffix),
            s,
            k,
            HeaderFault::UnexpectedEof,
        ),
{
    lemma_fixed_width_reads_are_local(s, k, 0);
    if let Ok((length, after_length)) = parse_u8(s) {
        if let Ok((_, rest)) = parse_utf8(after_length, length as nat) {
            lemma_parse_utf8_advances(after_length, length as nat);
            lemma_advanced_trans(s, after_length, rest);
            if k >= 1 {
                lemma_fixed_width_reads_are_local(after_length, k - 1, length as nat);
            }
        }
    }
}

/// Magic number, codec name and version are checked on their own bytes
/// alone: cut short, a header is an `UnexpectedEof`, and with all of its bytes
/// it is what it is whatever follows.
pub proof fn lemma_header_is_local(
    s: Seq<u8>,
    k: int,
    codec: Seq<char>,
    min_version: u32,
    max_version: u32,
)
    requires
        0 <= k <= s.len(),
    ensures
        cut_reads(
            parse_header(s, codec, min_version, max_version),
            parse_header(s.take(k), codec, min_version, max_version),
            s,
            k,
            HeaderFault::UnexpectedEof,
        ),
{
    lemma_magic_is_local(s, k);
    if let Ok((_, after_magic)) = parse_magic(s) {
        lemma_codec_and_version_are_local(
            after_magic,
            if k >= 4 {
                k - 4
            } else {
                0
            },
            codec,
            min_version,
            max_version,
        );
        if let Ok((_, rest)) = parse_codec_and_version(
            after_magic,
            codec,
            min_version,
            max_version,
        ) {
            lemma_advanced_trans(s, after_magic, rest);
        }
    }
}

/// Checks the magic number and returns it.
pub fn check_magic(bytes: &mut Bytes) -> (r: Result<u32, HeaderError>)
    ensures
        match parse_magic(unread(*old(bytes))) {
            Ok((magic, _)) => r matches Ok(v) && v == magic,
            Err(fault) => r matches Err(e) && e@ == fault,
        },
        left_by(parse_magic(unread(*old(bytes))), unread(*old(bytes)), unread(*final(bytes))),
{
    let actual = match read_u32_be(bytes) {
        Ok(actual) => actual,
        Err(e) => {
            return Err(HeaderError::from(e));
        },
    };
    if actual == CODEC_MAGIC {
        Ok(actual)
    } else {
        Err(HeaderError::MagicMismatch { expected: CODEC_MAGIC, actual })
    }
}

/// Checks the codec name and the version, for a header whose magic number has
/// been checked already, and returns the version.
pub fn check_header_no_magic(
    bytes: &mut Bytes,
    codec: &str,
    min_version: u32,
    max_version: u32,
) -> (r: Result<u32, HeaderError>)
    ensures
        match parse_codec_and_version(unread(*old(bytes)), codec@, min_version, max_version) {
            Ok((version, _)) => r matches Ok(v) && v == version,
            Err(fault) => r matches Err(e) && e@ == fault,
        },
        left_by(
            parse_codec_and_version(unread(*old(bytes)), codec@, min_version, max_version),
            unread(*old(bytes)),
            unread(*final(bytes)),
        ),
{
    let actual = match read_string(bytes) {
        Ok(actual) => actual,
        Err(ReadError::InvalidEncoding) => {
            return Err(HeaderError::MalformedCodecName);
        },
        Err(e) => {
            return Err(HeaderError::from(e));
        },
    };
    let ghost after_name = unread(*bytes);
    let expected = codec.to_owned();
    if actual != expected {
        return Err(HeaderError::CodecMismatch { expected, actual });
    }
    let version = match read_u32_be(bytes) {
        Ok(version) => version,
        Err(e) => {
            return Err(HeaderError::from(e));
        },
    };
    proof {
        lemma_advanced_trans(unread(*old(bytes)), after_name, unread(*bytes));
    }
    if version < min_version {
        Err(HeaderError::VersionTooOld)
    } else if version > max_version {
        Err(HeaderError::VersionTooNew)
    } else {
        Ok(version)
    }
}

/// Checks magic number, codec name and version, and returns the version.
pub fn check_header(bytes: &mut Bytes, codec: &str, min_version: u32, max_version: u32) -> (r:
    Result<u32, HeaderError>)
    ensures
        match parse_header(unread(*old(bytes)), codec@, min_version, max_version) {
            Ok((version, _)) => r matches Ok(v) && v == version,
            Err(fault) => r matches Err(e) && e@ == fault,
        },
        left_by(
            parse_header(unread(*old(bytes)), codec@, min_version, max_version),
            unread(*old(bytes)),
            unread(*final(bytes)),
        ),
{
    let _magic = check_magic(bytes)?;
    let ghost after_magic = unread(*bytes);
    let r = check_header_no_magic(bytes, codec, min_version, max_version);
    proof {
        lemma_header_parses_advance(
            unread(*old(bytes)),
            codec@,
            min_version,
            max_version,
            Seq::empty(),
            Seq::empty(),
        );
        lemma_header_parses_advance(
            after_magic,
            codec@,
            min_version,
            max_version,
            Seq::empty(),
            Seq::empty(),
        );
        lemma_advanced_trans(unread(*old(bytes)), after_magic, unread(*bytes));
    }
    r
}

/// Checks that the next identifier is `id`, and returns it.
pub fn check_header_id(bytes: &mut Bytes, id: &Vec<u8>) -> (r: Result<Vec<u8>, HeaderError>)
    ensures
        match parse_header_id(unread(*old(bytes)), id@) {
            Ok((actual, _)) => r matches Ok(v) && v@ == actual,
            Err(fault) => r matches Err(e) && e@ == fault,
        },
        left_by(
            parse_header_id(unread(*old(bytes)), id@),
            unread(*old(bytes)),
            unread(*final(bytes)),
        ),
{
    let actual = match read_id(bytes) {
        Ok(actual) => actual,
        Err(e) => {
            return Err(HeaderError::from(e));
        },
    };
    if same_bytes(&actual, id) {
        Ok(actual)
    } else {
        Err(HeaderError::BadHeaderId)
    }
}

/// Checks that the next suffix, one byte of length and then the text, is
/// `suffix`, and returns it.
pub fn check_header_suffix(bytes: &mut Bytes, suffix: &str) -> (r: Result<String, HeaderError>)
    ensures
        match parse_header_suffix(unread(*old(bytes)), suffix@) {
            Ok((actual, _)) => r matches Ok(v) && v@ == actual,
            Err(fault) => r matches Err(e) && e@ == fault,
        },
        left_by(
            parse_header_suffix(unread(*old(bytes)), suffix@),
            unread(*old(bytes)),
            unread(*final(bytes)),
        ),
{
    let length = match read_u8(bytes) {
        Ok(length) => length,
        Err(e) => {
            return Err(HeaderError::from(e));
        },
    };
    let ghost after_length = unread(*bytes);
    let actual = match read_string_fixed(bytes, length as usize) {
        Ok(actual) => actual,
        Err(e) => {
            proof {
                lemma_advanced_trans(unread(*old(bytes)), after_length, unread(*bytes));
            }
            return Err(HeaderError::from(e));
        },
    };
    proof {
        lemma_advanced_trans(unread(*old(bytes)), after_length, unread(*bytes));
    }
    let expected = suffix.to_owned();
    if actual == expected {
        Ok(actual)
    } else {
        Err(HeaderError::BadHeaderSuffix)
    }
}

} // verus!
