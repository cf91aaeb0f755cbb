//! The descriptor file of one segment: a header that names the segment's
//! identifier, then the segment's versions, counts and tables.

use crate::collections::{texts, StringMap, StringSet};
use crate::cursor::unread;
use crate::directory_reader::DirectoryReader;
use crate::header::{
    check_header, check_header_id, check_header_suffix, lemma_header_id_is_local,
    lemma_header_is_local, lemma_header_suffix_is_local, lemma_spent_header_is_eof,
    parse_header, parse_header_id,
    parse_header_suffix, HeaderError, HeaderFault,
};
use crate::laws::{
    cut_reads, left_of, lemma_list_is_local, lemma_map_is_local, lemma_set_is_local,
    lemma_u32_le_is_local, lemma_u8_is_local,
};
use crate::segment_info::{SegmentInfo, SegmentInfoView, Version};
use crate::util::{
    lemma_advanced_trans, parse_list, parse_map, parse_set, parse_u32_le, parse_u8, read_map,
    read_set, read_u32_le, read_u8, read_vec, ReadError,
};
use bytes::Bytes;
use vstd::prelude::*;
use vstd::std_specs::convert::FromSpecImpl;
use vstd::string::StringExecFns;

verus! {

/// A fault found while reading a segment's descriptor.
#[derive(Debug, Clone, PartialEq, Eq)]
pub enum SegmentInfoReadError {
    /// The header of the descriptor is not the expected one.
    Header(HeaderError),
    /// A flag of the descriptor holds this byte, which no flag can hold.
    CorruptSegment(u8),
    /// The descriptor ended before the record did.
    UnexpectedEof,
    /// A string of the descriptor is not valid UTF-8.
    InvalidEncoding,
    /// A count or length of the descriptor is a varint that does not end.
    VarIntOverflow,
    /// The directory has no descriptor file for the segment.
    NotFound,
}

/// A [`SegmentInfoReadError`] with each string seen as its text.
pub enum SegmentInfoFault {
    Header(HeaderFault),
    CorruptSegment(u8),
    UnexpectedEof,
    InvalidEncoding,
    VarIntOverflow,
    NotFound,
}

impl View for SegmentInfoReadError {
    type V = SegmentInfoFault;

    open spec fn view(&self) -> SegmentInfoFault {
        match *self {
            SegmentInfoReadError::Header(e) => SegmentInfoFault::Header(e@),
            SegmentInfoReadError::CorruptSegment(flag) => SegmentInfoFault::CorruptSegment(flag),
            SegmentInfoReadError::UnexpectedEof => SegmentInfoFault::UnexpectedEof,
            SegmentInfoReadError::InvalidEncoding => SegmentInfoFault::InvalidEncoding,
            SegmentInfoReadError::VarIntOverflow => SegmentInfoFault::VarIntOverflow,
            SegmentInfoReadError::NotFound => SegmentInfoFault::NotFound,
        }
    }
}

/// A fault of the cursor as a fault of the descriptor: the same fault, under
/// the same name.
pub open spec fn read_fault(e: ReadError) -> SegmentInfoFault {
    match e {
        ReadError::UnexpectedEof => SegmentInfoFault::UnexpectedEof,
        ReadError::InvalidEncoding => SegmentInfoFault::InvalidEncoding,
        ReadError::VarIntOverflow => SegmentInfoFault::VarIntOverflow,
    }
}

/// A fault of the header as a fault of the descriptor. What the cursor
/// reported while the header was read keeps its name; the rest is carried as
/// it is.
pub open spec fn header_fault(fault: HeaderFault) -> SegmentInfoFault {
    match fault {
        HeaderFault::UnexpectedEof => SegmentInfoFault::UnexpectedEof,
        HeaderFault::InvalidEncoding => SegmentInfoFault::InvalidEncoding,
        HeaderFault::VarIntOverflow => SegmentInfoFault::VarIntOverflow,
        other => SegmentInfoFault::Header(other),
    }
}

impl From<ReadError> for SegmentInfoReadError {
    fn from(e: ReadError) -> (r: SegmentInfoReadError) {
        match e {
            ReadError::UnexpectedEof => SegmentInfoReadError::UnexpectedEof,
            ReadError::InvalidEncoding => SegmentInfoReadError::InvalidEncoding,
            ReadError::VarIntOverflow => SegmentInfoReadError::VarIntOverflow,
        }
    }
}

impl FromSpecImpl<ReadError> for SegmentInfoReadError {
    open spec fn obeys_from_spec() -> bool {
        true
    }

    open spec fn from_spec(e: ReadError) -> SegmentInfoReadError {
        match e {
            ReadError::UnexpectedEof => SegmentInfoReadError::UnexpectedEof,
            ReadError::InvalidEncoding => SegmentInfoReadError::InvalidEncoding,
            ReadError::VarIntOverflow => SegmentInfoReadError::VarIntOverflow,
        }
    }
}

impl From<HeaderError> for SegmentInfoReadError {
    fn from(e: HeaderError) -> (r: SegmentInfoReadError) {
        match e {
            HeaderError::UnexpectedEof => SegmentInfoReadError::UnexpectedEof,
            HeaderError::InvalidEncoding => SegmentInfoReadError::InvalidEncoding,
            HeaderError::VarIntOverflow => SegmentInfoReadError::VarIntOverflow,
            other => SegmentInfoReadError::Header(other),
        }
    }
}

impl FromSpecImpl<HeaderError> for SegmentInfoReadError {
    open spec fn obeys_from_spec() -> bool {
        true
    }

    open spec fn from_spec(e: HeaderError) -> SegmentInfoReadError {
        match e {
            HeaderError::UnexpectedEof => SegmentInfoReadError::UnexpectedEof,
            HeaderError::InvalidEncoding => SegmentInfoReadError::InvalidEncoding,
            HeaderError::VarIntOverflow => SegmentInfoReadError::VarIntOverflow,
            other => SegmentInfoReadError::Header(other),
        }
    }
}

/// Three little-endian `u32`: major, minor, bugfix.
#[verifier::opaque]
pub open spec fn parse_version(s: Seq<u8>) -> Result<(Version, Seq<u8>), ReadError> {
    match parse_u32_le(s) {
        Err(e) => Err(e),
        Ok((major, after_major)) => match parse_u32_le(after_major) {
            Err(e) => Err(e),
            Ok((minor, after_minor)) => match parse_u32_le(after_minor) {
                Err(e) => Err(e),
                Ok((bugfix, rest)) => Ok(((major, minor, bugfix), rest)),
            },
        },
    }
}

/// A flag byte, 0 or 1, and after a 1 a version.
#[verifier::opaque]
pub open spec fn parse_min_version(s: Seq<u8>) -> Result<
    (Option<Version>, Seq<u8>),
    SegmentInfoFault,
> {
    match parse_u8(s) {
        Err(e) => Err(read_fault(e)),
        Ok((flag, rest)) => if flag == 0 {
            Ok((None, rest))
        } else if flag == 1 {
            match parse_version(rest) {
                Err(e) => Err(read_fault(e)),
                Ok((version, rest)) => Ok((Some(version), rest)),
            }
        } else {
            Err(SegmentInfoFault::CorruptSegment(flag))
        },
    }
}

/// The header of a descriptor: codec [`Lucene90SegmentInfoFormat::CODEC`] in
/// one of the supported versions, the identifier `id`, and an empty suffix.
#[verifier::opaque]
pub open spec fn parse_descriptor_header(s: Seq<u8>, id: Seq<u8>) -> Result<
    ((), Seq<u8>),
    SegmentInfoFault,
> {
    match parse_header(
        s,
        Lucene90SegmentInfoFormat::CODEC@,
        Lucene90SegmentInfoFormat::VERSION_START,
        Lucene90SegmentInfoFormat::VERSION_CURRENT,
    ) {
        Err(fault) => Err(header_fault(fault)),
        Ok((_, after_version)) => match parse_header_id(after_version, id) {
            Err(fault) => Err(header_fault(fault)),
            Ok((_, after_id)) => match parse_header_suffix(after_id, Seq::empty()) {
                Err(fault) => Err(header_fault(fault)),
                Ok((_, rest)) => Ok(((), rest)),
            },
        },
    }
}

/// The four tables that close a descriptor: diagnostics, files, attributes
/// and sort fields.
#[verifier::opaque]
pub open spec fn parse_tables(s: Seq<u8>) -> Result<
    (
        (Map<Seq<char>, Seq<char>>, Set<Seq<char>>, Map<Seq<char>, Seq<char>>, Seq<Seq<char>>),
        Seq<u8>,
    ),
    ReadError,
> {
    match parse_map(s) {
        Err(e) => Err(e),
        Ok((diagnostics, after_diagnostics)) => match parse_set(after_diagnostics) {
            Err(e) => Err(e),
            Ok((files, after_files)) => match parse_map(after_files) {
                Err(e) => Err(e),
                Ok((attributes, after_attributes)) => match parse_list(after_attributes) {
                    Err(e) => Err(e),
                    Ok((sort_fields, rest)) => Ok(
                        ((diagnostics, files, attributes, sort_fields), rest),
                    ),
                },
            },
        },
    }
}

/// The versions and counts of a descriptor: the version that wrote the
/// segment, the optional minimum version, the document count as a
/// little-endian `u32`, and one byte that says, by being other than 0, that
/// the segment is a compound file.
#[verifier::opaque]
pub open spec fn parse_counts(s: Seq<u8>) -> Result<
    ((Version, Option<Version>, u32, bool), Seq<u8>),
    SegmentInfoFault,
> {
    match parse_version(s) {
        Err(e) => Err(read_fault(e)),
        Ok((version, after_version)) => match parse_min_version(after_version) {
            Err(fault) => Err(fault),
            Ok((min_version, after_min)) => match parse_u32_le(after_min) {
                Err(e) => Err(read_fault(e)),
                Ok((doc_count, after_count)) => match parse_u8(after_count) {
                    Err(e) => Err(read_fault(e)),
                    Ok((compound, rest)) => Ok(
                        ((version, min_version, doc_count, compound != 0), rest),
                    ),
                },
            },
        },
    }
}

/// What stands behind the header of the descriptor of the segment `name`
/// with identifier `id`.
#[verifier::opaque]
pub open spec fn parse_descriptor_body(s: Seq<u8>, name: Seq<char>, id: Seq<u8>) -> Result<
    (SegmentInfoView, Seq<u8>),
    SegmentInfoFault,
> {
    match parse_counts(s) {
        Err(fault) => Err(fault),
        Ok((counts, after_counts)) => match parse_tables(after_counts) {
            Err(e) => Err(read_fault(e)),
            Ok((tables, rest)) => Ok(
                (
                    SegmentInfoView {
                        name,
                        id,
                        version: counts.0,
                        min_version: counts.1,
                        doc_count: counts.2,
                        is_compound_file: counts.3,
                        diagnostics: tables.0,
                        files: tables.1,
                        attributes: tables.2,
                        sort_fields: tables.3,
                    },
                    rest,
                ),
            ),
        },
    }
}

/// The descriptor of the segment `name` with identifier `id`, decoded from
/// the front of `s`.
pub open spec fn parse_descriptor(s: Seq<u8>, name: Seq<char>, id: Seq<u8>) -> Result<
    (SegmentInfoView, Seq<u8>),
    SegmentInfoFault,
> {
    match parse_descriptor_header(s, id) {
        Err(fault) => Err(fault),
        Ok((_, body)) => parse_descriptor_body(body, name, id),
    }
}

/// The name of the descriptor file of the segment `name`.
pub open spec fn descriptor_file_name(name: Seq<char>) -> Seq<char> {
    name + "."@ + Lucene90SegmentInfoFormat::SI_EXTENSION@
}

/// The descriptor of the segment `name` with identifier `id`, decoded from
/// its file in `directory`. What the file holds behind the descriptor is not
/// looked at.
pub open spec fn descriptor_in(
    directory: Map<Seq<char>, Seq<u8>>,
    name: Seq<char>,
    id: Seq<u8>,
) -> Result<SegmentInfoView, SegmentInfoFault> {
    if directory.contains_key(descriptor_file_name(name)) {
        match parse_descriptor(directory[descriptor_file_name(name)], name, id) {
            Ok((info, _)) => Ok(info),
            Err(fault) => Err(fault),
        }
    } else {
        Err(SegmentInfoFault::NotFound)
    }
}

proof fn lemma_version_is_local(s: Seq<u8>, k: int)
    requires
        0 <= k <= s.len(),
    ensures
        cut_reads(parse_version(s), parse_version(s.take(k)), s, k, ReadError::UnexpectedEof),
{
    reveal(parse_version);
    lemma_u32_le_is_local(s, k);
    if let Ok((_, after_major)) = parse_u32_le(s) {
        lemma_u32_le_is_local(after_major, left_of(k, s, after_major));
        if let Ok((_, after_minor)) = parse_u32_le(after_major) {
            lemma_advanced_trans(s, after_major, after_minor);
            lemma_u32_le_is_local(after_minor, left_of(k, s, after_minor));
            if let Ok((_, rest)) = parse_u32_le(after_minor) {
                lemma_advanced_trans(s, after_minor, rest);
            }
        }
    }
}

proof fn lemma_min_version_is_local(s: Seq<u8>, k: int)
    requires
        0 <= k <= s.len(),
    ensures
        cut_reads(
            parse_min_version(s),
            parse_min_version(s.take(k)),
            s,
            k,
            SegmentInfoFault::UnexpectedEof,
        ),
{
    reveal(parse_min_version);
    lemma_u8_is_local(s, k);
    if let Ok((flag, after_flag)) = parse_u8(s) {
        lemma_version_is_local(after_flag, left_of(k, s, after_flag));
        if let Ok((_, rest)) = parse_version(after_flag) {
            lemma_advanced_trans(s, after_flag, rest);
        }
    }
}

proof fn lemma_counts_are_local(s: Seq<u8>, k: int)
    requires
        0 <= k <= s.len(),
    ensures
        cut_reads(parse_counts(s), parse_counts(s.take(k)), s, k, SegmentInfoFault::UnexpectedEof),
{
    reveal(parse_counts);
    lemma_version_is_local(s, k);
    if let Ok((_, after_version)) = parse_version(s) {
        lemma_min_version_is_local(after_version, left_of(k, s, after_version));
        if let Ok((_, after_min)) = parse_min_version(after_version) {
            lemma_advanced_trans(s, after_version, after_min);
            lemma_u32_le_is_local(after_min, left_of(k, s, after_min));
            if let Ok((_, after_count)) = parse_u32_le(after_min) {
                lemma_advanced_trans(s, after_min, after_count);
                lemma_u8_is_local(after_count, left_of(k, s, after_count));
                if let Ok((_, rest)) = parse_u8(after_count) {
                    lemma_advanced_trans(s, after_count, rest);
                }
            }
        }
    }
}

proof fn lemma_tables_are_local(s: Seq<u8>, k: int)
    requires
        0 <= k <= s.len(),
    ensures
        cut_reads(parse_tables(s), parse_tables(s.take(k)), s, k, ReadError::UnexpectedEof),
{
    reveal(parse_tables);
    lemma_map_is_local(s, k);
    if let Ok((_, after_diagnostics)) = parse_map(s) {
        lemma_set_is_local(after_diagnostics, left_of(k, s, after_diagnostics));
        if let Ok((_, after_files)) = parse_set(after_diagnostics) {
            lemma_advanced_trans(s, after_diagnostics, after_files);
            lemma_map_is_local(after_files, left_of(k, s, after_files));
            if let Ok((_, after_attributes)) = parse_map(after_files) {
                lemma_advanced_trans(s, after_files, after_attributes);
                lemma_list_is_local(after_attributes, left_of(k, s, after_attributes));
                if let Ok((_, rest)) = parse_list(after_attributes) {
                    lemma_advanced_trans(s, after_attributes, rest);
                }
            }
        }
    }
}

proof fn lemma_descriptor_header_is_local(s: Seq<u8>, k: int, id: Seq<u8>)
    requires
        0 <= k <= s.len(),
    ensures
        cut_reads(
            parse_descriptor_header(s, id),
            parse_descriptor_header(s.take(k), id),
            s,
            k,
            SegmentInfoFault::UnexpectedEof,
        ),
{
    reveal(parse_descriptor_header);
    let codec = Lucene90SegmentInfoFormat::CODEC@;
    let low = Lucene90SegmentInfoFormat::VERSION_START;
    let high = Lucene90SegmentInfoFormat::VERSION_CURRENT;
    let none = Seq::<char>::empty();
    lemma_header_is_local(s, k, codec, low, high);
    if let Ok((_, after_version)) = parse_header(s, codec, low, high) {
        lemma_header_id_is_local(after_version, left_of(k, s, after_version), id);
        if let Ok((_, after_id)) = parse_header_id(after_version, id) {
            lemma_advanced_trans(s, after_version, after_id);
            lemma_header_suffix_is_local(after_id, left_of(k, s, after_id), none);
            if let Ok((_, rest)) = parse_header_suffix(after_id, none) {
                lemma_advanced_trans(s, after_id, rest);
            }
        }
    }
}

proof fn lemma_descriptor_body_is_local(s: Seq<u8>, k: int, name: Seq<char>, id: Seq<u8>)
    requires
        0 <= k <= s.len(),
    ensures
        cut_reads(
            parse_descriptor_body(s, name, id),
            parse_descriptor_body(s.take(k), name, id),
            s,
            k,
            SegmentInfoFault::UnexpectedEof,
        ),
{
    reveal(parse_descriptor_body);
    lemma_counts_are_local(s, k);
    if let Ok((_, after_counts)) = parse_counts(s) {
        lemma_tables_are_local(after_counts, left_of(k, s, after_counts));
        if let Ok((_, rest)) = parse_tables(after_counts) {
            lemma_advanced_trans(s, after_counts, rest);
        }
    }
}

/// An empty file is no descriptor: it decodes to `UnexpectedEof`.
pub proof fn lemma_empty_descriptor_is_eof(name: Seq<char>, id: Seq<u8>)
    ensures
        parse_descriptor(Seq::empty(), name, id) == Err::<
            (SegmentInfoView, Seq<u8>),
            SegmentInfoFault,
        >(SegmentInfoFault::UnexpectedEof),
{
    reveal(parse_descriptor_header);
    lemma_spent_header_is_eof(
        Lucene90SegmentInfoFormat::CODEC@,
        Lucene90SegmentInfoFormat::VERSION_START,
        Lucene90SegmentInfoFormat::VERSION_CURRENT,
        id,
        Seq::empty(),
    );
}

/// A descriptor is decoded from the bytes it takes and from no others. Of a
/// file that holds a whole descriptor, every beginning that stops inside the
/// descriptor decodes to `UnexpectedEof`, and every beginning that holds all of
/// it decodes to the same segment.
pub proof fn lemma_descriptor_is_local(s: Seq<u8>, k: int, name: Seq<char>, id: Seq<u8>)
    requires
        0 <= k <= s.len(),
    ensures
        cut_reads(
            parse_descriptor(s, name, id),
            parse_descriptor(s.take(k), name, id),
            s,
            k,
            SegmentInfoFault::UnexpectedEof,
        ),
{
    lemma_descriptor_header_is_local(s, k, id);
    if let Ok((_, body)) = parse_descriptor_header(s, id) {
        lemma_descriptor_body_is_local(body, left_of(k, s, body), name, id);
        if let Ok((_, rest)) = parse_descriptor_body(body, name, id) {
            lemma_advanced_trans(s, body, rest);
        }
    }
}

/// The format of segment descriptors.
pub struct Lucene90SegmentInfoFormat {}

impl Lucene90SegmentInfoFormat {
    /// Extension of a descriptor file.
    pub const SI_EXTENSION: &'static str = "si";

    /// Codec name in the header of a descriptor file.
    pub const CODEC: &'static str = "SegmentInfo";

    /// Oldest supported version of the format.
    pub const VERSION_START: u32 = 0;

    /// Newest supported version of the format.
    pub const VERSION_CURRENT: u32 = 0;

    /// Reads the descriptor of the segment `name` with identifier `id` from
    /// its file in `directory_reader`.
    pub fn read(directory_reader: &DirectoryReader, name: String, id: Vec<u8>) -> (r: Result<
        SegmentInfo,
        SegmentInfoReadError,
    >)
        ensures
            match descriptor_in(directory_reader@, name@, id@) {
                Ok(info) => r matches Ok(found) && found@ == info,
                Err(fault) => r matches Err(e) && e@ == fault,
            },
    {
        let file_name = name.clone().concat(".").concat(Self::SI_EXTENSION);
        match directory_reader.read_file(file_name.as_str()) {
            Some(bytes) => Self::decode(bytes, name, id),
            None => Err(SegmentInfoReadError::NotFound),
        }
    }

    /// Decodes the descriptor of the segment `name` with identifier `id` from
    /// the unread bytes of `bytes`.
    pub fn decode(bytes: Bytes, name: String, id: Vec<u8>) -> (r: Result<
        SegmentInfo,
        SegmentInfoReadError,
    >)
        ensures
            match parse_descriptor(unread(bytes), name@, id@) {
                Ok((info, _)) => r matches Ok(found) && found@ == info,
                Err(fault) => r matches Err(e) && e@ == fault,
            },
    {
        proof {
            reveal(parse_descriptor_body);
        }
        let mut bytes = bytes;
        match Self::check_descriptor_header(&mut bytes, &id) {
            Ok(()) => {},
            Err(e) => {
                return Err(e);
            },
        }
        let (version, min_version, doc_count, is_compound_file) = match Self::get_counts(
            &mut bytes,
        ) {
            Ok(counts) => counts,
            Err(e) => {
                return Err(e);
            },
        };
        match Self::get_tables(&mut bytes) {
            Ok((diagnostics, files, attributes, sort_fields)) => Ok(
                SegmentInfo {
                    name,
                    id,
                    version,
                    min_version,
                    doc_count,
                    is_compound_file,
                    diagnostics,
                    files,
                    attributes,
                    sort_fields,
                },
            ),
            Err(e) => Err(SegmentInfoReadError::from(e)),
        }
    }

    /// Reads the versions and counts of a descriptor.
    fn get_counts(bytes: &mut Bytes) -> (r: Result<
        (Version, Option<Version>, u32, bool),
        SegmentInfoReadError,
    >)
        ensures
            match parse_counts(unread(*old(bytes))) {
                Ok((counts, rest)) => r matches Ok(found) && found == counts && unread(
                    *final(bytes),
                ) == rest,
                Err(fault) => r matches Err(e) && e@ == fault,
            },
    {
        proof {
            reveal(parse_counts);
        }
        let version = match Self::get_version(bytes) {
            Ok(version) => version,
            Err(e) => {
                return Err(SegmentInfoReadError::from(e));
            },
        };
        let min_version = match Self::get_min_version(bytes) {
            Ok(min_version) => min_version,
            Err(e) => {
                return Err(e);
            },
        };
        let doc_count = match read_u32_le(bytes) {
            Ok(doc_count) => doc_count,
            Err(e) => {
                return Err(SegmentInfoReadError::from(e));
            },
        };
        match read_u8(bytes) {
            Ok(flag) => Ok((version, min_version, doc_count, flag != 0)),
            Err(e) => Err(SegmentInfoReadError::from(e)),
        }
    }

    /// Checks the header of a descriptor: codec and version, the identifier
    /// `id`, and an empty suffix.
    fn check_descriptor_header(bytes: &mut Bytes, id: &Vec<u8>) -> (r: Result<
        (),
        SegmentInfoReadError,
    >)
        ensures
            match parse_descriptor_header(unread(*old(bytes)), id@) {
                Ok((_, rest)) => r is Ok && unread(*final(bytes)) == rest,
                Err(fault) => r matches Err(e) && e@ == fault,
            },
    {
        proof {
            reveal(parse_descriptor_header);
        }
        match check_header(bytes, Self::CODEC, Self::VERSION_START, Self::VERSION_CURRENT) {
            Ok(_) => {},
            Err(e) => {
                return Err(SegmentInfoReadError::from(e));
            },
        }
        match check_header_id(bytes, id) {
            Ok(_) => {},
            Err(e) => {
                return Err(SegmentInfoReadError::from(e));
            },
        }
        proof {
            reveal_strlit("");
            assert(""@ =~= Seq::<char>::empty());
        }
        match check_header_suffix(bytes, "") {
            Ok(_) => Ok(()),
            Err(e) => Err(SegmentInfoReadError::from(e)),
        }
    }

    /// Reads the four tables that close a descriptor.
    fn get_tables(bytes: &mut Bytes) -> (r: Result<
        (StringMap<String>, StringSet, StringMap<String>, Vec<String>),
        ReadError,
    >)
        ensures
            match parse_tables(unread(*old(bytes))) {
                Ok((tables, _)) => r matches Ok(found) && found.0@ == tables.0 && found.1@
                    == tables.1 && found.2@ == tables.2 && texts(found.3@) == tables.3,
                Err(e) => r matches Err(x) && x == e,
            },
    {
        proof {
            reveal(parse_tables);
        }
        let diagnostics = read_map(bytes)?;
        let files = read_set(bytes)?;
        let attributes = read_map(bytes)?;
        let sort_fields = read_vec(bytes)?;
        Ok((diagnostics, files, attributes, sort_fields))
    }

    /// Reads a version: three little-endian `u32`.
    fn get_version(bytes: &mut Bytes) -> (r: Result<Version, ReadError>)
        ensures
            match parse_version(unread(*old(bytes))) {
                Ok((version, rest)) => r == Ok::<Version, ReadError>(version) && unread(
                    *final(bytes),
                ) == rest,
                Err(e) => r == Err::<Version, ReadError>(e),
            },
    {
        proof {
            reveal(parse_version);
        }
        let major = read_u32_le(bytes)?;
        let minor = read_u32_le(bytes)?;
        let bugfix = read_u32_le(bytes)?;
        Ok((major, minor, bugfix))
    }

    /// Reads the flag that says whether a minimum version follows, and the
    /// version if it does.
    fn get_min_version(bytes: &mut Bytes) -> (r: Result<Option<Version>, SegmentInfoReadError>)
        ensures
            match parse_min_version(unread(*old(bytes))) {
                Ok((min_version, rest)) => r matches Ok(v) && v == min_version && unread(
                    *final(bytes),
                ) == rest,
                Err(fault) => r matches Err(e) && e@ == fault,
            },
    {
        proof {
            reveal(parse_min_version);
        }
        let has_min_version = match read_u8(bytes) {
            Ok(flag) => flag,
            Err(e) => {
                return Err(SegmentInfoReadError::from(e));
            },
        };
        if has_min_version == 0 {
            Ok(None)
        } else if has_min_version == 1 {
            match Self::get_version(bytes) {
                Ok(version) => Ok(Some(version)),
                Err(e) => Err(SegmentInfoReadError::from(e)),
            }
        } else {
            Err(SegmentInfoReadError::CorruptSegment(has_min_version))
        }
    }
}

} // verus!
