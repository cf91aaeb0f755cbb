//! The commit file: its header, the versions and counters of the commit, and
//! one entry for each segment.
//!
//! A commit file is laid out as follows, integers big-endian unless said
//! otherwise:
//!
//! | part | encoding |
//! |---|---|
//! | magic number | `u32` |
//! | codec name, `segments` | length-prefixed string |
//! | format version, 9 or 10 | `u32` |
//! | identifier of the commit | 16 bytes |
//! | suffix, the generation in decimal | one byte of length, then text |
//! | version that wrote the commit | three varints |
//! | major version that created the index | one byte |
//! | version counter of the commit | `u64` |
//! | segment name counter | varint |
//! | number of segments | `u32` |
//! | oldest version among the segments | three varints |
//! | entries, one for each segment | see [`parse_entry`] |
//! | trailer with a checksum, not verified | 16 bytes, or none |

use crate::collections::StringSet;
use crate::decimal::push_decimal;
use crate::directory_reader::{DirectoryReader, IndexInput};
use crate::header::{
    lemma_codec_and_version_are_local, lemma_header_suffix_is_local, lemma_magic_is_local,
    lemma_spent_header_is_eof, parse_codec_and_version, parse_header_suffix, parse_magic,
    HeaderError, HeaderFault,
};
use crate::laws::{
    cut_reads, left_of, lemma_i64_be_is_local, lemma_id_is_local, lemma_map_is_local,
    lemma_set_is_local, lemma_string_is_local, lemma_u32_be_is_local, lemma_u64_be_is_local,
    lemma_u8_is_local, lemma_vint_is_local, lemma_vlong_is_local, taken,
};
use crate::segment_info::format::lucene90::{
    descriptor_in, SegmentInfoFault, SegmentInfoReadError,
};
use crate::segment_info::format::SegmentInfoFormat;
use crate::segment_info::{id_view, SegmentCommitInfo, SegmentCommitInfoView, Version};
use crate::util::{
    left_by, lemma_advanced_refl, lemma_advanced_trans, parse_i64_be, parse_id, parse_map,
    parse_set, parse_string, parse_u32_be, parse_u64_be, parse_u8, parse_vint, parse_vlong,
    read_i64_be, read_map, read_set, read_vlong, same_bytes, ReadError,
};
use crate::{
    generation_suffix, get_segment_file_name, segment_file_name, CorruptFileName, SEGMENTS_CODEC,
};
use std::collections::HashMap;
use vstd::prelude::*;
use vstd::std_specs::convert::FromSpecImpl;

verus! {

/// Length of the trailer that may close a commit file. It holds a checksum,
/// which is not verified.
pub const TRAILER_LENGTH: usize = 16;

/// A fault found while reading a commit.
#[derive(Debug, Clone, Copy, PartialEq, Eq, Structural)]
pub enum SegmentReadError {
    /// The file is of a format older than the oldest supported one, or does
    /// not open with the magic number at all.
    IndexFormatTooOld,
    /// The file is of a format newer than the newest supported one.
    IndexFormatTooNew,
    /// The file states what no commit can state.
    CorruptedIndex,
    /// A file ended before its record did.
    UnexpectedEof,
    /// A string is not valid UTF-8.
    InvalidEncoding,
    /// A varint does not end within the bytes its width allows.
    VarIntOverflow,
    /// The directory lacks the commit file, or the descriptor file of one of
    /// its segments.
    NotFound,
}

/// A fault of the cursor as a fault of the commit: the same fault, under the
/// same name.
pub open spec fn read_fault(e: ReadError) -> SegmentReadError {
    match e {
        ReadError::UnexpectedEof => SegmentReadError::UnexpectedEof,
        ReadError::InvalidEncoding => SegmentReadError::InvalidEncoding,
        ReadError::VarIntOverflow => SegmentReadError::VarIntOverflow,
    }
}

/// A fault of a header as a fault of the commit. A version out of range
/// keeps its direction, a wrong magic number counts as a format too old to
/// recognise, what the cursor reported keeps its name, and the rest is
/// corruption.
pub open spec fn header_fault(fault: HeaderFault) -> SegmentReadError {
    match fault {
        HeaderFault::VersionTooOld => SegmentReadError::IndexFormatTooOld,
        HeaderFault::VersionTooNew => SegmentReadError::IndexFormatTooNew,
        HeaderFault::MagicMismatch { .. } => SegmentReadError::IndexFormatTooOld,
        HeaderFault::UnexpectedEof => SegmentReadError::UnexpectedEof,
        HeaderFault::InvalidEncoding => SegmentReadError::InvalidEncoding,
        HeaderFault::VarIntOverflow => SegmentReadError::VarIntOverflow,
        _ => SegmentReadError::CorruptedIndex,
    }
}

/// A fault of a segment's descriptor as a fault of the commit.
pub open spec fn descriptor_fault(fault: SegmentInfoFault) -> SegmentReadError {
    match fault {
        SegmentInfoFault::Header(fault) => header_fault(fault),
        SegmentInfoFault::CorruptSegment(_) => SegmentReadError::CorruptedIndex,
        SegmentInfoFault::UnexpectedEof => SegmentReadError::UnexpectedEof,
        SegmentInfoFault::InvalidEncoding => SegmentReadError::InvalidEncoding,
        SegmentInfoFault::VarIntOverflow => SegmentReadError::VarIntOverflow,
        SegmentInfoFault::NotFound => SegmentReadError::NotFound,
    }
}

impl From<HeaderError> for SegmentReadError {
    fn from(value: HeaderError) -> (r: SegmentReadError) {
        match value {
            HeaderError::VersionTooOld => SegmentReadError::IndexFormatTooOld,
            HeaderError::VersionTooNew => SegmentReadError::IndexFormatTooNew,
            HeaderError::MagicMismatch { expected: _, actual: _ } => {
                SegmentReadError::IndexFormatTooOld
            },
            HeaderError::UnexpectedEof => SegmentReadError::UnexpectedEof,
            HeaderError::InvalidEncoding => SegmentReadError::InvalidEncoding,
            HeaderError::VarIntOverflow => SegmentReadError::VarIntOverflow,
            _ => SegmentReadError::CorruptedIndex,
        }
    }
}

impl FromSpecImpl<HeaderError> for SegmentReadError {
    open spec fn obeys_from_spec() -> bool {
        true
    }

    open spec fn from_spec(value: HeaderError) -> SegmentReadError {
        header_fault(value@)
    }
}

impl From<ReadError> for SegmentReadError {
    fn from(value: ReadError) -> (r: SegmentReadError) {
        match value {
            ReadError::UnexpectedEof => SegmentReadError::UnexpectedEof,
            ReadError::InvalidEncoding => SegmentReadError::InvalidEncoding,
            ReadError::VarIntOverflow => SegmentReadError::VarIntOverflow,
        }
    }
}

impl FromSpecImpl<ReadError> for SegmentReadError {
    open spec fn obeys_from_spec() -> bool {
        true
    }

    open spec fn from_spec(value: ReadError) -> SegmentReadError {
        read_fault(value)
    }
}

impl From<SegmentInfoReadError> for SegmentReadError {
    fn from(value: SegmentInfoReadError) -> (r: SegmentReadError) {
        match value {
            SegmentInfoReadError::Header(e) => SegmentReadError::from(e),
            SegmentInfoReadError::CorruptSegment(_) => SegmentReadError::CorruptedIndex,
            SegmentInfoReadError::UnexpectedEof => SegmentReadError::UnexpectedEof,
            SegmentInfoReadError::InvalidEncoding => SegmentReadError::InvalidEncoding,
            SegmentInfoReadError::VarIntOverflow => SegmentReadError::VarIntOverflow,
            SegmentInfoReadError::NotFound => SegmentReadError::NotFound,
        }
    }
}

impl FromSpecImpl<SegmentInfoReadError> for SegmentReadError {
    open spec fn obeys_from_spec() -> bool {
        true
    }

    open spec fn from_spec(value: SegmentInfoReadError) -> SegmentReadError {
        descriptor_fault(value@)
    }
}

impl From<CorruptFileName> for SegmentReadError {
    fn from(value: CorruptFileName) -> (r: SegmentReadError) {
        SegmentReadError::CorruptedIndex
    }
}

impl FromSpecImpl<CorruptFileName> for SegmentReadError {
    open spec fn obeys_from_spec() -> bool {
        true
    }

    open spec fn from_spec(value: CorruptFileName) -> SegmentReadError {
        SegmentReadError::CorruptedIndex
    }
}

/// One commit: the segments of one committed state of the index, and what the
/// commit says about the index as a whole.
#[derive(Debug)]
pub struct SegmentInfos {
    /// Counter that every commit raises.
    pub version: u64,
    /// Major version of the software that created the index.
    pub index_created_version: u8,
    /// Generation of the commit.
    pub generation: u32,
    /// Version of the software that wrote the commit.
    pub lucene_version: Version,
    /// Identifier of the commit, [`crate::util::ID_LENGTH`] bytes.
    pub id: Vec<u8>,
    /// Counter from which the names of new segments are made.
    pub counter: u64,
    /// Number of segments that the commit announces.
    pub num_segments: u32,
    /// Oldest version that wrote any of the segments.
    pub min_segment_lucene_version: Version,
    /// The segments, in the order in which the commit lists them.
    pub segments: Vec<SegmentCommitInfo>,
}

/// A [`SegmentInfos`] as a mathematical value.
#[verifier::ext_equal]
pub struct SegmentInfosView {
    pub version: u64,
    pub index_created_version: u8,
    pub generation: u32,
    pub lucene_version: Version,
    pub id: Seq<u8>,
    pub counter: u64,
    pub num_segments: u32,
    pub min_segment_lucene_version: Version,
    pub segments: Seq<SegmentCommitInfoView>,
}

/// The view of each entry of `entries`, in order.
pub open spec fn entry_views(entries: Seq<SegmentCommitInfo>) -> Seq<SegmentCommitInfoView> {
    Seq::new(entries.len(), |i: int| entries[i]@)
}

impl View for SegmentInfos {
    type V = SegmentInfosView;

    open spec fn view(&self) -> SegmentInfosView {
        SegmentInfosView {
            version: self.version,
            index_created_version: self.index_created_version,
            generation: self.generation,
            lucene_version: self.lucene_version,
            id: self.id@,
            counter: self.counter,
            num_segments: self.num_segments,
            min_segment_lucene_version: self.min_segment_lucene_version,
            segments: entry_views(self.segments@),
        }
    }
}

/// Whether two entries name different segments: neither the names nor the
/// identifiers are the same.
pub open spec fn are_distinct(a: SegmentCommitInfoView, b: SegmentCommitInfoView) -> bool {
    a.info.id != b.info.id && a.info.name != b.info.name
}

impl SegmentInfosView {
    /// What a commit owes beyond being decodable: it lists as many segments
    /// as it announces, no two of them share a name or an identifier, and none
    /// has more deletions than documents.
    pub open spec fn is_consistent(self) -> bool {
        &&& self.segments.len() == self.num_segments
        &&& forall|i: int, j: int|
            0 <= i < j < self.segments.len() ==> are_distinct(self.segments[i], self.segments[j])
        &&& forall|i: int|
            0 <= i < self.segments.len() ==> (#[trigger] self.segments[i]).deletions_fit()
    }
}

/// The header of the commit file of `generation`: magic number, codec
/// [`SEGMENTS_CODEC`] in a supported version, the identifier of the commit,
/// and the generation as suffix. Gives the version of the format and the
/// identifier.
#[verifier::opaque]
pub open spec fn parse_commit_header(s: Seq<u8>, generation: u32) -> Result<
    ((u32, Seq<u8>), Seq<u8>),
    SegmentReadError,
> {
    match parse_magic(s) {
        Err(fault) => Err(header_fault(fault)),
        Ok((_, after_magic)) => match parse_codec_and_version(
            after_magic,
            SEGMENTS_CODEC@,
            SegmentInfos::MIN_VERSION,
            SegmentInfos::CURRENT_VERSION,
        ) {
            Err(fault) => Err(header_fault(fault)),
            Ok((format_version, after_version)) => match parse_id(after_version) {
                Err(e) => Err(read_fault(e)),
                Ok((id, after_id)) => match parse_header_suffix(
                    after_id,
                    generation_suffix(generation),
                ) {
                    Err(fault) => Err(header_fault(fault)),
                    Ok((_, rest)) => Ok(((format_version, id), rest)),
                },
            },
        },
    }
}

/// A version as three varints: major, minor, bugfix.
#[verifier::opaque]
pub open spec fn parse_version(s: Seq<u8>) -> Result<(Version, Seq<u8>), ReadError> {
    match parse_vint(s) {
        Err(e) => Err(e),
        Ok((major, after_major)) => match parse_vint(after_major) {
            Err(e) => Err(e),
            Ok((minor, after_minor)) => match parse_vint(after_minor) {
                Err(e) => Err(e),
                Ok((bugfix, rest)) => Ok(((major, minor, bugfix), rest)),
            },
        },
    }
}

/// The version that wrote the commit, and one byte for the major version that
/// created the index. The first cannot be older than the second, and the
/// second cannot be older than the oldest supported format.
#[verifier::opaque]
pub open spec fn parse_provenance(s: Seq<u8>) -> Result<
    ((Version, u8), Seq<u8>),
    SegmentReadError,
> {
    match parse_version(s) {
        Err(e) => Err(read_fault(e)),
        Ok((lucene_version, after_version)) => match parse_u8(after_version) {
            Err(e) => Err(read_fault(e)),
            Ok((index_created_version, rest)) => if lucene_version.0 < index_created_version {
                Err(SegmentReadError::CorruptedIndex)
            } else if index_created_version < SegmentInfos::MIN_VERSION {
                Err(SegmentReadError::IndexFormatTooOld)
            } else {
                Ok(((lucene_version, index_created_version), rest))
            },
        },
    }
}

/// The counters of a commit: its version as a big-endian `u64`, the segment
/// name counter as a varint, the number of segments as a big-endian `u32`,
/// and the oldest version among the segments.
#[verifier::opaque]
pub open spec fn parse_counters(s: Seq<u8>) -> Result<
    ((u64, u64, u32, Version), Seq<u8>),
    ReadError,
> {
    match parse_u64_be(s) {
        Err(e) => Err(e),
        Ok((version, after_version)) => match parse_vlong(after_version) {
            Err(e) => Err(e),
            Ok((counter, after_counter)) => match parse_u32_be(after_counter) {
                Err(e) => Err(e),
                Ok((num_segments, after_count)) => match parse_version(after_count) {
                    Err(e) => Err(e),
                    Ok((min_version, rest)) => Ok(
                        ((version, counter, num_segments, min_version), rest),
                    ),
                },
            },
        },
    }
}

/// What opens the entry of a segment: its name, its identifier, and the name
/// of its codec. The codec's name chooses the format of the segment's
/// descriptor, and with one format to choose from it does not show in what is
/// decoded.
#[verifier::opaque]
pub open spec fn parse_entry_head(s: Seq<u8>) -> Result<
    ((Seq<char>, Seq<u8>), Seq<u8>),
    ReadError,
> {
    match parse_string(s) {
        Err(e) => Err(e),
        Ok((name, after_name)) => match parse_id(after_name) {
            Err(e) => Err(e),
            Ok((id, after_id)) => match parse_string(after_id) {
                Err(e) => Err(e),
                Ok((_, rest)) => Ok(((name, id), rest)),
            },
        },
    }
}

/// The deletion bookkeeping of an entry, all big-endian: deletion generation,
/// deletion count, field-infos generation, doc-values generation, and
/// soft-deletion count.
#[verifier::opaque]
pub open spec fn parse_deletions(s: Seq<u8>) -> Result<
    ((i64, u32, i64, i64, u32), Seq<u8>),
    ReadError,
> {
    match parse_i64_be(s) {
        Err(e) => Err(e),
        Ok((del_gen, after_del_gen)) => match parse_u32_be(after_del_gen) {
            Err(e) => Err(e),
            Ok((del_count, after_del_count)) => match parse_i64_be(after_del_count) {
                Err(e) => Err(e),
                Ok((field_infos_gen, after_fi_gen)) => match parse_i64_be(after_fi_gen) {
                    Err(e) => Err(e),
                    Ok((dv_gen, after_dv_gen)) => match parse_u32_be(after_dv_gen) {
                        Err(e) => Err(e),
                        Ok((soft_del_count, rest)) => Ok(
                            ((del_gen, del_count, field_infos_gen, dv_gen, soft_del_count), rest),
                        ),
                    },
                },
            },
        },
    }
}

/// The identifier that a commit gives to a segment. Formats up to
/// [`SegmentInfos::MIN_VERSION`] have none and spend no byte on it. Later ones
/// have a marker byte: 0 for none, 1 for an identifier that follows.
#[verifier::opaque]
pub open spec fn parse_commit_id(s: Seq<u8>, format_version: u32) -> Result<
    (Option<Seq<u8>>, Seq<u8>),
    SegmentReadError,
> {
    if format_version > SegmentInfos::MIN_VERSION {
        match parse_u8(s) {
            Err(e) => Err(read_fault(e)),
            Ok((marker, rest)) => if marker == 1 {
                match parse_id(rest) {
                    Err(e) => Err(read_fault(e)),
                    Ok((id, rest)) => Ok((Some(id), rest)),
                }
            } else if marker == 0 {
                Ok((None, rest))
            } else {
                Err(SegmentReadError::CorruptedIndex)
            },
        }
    } else {
        Ok((None, s))
    }
}

/// What closes an entry: the set of field-infos files, the number of fields
/// with doc-values updates as a big-endian `u32`, and a map of user data,
/// which is read and dropped.
#[verifier::opaque]
pub open spec fn parse_updates(s: Seq<u8>) -> Result<((Set<Seq<char>>, u32), Seq<u8>), ReadError> {
    match parse_set(s) {
        Err(e) => Err(e),
        Ok((field_info_files, after_files)) => match parse_u32_be(after_files) {
            Err(e) => Err(e),
            Ok((num_dv_fields, after_count)) => match parse_map(after_count) {
                Err(e) => Err(e),
                Ok((_, rest)) => Ok(((field_info_files, num_dv_fields), rest)),
            },
        },
    }
}

/// What a commit of format `format_version` records against a segment: all of
/// an entry that stands behind the segment's name, identifier and codec.
#[verifier::opaque]
pub open spec fn parse_overlay(s: Seq<u8>, format_version: u32) -> Result<
    (((i64, u32, i64, i64, u32), Option<Seq<u8>>, (Set<Seq<char>>, u32)), Seq<u8>),
    SegmentReadError,
> {
    match parse_deletions(s) {
        Err(e) => Err(read_fault(e)),
        Ok((deletions, after_deletions)) => match parse_commit_id(
            after_deletions,
            format_version,
        ) {
            Err(e) => Err(e),
            Ok((sci_id, after_id)) => match parse_updates(after_id) {
                Err(e) => Err(read_fault(e)),
                Ok((updates, rest)) => Ok(((deletions, sci_id, updates), rest)),
            },
        },
    }
}

/// One entry of a commit of format `format_version`: the segment, whose
/// descriptor is decoded from its own file in `directory`, and what the
/// commit records against it.
#[verifier::opaque]
pub open spec fn parse_entry(
    directory: Map<Seq<char>, Seq<u8>>,
    s: Seq<u8>,
    format_version: u32,
) -> Result<(SegmentCommitInfoView, Seq<u8>), SegmentReadError> {
    match parse_entry_head(s) {
        Err(e) => Err(read_fault(e)),
        Ok(((name, id), after_head)) => match descriptor_in(directory, name, id) {
            Err(fault) => Err(descriptor_fault(fault)),
            Ok(info) => match parse_overlay(after_head, format_version) {
                Err(e) => Err(e),
                Ok(((deletions, sci_id, updates), rest)) => Ok(
                    (
                        SegmentCommitInfoView {
                            info,
                            del_count: deletions.1,
                            soft_del_count: deletions.4,
                            del_gen: deletions.0,
                            field_infos_gen: deletions.2,
                            dv_gen: deletions.3,
                            sci_id,
                            field_info_files: updates.0,
                            num_dv_fields: updates.1,
                            dv_update_files: Map::empty(),
                        },
                        rest,
                    ),
                ),
            },
        },
    }
}

/// `count` entries, appended to `so_far` in the order in which they stand.
pub open spec fn parse_entries(
    directory: Map<Seq<char>, Seq<u8>>,
    s: Seq<u8>,
    format_version: u32,
    count: nat,
    so_far: Seq<SegmentCommitInfoView>,
) -> Result<(Seq<SegmentCommitInfoView>, Seq<u8>), SegmentReadError>
    decreases count,
{
    if count == 0 {
        Ok((so_far, s))
    } else {
        match parse_entry(directory, s, format_version) {
            Err(e) => Err(e),
            Ok((entry, rest)) => parse_entries(
                directory,
                rest,
                format_version,
                (count - 1) as nat,
                so_far.push(entry),
            ),
        }
    }
}

/// Whether `rest` can be what a commit file holds behind its last entry:
/// nothing, or a trailer of [`TRAILER_LENGTH`] bytes.
pub open spec fn is_commit_end(rest: Seq<u8>) -> bool {
    rest.len() == 0 || rest.len() == TRAILER_LENGTH
}

/// The commit of `generation`, decoded from the front of `s`, with the
/// descriptors of its segments taken from `directory`.
#[verifier::opaque]
pub open spec fn parse_commit_record(
    directory: Map<Seq<char>, Seq<u8>>,
    s: Seq<u8>,
    generation: u32,
) -> Result<(SegmentInfosView, Seq<u8>), SegmentReadError> {
    match parse_commit_header(s, generation) {
        Err(e) => Err(e),
        Ok(((format_version, id), after_header)) => match parse_provenance(after_header) {
            Err(e) => Err(e),
            Ok((provenance, after_provenance)) => match parse_counters(after_provenance) {
                Err(e) => Err(read_fault(e)),
                Ok((counters, after_counters)) => match parse_entries(
                    directory,
                    after_counters,
                    format_version,
                    counters.2 as nat,
                    Seq::empty(),
                ) {
                    Err(e) => Err(e),
                    Ok((segments, rest)) => Ok(
                        (
                            SegmentInfosView {
                                version: counters.0,
                                index_created_version: provenance.1,
                                generation,
                                lucene_version: provenance.0,
                                id,
                                counter: counters.1,
                                num_segments: counters.2,
                                min_segment_lucene_version: counters.3,
                                segments,
                            },
                            rest,
                        ),
                    ),
                },
            },
        },
    }
}

/// The commit of `generation`, decoded from the bytes `s` of its file, with
/// the descriptors of its segments taken from `directory`. Behind the commit
/// the file holds its trailer or nothing, or else it is corrupt.
pub open spec fn parse_commit(
    directory: Map<Seq<char>, Seq<u8>>,
    s: Seq<u8>,
    generation: u32,
) -> Result<SegmentInfosView, SegmentReadError> {
    match parse_commit_record(directory, s, generation) {
        Err(e) => Err(e),
        Ok((commit, rest)) => if is_commit_end(rest) {
            Ok(commit)
        } else {
            Err(SegmentReadError::CorruptedIndex)
        },
    }
}

/// The commit of `generation` in `directory`.
pub open spec fn commit_in(directory: Map<Seq<char>, Seq<u8>>, generation: u32) -> Result<
    SegmentInfosView,
    SegmentReadError,
> {
    if directory.contains_key(segment_file_name(generation)) {
        parse_commit(directory, directory[segment_file_name(generation)], generation)
    } else {
        Err(SegmentReadError::NotFound)
    }
}


proof fn lemma_commit_header_is_local(s: Seq<u8>, k: int, generation: u32)
    requires
        0 <= k <= s.len(),
    ensures
        cut_reads(
            parse_commit_header(s, generation),
            parse_commit_header(s.take(k), generation),
            s,
            k,
            SegmentReadError::UnexpectedEof,
        ),
{
    reveal(parse_commit_header);
    let low = SegmentInfos::MIN_VERSION;
    let high = SegmentInfos::CURRENT_VERSION;
    lemma_magic_is_local(s, k);
    if let Ok((_, after_magic)) = parse_magic(s) {
        lemma_codec_and_version_are_local(
            after_magic,
            left_of(k, s, after_magic),
            SEGMENTS_CODEC@,
            low,
            high,
        );
        if let Ok((_, after_version)) = parse_codec_and_version(
            after_magic,
            SEGMENTS_CODEC@,
            low,
            high,
        ) {
            lemma_advanced_trans(s, after_magic, after_version);
            lemma_id_is_local(after_version, left_of(k, s, after_version));
            if let Ok((_, after_id)) = parse_id(after_version) {
                lemma_advanced_trans(s, after_version, after_id);
                lemma_header_suffix_is_local(
                    after_id,
                    left_of(k, s, after_id),
                    generation_suffix(generation),
                );
                if let Ok((_, rest)) = parse_header_suffix(
                    after_id,
                    generation_suffix(generation),
                ) {
                    lemma_advanced_trans(s, after_id, rest);
                }
            }
        }
    }
}

proof fn lemma_version_is_local(s: Seq<u8>, k: int)
    requires
        0 <= k <= s.len(),
    ensures
        cut_reads(parse_version(s), parse_version(s.take(k)), s, k, ReadError::UnexpectedEof),
{
    reveal(parse_version);
    lemma_vint_is_local(s, k);
    if let Ok((_, after_major)) = parse_vint(s) {
        lemma_vint_is_local(after_major, left_of(k, s, after_major));
        if let Ok((_, after_minor)) = parse_vint(after_major) {
            lemma_advanced_trans(s, after_major, after_minor);
            lemma_vint_is_local(after_minor, left_of(k, s, after_minor));
            if let Ok((_, rest)) = parse_vint(after_minor) {
                lemma_advanced_trans(s, after_minor, rest);
            }
        }
    }
}

proof fn lemma_provenance_is_local(s: Seq<u8>, k: int)
    requires
        0 <= k <= s.len(),
    ensures
        cut_reads(
            parse_provenance(s),
            parse_provenance(s.take(k)),
            s,
            k,
            SegmentReadError::UnexpectedEof,
        ),
{
    reveal(parse_provenance);
    lemma_version_is_local(s, k);
    if let Ok((_, after_version)) = parse_version(s) {
        lemma_u8_is_local(after_version, left_of(k, s, after_version));
        if let Ok((_, rest)) = parse_u8(after_version) {
            lemma_advanced_trans(s, after_version, rest);
        }
    }
}

proof fn lemma_counters_are_local(s: Seq<u8>, k: int)
    requires
        0 <= k <= s.len(),
    ensures
        cut_reads(parse_counters(s), parse_counters(s.take(k)), s, k, ReadError::UnexpectedEof),
{
    reveal(parse_counters);
    lemma_u64_be_is_local(s, k);
    if let Ok((_, after_version)) = parse_u64_be(s) {
        lemma_vlong_is_local(after_version, left_of(k, s, after_version));
        if let Ok((_, after_counter)) = parse_vlong(after_version) {
            lemma_advanced_trans(s, after_version, after_counter);
            lemma_u32_be_is_local(after_counter, left_of(k, s, after_counter));
            if let Ok((_, after_count)) = parse_u32_be(after_counter) {
                lemma_advanced_trans(s, after_counter, after_count);
                lemma_version_is_local(after_count, left_of(k, s, after_count));
                if let Ok((_, rest)) = parse_version(after_count) {
                    lemma_advanced_trans(s, after_count, rest);
                }
            }
        }
    }
}

proof fn lemma_entry_head_is_local(s: Seq<u8>, k: int)
    requires
        0 <= k <= s.len(),
    ensures
        cut_reads(
            parse_entry_head(s),
            parse_entry_head(s.take(k)),
            s,
            k,
            ReadError::UnexpectedEof,
        ),
{
    reveal(parse_entry_head);
    lemma_string_is_local(s, k);
    if let Ok((_, after_name)) = parse_string(s) {
        lemma_id_is_local(after_name, left_of(k, s, after_name));
        if let Ok((_, after_id)) = parse_id(after_name) {
            lemma_advanced_trans(s, after_name, after_id);
            lemma_string_is_local(after_id, left_of(k, s, after_id));
            if let Ok((_, rest)) = parse_string(after_id) {
                lemma_advanced_trans(s, after_id, rest);
            }
        }
    }
}

proof fn lemma_deletions_are_local(s: Seq<u8>, k: int)
    requires
        0 <= k <= s.len(),
    ensures
        cut_reads(parse_deletions(s), parse_deletions(s.take(k)), s, k, ReadError::UnexpectedEof),
{
    reveal(parse_deletions);
    lemma_i64_be_is_local(s, k);
    if let Ok((_, after_del_gen)) = parse_i64_be(s) {
        lemma_u32_be_is_local(after_del_gen, left_of(k, s, after_del_gen));
        if let Ok((_, after_del_count)) = parse_u32_be(after_del_gen) {
            lemma_advanced_trans(s, after_del_gen, after_del_count);
            lemma_i64_be_is_local(after_del_count, left_of(k, s, after_del_count));
            if let Ok((_, after_fi_gen)) = parse_i64_be(after_del_count) {
                lemma_advanced_trans(s, after_del_count, after_fi_gen);
                lemma_i64_be_is_local(after_fi_gen, left_of(k, s, after_fi_gen));
                if let Ok((_, after_dv_gen)) = parse_i64_be(after_fi_gen) {
                    lemma_advanced_trans(s, after_fi_gen, after_dv_gen);
                    lemma_u32_be_is_local(after_dv_gen, left_of(k, s, after_dv_gen));
                    if let Ok((_, rest)) = parse_u32_be(after_dv_gen) {
                        lemma_advanced_trans(s, after_dv_gen, rest);
                    }
                }
            }
        }
    }
}

proof fn lemma_commit_id_is_local(s: Seq<u8>, k: int, format_version: u32)
    requires
        0 <= k <= s.len(),
    ensures
        cut_reads(
            parse_commit_id(s, format_version),
            parse_commit_id(s.take(k), format_version),
            s,
            k,
            SegmentReadError::UnexpectedEof,
        ),
{
    reveal(parse_commit_id);
    lemma_advanced_refl(s);
    lemma_u8_is_local(s, k);
    if format_version > SegmentInfos::MIN_VERSION {
        if let Ok((_, after_marker)) = parse_u8(s) {
            lemma_id_is_local(after_marker, left_of(k, s, after_marker));
            if let Ok((_, rest)) = parse_id(after_marker) {
                lemma_advanced_trans(s, after_marker, rest);
            }
        }
    }
}

proof fn lemma_updates_are_local(s: Seq<u8>, k: int)
    requires
        0 <= k <= s.len(),
    ensures
        cut_reads(parse_updates(s), parse_updates(s.take(k)), s, k, ReadError::UnexpectedEof),
{
    reveal(parse_updates);
    lemma_set_is_local(s, k);
    if let Ok((_, after_files)) = parse_set(s) {
        lemma_u32_be_is_local(after_files, left_of(k, s, after_files));
        if let Ok((_, after_count)) = parse_u32_be(after_files) {
            lemma_advanced_trans(s, after_files, after_count);
            lemma_map_is_local(after_count, left_of(k, s, after_count));
            if let Ok((_, rest)) = parse_map(after_count) {
                lemma_advanced_trans(s, after_count, rest);
            }
        }
    }
}

proof fn lemma_overlay_is_local(s: Seq<u8>, k: int, format_version: u32)
    requires
        0 <= k <= s.len(),
    ensures
        cut_reads(
            parse_overlay(s, format_version),
            parse_overlay(s.take(k), format_version),
            s,
            k,
            SegmentReadError::UnexpectedEof,
        ),
{
    reveal(parse_overlay);
    lemma_deletions_are_local(s, k);
    if let Ok((_, after_deletions)) = parse_deletions(s) {
        lemma_commit_id_is_local(
            after_deletions,
            left_of(k, s, after_deletions),
            format_version,
        );
        if let Ok((_, after_id)) = parse_commit_id(after_deletions, format_version) {
            lemma_advanced_trans(s, after_deletions, after_id);
            lemma_updates_are_local(after_id, left_of(k, s, after_id));
            if let Ok((_, rest)) = parse_updates(after_id) {
                lemma_advanced_trans(s, after_id, rest);
            }
        }
    }
}

proof fn lemma_entry_is_local(
    directory: Map<Seq<char>, Seq<u8>>,
    s: Seq<u8>,
    k: int,
    format_version: u32,
)
    requires
        0 <= k <= s.len(),
    ensures
        cut_reads(
            parse_entry(directory, s, format_version),
            parse_entry(directory, s.take(k), format_version),
            s,
            k,
            SegmentReadError::UnexpectedEof,
        ),
{
    reveal(parse_entry);
    lemma_entry_head_is_local(s, k);
    if let Ok((_, after_head)) = parse_entry_head(s) {
        lemma_overlay_is_local(after_head, left_of(k, s, after_head), format_version);
        if let Ok((_, rest)) = parse_overlay(after_head, format_version) {
            lemma_advanced_trans(s, after_head, rest);
        }
    }
}

proof fn lemma_entries_are_local(
    directory: Map<Seq<char>, Seq<u8>>,
    s: Seq<u8>,
    k: int,
    format_version: u32,
    count: nat,
    so_far: Seq<SegmentCommitInfoView>,
)
    requires
        0 <= k <= s.len(),
    ensures
        cut_reads(
            parse_entries(directory, s, format_version, count, so_far),
            parse_entries(directory, s.take(k), format_version, count, so_far),
            s,
            k,
            SegmentReadError::UnexpectedEof,
        ),
    decreases count,
{
    if count == 0 {
        lemma_advanced_refl(s);
    } else {
        lemma_entry_is_local(directory, s, k, format_version);
        if let Ok((entry, after_entry)) = parse_entry(directory, s, format_version) {
            lemma_entries_are_local(
                directory,
                after_entry,
                left_of(k, s, after_entry),
                format_version,
                (count - 1) as nat,
                so_far.push(entry),
            );
            if let Ok((_, rest)) = parse_entries(
                directory,
                after_entry,
                format_version,
                (count - 1) as nat,
                so_far.push(entry),
            ) {
                lemma_advanced_trans(s, after_entry, rest);
            }
        }
    }
}

/// An empty file is no commit: it decodes to `UnexpectedEof`.
pub proof fn lemma_empty_commit_is_eof(directory: Map<Seq<char>, Seq<u8>>, generation: u32)
    ensures
        parse_commit(directory, Seq::empty(), generation) == Err::<
            SegmentInfosView,
            SegmentReadError,
        >(SegmentReadError::UnexpectedEof),
{
    reveal(parse_commit_record);
    reveal(parse_commit_header);
    lemma_spent_header_is_eof(
        SEGMENTS_CODEC@,
        SegmentInfos::MIN_VERSION,
        SegmentInfos::CURRENT_VERSION,
        Seq::empty(),
        generation_suffix(generation),
    );
}

/// A commit is decoded from the bytes it takes and from no others. Of a file
/// that holds a whole commit, every beginning that stops inside the commit
/// decodes to `UnexpectedEof`, and every beginning that holds all of it
/// decodes to the same commit.
pub proof fn lemma_commit_record_is_local(
    directory: Map<Seq<char>, Seq<u8>>,
    s: Seq<u8>,
    k: int,
    generation: u32,
)
    requires
        0 <= k <= s.len(),
    ensures
        cut_reads(
            parse_commit_record(directory, s, generation),
            parse_commit_record(directory, s.take(k), generation),
            s,
            k,
            SegmentReadError::UnexpectedEof,
        ),
{
    reveal(parse_commit_record);
    lemma_commit_header_is_local(s, k, generation);
    if let Ok(((format_version, _), after_header)) = parse_commit_header(s, generation) {
        lemma_provenance_is_local(after_header, left_of(k, s, after_header));
        if let Ok((_, after_provenance)) = parse_provenance(after_header) {
            lemma_advanced_trans(s, after_header, after_provenance);
            lemma_counters_are_local(after_provenance, left_of(k, s, after_provenance));
            if let Ok(((_, _, num_segments, _), after_counters)) = parse_counters(
                after_provenance,
            ) {
                lemma_advanced_trans(s, after_provenance, after_counters);
                lemma_entries_are_local(
                    directory,
                    after_counters,
                    left_of(k, s, after_counters),
                    format_version,
                    num_segments as nat,
                    Seq::empty(),
                );
                if let Ok((_, rest)) = parse_entries(
                    directory,
                    after_counters,
                    format_version,
                    num_segments as nat,
                    Seq::empty(),
                ) {
                    lemma_advanced_trans(s, after_counters, rest);
                }
            }
        }
    }
}

/// A commit file that stops inside its commit is never taken for a commit: it
/// decodes to `UnexpectedEof`.
pub proof fn lemma_commit_cut_short_is_eof(
    directory: Map<Seq<char>, Seq<u8>>,
    s: Seq<u8>,
    k: int,
    generation: u32,
)
    requires
        0 <= k < taken(parse_commit_record(directory, s, generation), s),
    ensures
        parse_commit(directory, s.take(k), generation) == Err::<
            SegmentInfosView,
            SegmentReadError,
        >(SegmentReadError::UnexpectedEof),
{
    lemma_commit_record_is_local(directory, s, k, generation);
}

proof fn lemma_entries_are_counted(
    directory: Map<Seq<char>, Seq<u8>>,
    s: Seq<u8>,
    format_version: u32,
    count: nat,
    so_far: Seq<SegmentCommitInfoView>,
)
    ensures
        parse_entries(directory, s, format_version, count, so_far) matches Ok((entries, _))
            ==> entries.len() == so_far.len() + count,
    decreases count,
{
    if count > 0 {
        if let Ok((entry, rest)) = parse_entry(directory, s, format_version) {
            lemma_entries_are_counted(
                directory,
                rest,
                format_version,
                (count - 1) as nat,
                so_far.push(entry),
            );
        }
    }
}

/// A commit that decodes is of the generation that was asked for and lists
/// as many segments as it announces.
pub proof fn lemma_commit_lists_what_it_announces(
    directory: Map<Seq<char>, Seq<u8>>,
    s: Seq<u8>,
    generation: u32,
)
    ensures
        parse_commit(directory, s, generation) matches Ok(commit) ==> commit.generation
            == generation && commit.segments.len() == commit.num_segments,
{
    reveal(parse_commit_record);
    if let Ok(((format_version, _), after_header)) = parse_commit_header(s, generation) {
        if let Ok((_, after_provenance)) = parse_provenance(after_header) {
            if let Ok(((_, _, num_segments, _), after_counters)) = parse_counters(
                after_provenance,
            ) {
                lemma_entries_are_counted(
                    directory,
                    after_counters,
                    format_version,
                    num_segments as nat,
                    Seq::empty(),
                );
            }
        }
    }
}

impl SegmentInfos {
    /// Oldest supported version of the commit file format.
    pub const MIN_VERSION: u32 = 9;

    /// Newest supported version of the commit file format.
    pub const CURRENT_VERSION: u32 = 10;

    /// Reads the commit of `generation` from `directory_reader`, together
    /// with the descriptor of every segment that it lists.
    pub fn read_commit(directory_reader: &DirectoryReader, generation: u32) -> (r: Result<
        Self,
        SegmentReadError,
    >)
        ensures
            match commit_in(directory_reader@, generation) {
                Ok(commit) => r matches Ok(found) && found@ == commit,
                Err(e) => r matches Err(x) && x == e,
            },
    {
        let file_name = get_segment_file_name(generation);
        match directory_reader.open(file_name.as_str()) {
            Some(index_input) => Self::decode(directory_reader, index_input, generation),
            None => Err(SegmentReadError::NotFound),
        }
    }

    /// Decodes the commit of `generation` from what `index_input` has not
    /// read yet, with the descriptors of its segments taken from
    /// `directory_reader`.
    pub fn decode(
        directory_reader: &DirectoryReader,
        index_input: IndexInput,
        generation: u32,
    ) -> (r: Result<Self, SegmentReadError>)
        ensures
            match parse_commit(directory_reader@, index_input@, generation) {
                Ok(commit) => r matches Ok(found) && found@ == commit,
                Err(e) => r matches Err(x) && x == e,
            },
    {
        proof {
            reveal(parse_commit_record);
        }
        let mut index_input = index_input;
        let (format_version, id) = match Self::read_commit_header(&mut index_input, generation) {
            Ok(header) => header,
            Err(e) => {
                return Err(e);
            },
        };
        let (lucene_version, index_created_version) = match Self::read_provenance(
            &mut index_input,
        ) {
            Ok(provenance) => provenance,
            Err(e) => {
                return Err(e);
            },
        };
        let (version, counter, num_segments, min_segment_lucene_version) =
            match Self::read_counters(&mut index_input) {
            Ok(counters) => counters,
            Err(e) => {
                return Err(SegmentReadError::from(e));
            },
        };
        let segments = match Self::read_entries(
            directory_reader,
            &mut index_input,
            format_version,
            num_segments,
        ) {
            Ok(segments) => segments,
            Err(e) => {
                return Err(e);
            },
        };
        let left = index_input.remaining();
        if left != 0 && left != TRAILER_LENGTH {
            return Err(SegmentReadError::CorruptedIndex);
        }
        Ok(
            SegmentInfos {
                version,
                index_created_version,
                generation,
                lucene_version,
                id,
                counter,
                num_segments,
                min_segment_lucene_version,
                segments,
            },
        )
    }

    /// Checks the header of the commit file of `generation` and returns the
    /// version of the format and the identifier of the commit.
    fn read_commit_header(index_input: &mut IndexInput, generation: u32) -> (r: Result<
        (u32, Vec<u8>),
        SegmentReadError,
    >)
        ensures
            match parse_commit_header(old(index_input)@, generation) {
                Ok(((format_version, id), rest)) => r matches Ok(header) && header.0
                    == format_version && header.1@ == id && final(index_input)@ == rest,
                Err(e) => r matches Err(x) && x == e,
            },
    {
        proof {
            reveal(parse_commit_header);
        }
        match crate::header::check_magic(&mut index_input.bytes) {
            Ok(_) => {},
            Err(e) => {
                return Err(SegmentReadError::from(e));
            },
        }
        let format_version = match Self::check_header(index_input) {
            Ok(format_version) => format_version,
            Err(e) => {
                return Err(e);
            },
        };
        let id = match index_input.read_id() {
            Ok(id) => id,
            Err(e) => {
                return Err(SegmentReadError::from(e));
            },
        };
        let mut suffix = String::new();
        if generation != 0 {
            push_decimal(&mut suffix, generation);
        }
        match Self::check_header_suffix(index_input, suffix.as_str()) {
            Ok(()) => Ok((format_version, id)),
            Err(e) => Err(e),
        }
    }

    /// Checks the codec name and the version of a commit file whose magic
    /// number has been checked, and returns the version.
    pub fn check_header(index_input: &mut IndexInput) -> (r: Result<u32, SegmentReadError>)
        ensures
            match parse_codec_and_version(
                old(index_input)@,
                SEGMENTS_CODEC@,
                Self::MIN_VERSION,
                Self::CURRENT_VERSION,
            ) {
                Ok((version, _)) => r == Ok::<u32, SegmentReadError>(version),
                Err(fault) => r == Err::<u32, SegmentReadError>(header_fault(fault)),
            },
            left_by(
                parse_codec_and_version(
                    old(index_input)@,
                    SEGMENTS_CODEC@,
                    Self::MIN_VERSION,
                    Self::CURRENT_VERSION,
                ),
                old(index_input)@,
                final(index_input)@,
            ),
    {
        match crate::header::check_header_no_magic(
            &mut index_input.bytes,
            SEGMENTS_CODEC,
            Self::MIN_VERSION,
            Self::CURRENT_VERSION,
        ) {
            Ok(version) => Ok(version),
            Err(e) => Err(SegmentReadError::from(e)),
        }
    }

    /// Checks that the suffix of the header is `expected`.
    pub fn check_header_suffix(index_input: &mut IndexInput, expected: &str) -> (r: Result<
        (),
        SegmentReadError,
    >)
        ensures
            match parse_header_suffix(old(index_input)@, expected@) {
                Ok(_) => r == Ok::<(), SegmentReadError>(()),
                Err(fault) => r == Err::<(), SegmentReadError>(header_fault(fault)),
            },
            left_by(
                parse_header_suffix(old(index_input)@, expected@),
                old(index_input)@,
                final(index_input)@,
            ),
    {
        match crate::header::check_header_suffix(&mut index_input.bytes, expected) {
            Ok(_) => Ok(()),
            Err(e) => Err(SegmentReadError::from(e)),
        }
    }

    /// Reads a version: three varints.
    fn read_version(index_input: &mut IndexInput) -> (r: Result<Version, ReadError>)
        ensures
            match parse_version(old(index_input)@) {
                Ok((version, rest)) => r == Ok::<Version, ReadError>(version) && final(
                    index_input
                )@ == rest,
                Err(e) => r == Err::<Version, ReadError>(e),
            },
    {
        proof {
            reveal(parse_version);
        }
        let major = index_input.read_variable_int()?;
        let minor = index_input.read_variable_int()?;
        let bugfix = index_input.read_variable_int()?;
        Ok((major, minor, bugfix))
    }

    /// Reads the version that wrote the commit and the major version that
    /// created the index, and checks the one against the other.
    fn read_provenance(index_input: &mut IndexInput) -> (r: Result<
        (Version, u8),
        SegmentReadError,
    >)
        ensures
            match parse_provenance(old(index_input)@) {
                Ok((provenance, rest)) => r == Ok::<(Version, u8), SegmentReadError>(provenance)
                    && final(index_input)@ == rest,
                Err(e) => r == Err::<(Version, u8), SegmentReadError>(e),
            },
    {
        proof {
            reveal(parse_provenance);
        }
        let lucene_version = match Self::read_version(index_input) {
            Ok(version) => version,
            Err(e) => {
                return Err(SegmentReadError::from(e));
            },
        };
        let index_created_version = match index_input.read_byte() {
            Ok(version) => version,
            Err(e) => {
                return Err(SegmentReadError::from(e));
            },
        };
        if lucene_version.0 < index_created_version as u32 {
            return Err(SegmentReadError::CorruptedIndex);
        }
        if (index_created_version as u32) < Self::MIN_VERSION {
            return Err(SegmentReadError::IndexFormatTooOld);
        }
        Ok((lucene_version, index_created_version))
    }

    /// Reads the counters of a commit.
    fn read_counters(index_input: &mut IndexInput) -> (r: Result<
        (u64, u64, u32, Version),
        ReadError,
    >)
        ensures
            match parse_counters(old(index_input)@) {
                Ok((counters, rest)) => r == Ok::<(u64, u64, u32, Version), ReadError>(counters)
                    && final(index_input)@ == rest,
                Err(e) => r == Err::<(u64, u64, u32, Version), ReadError>(e),
            },
    {
        proof {
            reveal(parse_counters);
        }
        let version = index_input.read_long()?;
        let counter = read_vlong(&mut index_input.bytes)?;
        let num_segments = index_input.read_int()?;
        let min_segment_lucene_version = Self::read_version(index_input)?;
        Ok((version, counter, num_segments, min_segment_lucene_version))
    }

    /// Reads `count` entries.
    fn read_entries(
        directory_reader: &DirectoryReader,
        index_input: &mut IndexInput,
        format_version: u32,
        count: u32,
    ) -> (r: Result<Vec<SegmentCommitInfo>, SegmentReadError>)
        ensures
            match parse_entries(
                directory_reader@,
                old(index_input)@,
                format_version,
                count as nat,
                Seq::empty(),
            ) {
                Ok((entries, rest)) => r matches Ok(found) && entry_views(found@) == entries
                    && final(index_input)@ == rest,
                Err(e) => r matches Err(x) && x == e,
            },
    {
        let mut segments: Vec<SegmentCommitInfo> = Vec::new();
        assert(entry_views(segments@) =~= Seq::<SegmentCommitInfoView>::empty());
        let mut done: u32 = 0;
        while done < count
            invariant
                done <= count,
                parse_entries(
                    directory_reader@,
                    old(index_input)@,
                    format_version,
                    count as nat,
                    Seq::empty(),
                ) == parse_entries(
                    directory_reader@,
                    index_input@,
                    format_version,
                    (count - done) as nat,
                    entry_views(segments@),
                ),
            decreases count - done,
        {
            let ghost before = entry_views(segments@);
            let entry = match Self::read_entry(directory_reader, index_input, format_version) {
                Ok(entry) => entry,
                Err(e) => {
                    return Err(e);
                },
            };
            segments.push(entry);
            proof {
                assert(entry_views(segments@) =~= before.push(entry@));
            }
            done = done + 1;
        }
        Ok(segments)
    }

    /// Reads one entry, and the descriptor of its segment from
    /// `directory_reader`.
    fn read_entry(
        directory_reader: &DirectoryReader,
        index_input: &mut IndexInput,
        format_version: u32,
    ) -> (r: Result<SegmentCommitInfo, SegmentReadError>)
        ensures
            match parse_entry(directory_reader@, old(index_input)@, format_version) {
                Ok((entry, rest)) => r matches Ok(found) && found@ == entry && final(
                    index_input
                )@ == rest,
                Err(e) => r matches Err(x) && x == e,
            },
    {
        proof {
            reveal(parse_entry);
            reveal(parse_overlay);
        }
        let (segment_name, segment_id, format) = match Self::read_entry_head(index_input) {
            Ok(head) => head,
            Err(e) => {
                return Err(SegmentReadError::from(e));
            },
        };
        let info = match format.read(directory_reader, segment_name, segment_id) {
            Ok(info) => info,
            Err(e) => {
                return Err(SegmentReadError::from(e));
            },
        };
        let (del_gen, del_count, field_infos_gen, dv_gen, soft_del_count) =
            match Self::read_deletions(index_input) {
            Ok(deletions) => deletions,
            Err(e) => {
                return Err(SegmentReadError::from(e));
            },
        };
        let sci_id = match Self::read_segment_commit_info_id(format_version, index_input) {
            Ok(sci_id) => sci_id,
            Err(e) => {
                return Err(e);
            },
        };
        let (field_info_files, num_dv_fields) = match Self::read_updates(index_input) {
            Ok(updates) => updates,
            Err(e) => {
                return Err(SegmentReadError::from(e));
            },
        };
        let dv_update_files: HashMap<u32, StringSet> = HashMap::new();
        let entry = SegmentCommitInfo {
            info,
            del_count,
            soft_del_count,
            del_gen,
            field_infos_gen,
            dv_gen,
            sci_id,
            field_info_files,
            num_dv_fields,
            dv_update_files,
        };
        Ok(entry)
    }

    /// Reads the name and the identifier of a segment and the name of its
    /// codec, and gives the first two and the descriptor format of the third.
    fn read_entry_head(index_input: &mut IndexInput) -> (r: Result<
        (String, Vec<u8>, SegmentInfoFormat),
        ReadError,
    >)
        ensures
            match parse_entry_head(old(index_input)@) {
                Ok(((name, id), rest)) => r matches Ok(head) && head.0@ == name && head.1@ == id
                    && final(index_input)@ == rest,
                Err(e) => r matches Err(x) && x == e,
            },
    {
        proof {
            reveal(parse_entry_head);
        }
        let segment_name = index_input.read_variable_string()?;
        let segment_id = index_input.read_id()?;
        let codec_name = index_input.read_variable_string()?;
        Ok((segment_name, segment_id, SegmentInfoFormat::for_codec(codec_name.as_str())))
    }

    /// Reads the deletion bookkeeping of an entry.
    fn read_deletions(index_input: &mut IndexInput) -> (r: Result<
        (i64, u32, i64, i64, u32),
        ReadError,
    >)
        ensures
            match parse_deletions(old(index_input)@) {
                Ok((deletions, rest)) => r == Ok::<(i64, u32, i64, i64, u32), ReadError>(
                    deletions,
                ) && final(index_input)@ == rest,
                Err(e) => r == Err::<(i64, u32, i64, i64, u32), ReadError>(e),
            },
    {
        proof {
            reveal(parse_deletions);
        }
        let del_gen = read_i64_be(&mut index_input.bytes)?;
        let del_count = index_input.read_int()?;
        let field_infos_gen = read_i64_be(&mut index_input.bytes)?;
        let dv_gen = read_i64_be(&mut index_input.bytes)?;
        let soft_del_count = index_input.read_int()?;
        Ok((del_gen, del_count, field_infos_gen, dv_gen, soft_del_count))
    }

    /// Reads the identifier that a commit of format `format_version` gives
    /// to a segment, if it gives one.
    pub fn read_segment_commit_info_id(format_version: u32, index_input: &mut IndexInput) -> (r:
        Result<Option<Vec<u8>>, SegmentReadError>)
        ensures
            match parse_commit_id(old(index_input)@, format_version) {
                Ok((id, _)) => r matches Ok(found) && id_view(found) == id,
                Err(e) => r matches Err(x) && x == e,
            },
            left_by(
                parse_commit_id(old(index_input)@, format_version),
                old(index_input)@,
                final(index_input)@,
            ),
    {
        proof {
            reveal(parse_commit_id);
        }
        proof {
            lemma_advanced_refl(index_input@);
        }
        if format_version > Self::MIN_VERSION {
            let marker = match index_input.read_byte() {
                Ok(marker) => marker,
                Err(e) => {
                    return Err(SegmentReadError::from(e));
                },
            };
            let ghost after_marker = index_input@;
            if marker == 1 {
                let id = index_input.read_id();
                proof {
                    lemma_advanced_trans(old(index_input)@, after_marker, index_input@);
                }
                match id {
                    Ok(id) => Ok(Some(id)),
                    Err(e) => Err(SegmentReadError::from(e)),
                }
            } else if marker == 0 {
                Ok(None)
            } else {
                Err(SegmentReadError::CorruptedIndex)
            }
        } else {
            Ok(None)
        }
    }

    /// Reads what closes an entry.
    fn read_updates(index_input: &mut IndexInput) -> (r: Result<(StringSet, u32), ReadError>)
        ensures
            match parse_updates(old(index_input)@) {
                Ok(((field_info_files, num_dv_fields), rest)) => r matches Ok(updates)
                    && updates.0@ == field_info_files && updates.1 == num_dv_fields && final(
                    index_input
                )@ == rest,
                Err(e) => r matches Err(x) && x == e,
            },
    {
        proof {
            reveal(parse_updates);
        }
        let field_info_files = read_set(&mut index_input.bytes)?;
        let num_dv_fields = index_input.read_int()?;
        let _user_data = read_map(&mut index_input.bytes)?;
        Ok((field_info_files, num_dv_fields))
    }

    /// Whether the commit is consistent: the validation that the decoder
    /// leaves to its caller.
    pub fn is_consistent(&self) -> (consistent: bool)
        ensures
            consistent == self@.is_consistent(),
    {
        let ghost views = entry_views(self.segments@);
        if self.segments.len() != self.num_segments as usize {
            return false;
        }
        let mut j: usize = 0;
        while j < self.segments.len()
            invariant
                j <= self.segments.len(),
                views == entry_views(self.segments@),
                forall|a: int, b: int| 0 <= a < b < j ==> are_distinct(views[a], views[b]),
                forall|a: int| 0 <= a < j ==> (#[trigger] views[a]).deletions_fit(),
            decreases self.segments.len() - j,
        {
            if !self.segments[j].deletions_fit() {
                assert(!views[j as int].deletions_fit());
                return false;
            }
            let mut i: usize = 0;
            while i < j
                invariant
                    i <= j < self.segments.len(),
                    views == entry_views(self.segments@),
                    forall|a: int| 0 <= a < i ==> are_distinct(views[a], views[j as int]),
                decreases j - i,
            {
                if same_bytes(&self.segments[i].info.id, &self.segments[j].info.id)
                    || self.segments[i].info.name == self.segments[j].info.name {
                    assert(!are_distinct(views[i as int], views[j as int]));
                    return false;
                }
                i = i + 1;
            }
            j = j + 1;
        }
        true
    }
}

} // verus!
