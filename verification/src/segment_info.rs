//! The records that a commit is made of: what a segment is, and what one
//! commit says about it.

use crate::collections::{texts, StringMap, StringSet};
use std::collections::HashMap;
use vstd::prelude::*;

pub mod format;

verus! {

/// A version of the software that wrote a segment: major, minor, bugfix.
pub type Version = (u32, u32, u32);

/// One segment as its descriptor file states it.
#[derive(Debug)]
pub struct SegmentInfo {
    /// Name of the segment, unique within a commit.
    pub name: String,
    /// Identifier of the segment, [`crate::util::ID_LENGTH`] bytes.
    pub id: Vec<u8>,
    /// Version that wrote the segment.
    pub version: Version,
    /// Oldest version that contributed documents to the segment, if recorded.
    pub min_version: Option<Version>,
    /// Number of documents written into the segment, deleted ones included.
    pub doc_count: u32,
    /// Whether the segment's files are packed into one compound file.
    pub is_compound_file: bool,
    /// Free-form facts about how the segment was built.
    pub diagnostics: StringMap<String>,
    /// Names of the files that belong to the segment.
    pub files: StringSet,
    /// Attributes that the codec left with the segment.
    pub attributes: StringMap<String>,
    /// Names of the fields by which the segment's documents are sorted, most
    /// significant first.
    pub sort_fields: Vec<String>,
}

/// A [`SegmentInfo`] as a mathematical value.
#[verifier::ext_equal]
pub struct SegmentInfoView {
    pub name: Seq<char>,
    pub id: Seq<u8>,
    pub version: Version,
    pub min_version: Option<Version>,
    pub doc_count: u32,
    pub is_compound_file: bool,
    pub diagnostics: Map<Seq<char>, Seq<char>>,
    pub files: Set<Seq<char>>,
    pub attributes: Map<Seq<char>, Seq<char>>,
    pub sort_fields: Seq<Seq<char>>,
}

impl View for SegmentInfo {
    type V = SegmentInfoView;

    open spec fn view(&self) -> SegmentInfoView {
        SegmentInfoView {
            name: self.name@,
            id: self.id@,
            version: self.version,
            min_version: self.min_version,
            doc_count: self.doc_count,
            is_compound_file: self.is_compound_file,
            diagnostics: self.diagnostics@,
            files: self.files@,
            attributes: self.attributes@,
            sort_fields: texts(self.sort_fields@),
        }
    }
}

/// One segment as one commit sees it: the segment itself, and the deletions
/// and updates that the commit has recorded against it.
#[derive(Debug)]
pub struct SegmentCommitInfo {
    /// The segment.
    pub info: SegmentInfo,
    /// Number of documents deleted from the segment.
    pub del_count: u32,
    /// Number of documents soft-deleted from the segment.
    pub soft_del_count: u32,
    /// Generation of the deletions file, -1 where there is none yet.
    pub del_gen: i64,
    /// Generation of the field-infos file, -1 where there is none yet.
    pub field_infos_gen: i64,
    /// Generation of the doc-values updates, -1 where there are none yet.
    pub dv_gen: i64,
    /// Identifier of this commit of the segment. Only records newer than the
    /// oldest supported format carry one.
    pub sci_id: Option<Vec<u8>>,
    /// Names of the field-infos files written by updates.
    pub field_info_files: StringSet,
    /// Number of fields for which the record announces doc-values update
    /// files.
    pub num_dv_fields: u32,
    /// Doc-values update files by field number. The record's encoding of them
    /// is not decoded, so the map is empty whatever `num_dv_fields` says.
    pub dv_update_files: HashMap<u32, StringSet>,
}

/// A [`SegmentCommitInfo`] as a mathematical value.
#[verifier::ext_equal]
pub struct SegmentCommitInfoView {
    pub info: SegmentInfoView,
    pub del_count: u32,
    pub soft_del_count: u32,
    pub del_gen: i64,
    pub field_infos_gen: i64,
    pub dv_gen: i64,
    pub sci_id: Option<Seq<u8>>,
    pub field_info_files: Set<Seq<char>>,
    pub num_dv_fields: u32,
    pub dv_update_files: Map<u32, Set<Seq<char>>>,
}

/// The view of an optional identifier.
pub open spec fn id_view(id: Option<Vec<u8>>) -> Option<Seq<u8>> {
    match id {
        Some(id) => Some(id@),
        None => None,
    }
}

impl View for SegmentCommitInfo {
    type V = SegmentCommitInfoView;

    open spec fn view(&self) -> SegmentCommitInfoView {
        SegmentCommitInfoView {
            info: self.info@,
            del_count: self.del_count,
            soft_del_count: self.soft_del_count,
            del_gen: self.del_gen,
            field_infos_gen: self.field_infos_gen,
            dv_gen: self.dv_gen,
            sci_id: id_view(self.sci_id),
            field_info_files: self.field_info_files@,
            num_dv_fields: self.num_dv_fields,
            dv_update_files: self.dv_update_files@.map_values(|files: StringSet| files@),
        }
    }
}

impl SegmentCommitInfoView {
    /// The deletions that the commit records do not exceed the documents that
    /// the segment holds.
    pub open spec fn deletions_fit(self) -> bool {
        self.del_count + self.soft_del_count <= self.info.doc_count
    }
}

impl SegmentCommitInfo {
    /// Whether the deleted and soft-deleted documents together are no more
    /// than the documents of the segment. The decoder does not ask this of a
    /// record; a caller that wants it checked calls this.
    pub fn deletions_fit(&self) -> (fit: bool)
        ensures
            fit == self@.deletions_fit(),
    {
        self.del_count as u64 + self.soft_del_count as u64 <= self.info.doc_count as u64
    }
}

} // verus!
