//! Decoders of the per-segment descriptor file, one per file format.

use crate::directory_reader::DirectoryReader;
use crate::segment_info::format::lucene90::{
    descriptor_in, Lucene90SegmentInfoFormat, SegmentInfoReadError,
};
use crate::segment_info::SegmentInfo;
use vstd::prelude::*;

pub mod lucene90;

verus! {

/// A format of segment descriptors. A commit names a codec for each of its
/// segments, and the codec decides the format of the segment's descriptor.
#[derive(Debug, Clone, Copy, PartialEq, Eq, Structural)]
pub enum SegmentInfoFormat {
    /// The format decoded by [`Lucene90SegmentInfoFormat`].
    Lucene90,
}

impl SegmentInfoFormat {
    /// The descriptor format of the segments of the codec `codec_name`. There
    /// is one format, and the segments of every codec are read in it.
    pub fn for_codec(codec_name: &str) -> (format: Self)
        ensures
            format == SegmentInfoFormat::Lucene90,
    {
        SegmentInfoFormat::Lucene90
    }

    /// Reads the descriptor of the segment `name` with identifier `id` from
    /// its file in `directory_reader`, in this format.
    pub fn read(self, directory_reader: &DirectoryReader, name: String, id: Vec<u8>) -> (r:
        Result<SegmentInfo, SegmentInfoReadError>)
        ensures
            match descriptor_in(directory_reader@, name@, id@) {
                Ok(info) => r matches Ok(found) && found@ == info,
                Err(fault) => r matches Err(e) && e@ == fault,
            },
    {
        match self {
            SegmentInfoFormat::Lucene90 => Lucene90SegmentInfoFormat::read(
                directory_reader,
                name,
                id,
            ),
        }
    }
}

} // verus!
