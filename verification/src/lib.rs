//! Decoder for the commit metadata of a segmented, append-only search index.
//!
//! A commit is one file, `segments` or `segments_N`, that lists the segments
//! of one committed state of the index. Each segment has a descriptor file of
//! its own, `<segment>.si`. [`SegmentInfos::read_commit`] decodes a commit and
//! the descriptors it names from a [`directory_reader::DirectoryReader`], and
//! [`get_last_commit_generation`] finds the newest commit in a listing of file
//! names.
//!
//! Every decoder is verified against a `parse_*` function that says, in terms
//! of byte sequences, what the record is that it decodes. The bytes themselves
//! are read through the `bytes` crate, whose part is stated in [`cursor`].

pub mod collections;
pub mod commit;
pub mod cursor;
pub mod decimal;
pub mod directory_reader;
pub mod header;
pub mod laws;
pub mod segment_info;
pub mod util;

pub use crate::commit::{SegmentInfos, SegmentInfosView, SegmentReadError, TRAILER_LENGTH};

use crate::collections::texts;
use crate::decimal::{
    decimal_digits, decimal_number, lemma_digits_stand_for_their_number, parse_decimal,
    push_decimal,
};
use vstd::prelude::*;
use vstd::string::StrSliceExecFns;
use vstd::string::StringExecFns;

verus! {

/// Name of the commit file of generation 0, and the start of the name of
/// every other.
pub const SEGMENT_FILE_NAME: &'static str = "segments";

/// Codec name in the header of a commit file.
pub const SEGMENTS_CODEC: &'static str = "segments";

/// A file name that starts like a commit file's and is none.
#[derive(Debug, Clone, Copy, PartialEq, Eq)]
pub struct CorruptFileName;

/// Whether `name` starts with the name that all commit files start with.
pub open spec fn is_commit_file_name(name: Seq<char>) -> bool {
    SEGMENT_FILE_NAME@.is_prefix_of(name)
}

/// The generation that a commit file's name states: 0 for the bare name, and
/// for the bare name followed by `_` and a decimal number, that number.
pub open spec fn generation_of(name: Seq<char>) -> Result<u32, CorruptFileName> {
    if name == SEGMENT_FILE_NAME@ {
        Ok(0)
    } else if SEGMENT_FILE_NAME@.push('_').is_prefix_of(name) {
        match decimal_number(name.skip(SEGMENT_FILE_NAME@.len() as int + 1)) {
            Some(generation) => Ok(generation),
            None => Err(CorruptFileName),
        }
    } else {
        Err(CorruptFileName)
    }
}

/// The name of the commit file of `generation`.
pub open spec fn segment_file_name(generation: u32) -> Seq<char> {
    if generation == 0 {
        SEGMENT_FILE_NAME@
    } else {
        SEGMENT_FILE_NAME@.push('_') + decimal_digits(generation as nat)
    }
}

/// The suffix in the header of the commit file of `generation`: nothing for
/// generation 0, else the generation in decimal.
pub open spec fn generation_suffix(generation: u32) -> Seq<char> {
    if generation == 0 {
        Seq::empty()
    } else {
        decimal_digits(generation as nat)
    }
}

/// The name written for a generation is the name of a commit file, and the
/// generation it states is the one it was written for.
pub proof fn lemma_file_name_states_its_generation(generation: u32)
    ensures
        is_commit_file_name(segment_file_name(generation)),
        generation_of(segment_file_name(generation)) == Ok::<u32, CorruptFileName>(generation),
{
    reveal_strlit("segments");
    if generation != 0 {
        lemma_digits_stand_for_their_number(generation as nat);
        assert(segment_file_name(generation).skip(9) =~= decimal_digits(generation as nat));
    }
}

/// Whether `text` starts with `prefix`.
fn has_prefix(text: &str, prefix: &str) -> (found: bool)
    ensures
        found == prefix@.is_prefix_of(text@),
{
    let length = prefix.unicode_len();
    if text.unicode_len() < length {
        return false;
    }
    let mut i: usize = 0;
    while i < length
        invariant
            i <= length,
            length == prefix@.len(),
            length <= text@.len(),
            forall|j: int| 0 <= j < i ==> text@[j] == prefix@[j],
        decreases length - i,
    {
        if text.get_char(i) != prefix.get_char(i) {
            return false;
        }
        i = i + 1;
    }
    true
}

/// Whether one of `names` starts like a commit file's name and states no
/// generation.
pub open spec fn has_corrupt_name(names: Seq<Seq<char>>) -> bool {
    exists|i: int|
        0 <= i < names.len() && is_commit_file_name(#[trigger] names[i]) && generation_of(
            names[i],
        ) is Err
}

/// Whether none of `names` starts like a commit file's name.
pub open spec fn has_no_commit(names: Seq<Seq<char>>) -> bool {
    forall|i: int| 0 <= i < names.len() ==> !is_commit_file_name(#[trigger] names[i])
}

/// Whether `last` is the highest generation that a commit file among `names`
/// states.
pub open spec fn is_last_generation(names: Seq<Seq<char>>, last: u32) -> bool {
    &&& exists|i: int|
        0 <= i < names.len() && is_commit_file_name(#[trigger] names[i]) && generation_of(
            names[i],
        ) == Ok::<u32, CorruptFileName>(last)
    &&& forall|i: int|
        0 <= i < names.len() && is_commit_file_name(#[trigger] names[i]) ==> (generation_of(
            names[i],
        ) matches Ok(generation) && generation <= last)
}

/// Gets the last commit generation from a listing of file names: the highest
/// generation among the names that start like a commit file's, `None` where no
/// name does, and a fault where one of them states no generation.
pub fn get_last_commit_generation(file_names: &[String]) -> (r: Result<
    Option<u32>,
    CorruptFileName,
>)
    ensures
        r is Err <==> has_corrupt_name(texts(file_names@)),
        r matches Ok(None) ==> has_no_commit(texts(file_names@)),
        r matches Ok(Some(last)) ==> is_last_generation(texts(file_names@), last),
{
    let ghost names = texts(file_names@);
    let mut last: Option<u32> = None;
    let mut i: usize = 0;
    while i < file_names.len()
        invariant
            i <= file_names@.len(),
            names == texts(file_names@),
            !has_corrupt_name(names.take(i as int)),
            last is None ==> has_no_commit(names.take(i as int)),
            last matches Some(best) ==> is_last_generation(names.take(i as int), best),
        decreases file_names@.len() - i,
    {
        let name = file_names[i].as_str();
        let ghost seen = names.take(i as int);
        let ghost more = names.take(i + 1);
        proof {
            assert(more.drop_last() =~= seen);
            assert(more.last() == name@);
            assert(forall|j: int| 0 <= j < i ==> more[j] == seen[j]);
        }
        if has_prefix(name, SEGMENT_FILE_NAME) {
            let generation = match get_generation_from_segments_file_name(name) {
                Ok(generation) => generation,
                Err(e) => {
                    proof {
                        assert(is_commit_file_name(names[i as int]));
                    }
                    return Err(e);
                },
            };
            proof {
                assert(generation_of(more[i as int]) == Ok::<u32, CorruptFileName>(generation));
                if let Some(best) = last {
                    let j = choose|j: int|
                        0 <= j < seen.len() && is_commit_file_name(#[trigger] seen[j])
                            && generation_of(seen[j]) == Ok::<u32, CorruptFileName>(best);
                    assert(more[j] == seen[j]);
                }
            }
            last = match last {
                Some(best) => if best >= generation {
                    Some(best)
                } else {
                    Some(generation)
                },
                None => Some(generation),
            };
        } else {
            proof {
                if let Some(best) = last {
                    let j = choose|j: int|
                        0 <= j < seen.len() && is_commit_file_name(#[trigger] seen[j])
                            && generation_of(seen[j]) == Ok::<u32, CorruptFileName>(best);
                    assert(more[j] == seen[j]);
                }
            }
        }
        i = i + 1;
    }
    proof {
        assert(names.take(i as int) =~= names);
    }
    Ok(last)
}

/// The generation that the name of a commit file states.
pub fn get_generation_from_segments_file_name(segments_file_name: &str) -> (r: Result<
    u32,
    CorruptFileName,
>)
    ensures
        r == generation_of(segments_file_name@),
{
    proof {
        reveal_strlit("segments");
    }
    if !has_prefix(segments_file_name, SEGMENT_FILE_NAME) {
        assert(!SEGMENT_FILE_NAME@.push('_').is_prefix_of(segments_file_name@));
        return Err(CorruptFileName);
    }
    let length = segments_file_name.unicode_len();
    let base = SEGMENT_FILE_NAME.unicode_len();
    if length == base {
        assert(segments_file_name@ =~= SEGMENT_FILE_NAME@);
        return Ok(0);
    }
    if segments_file_name.get_char(base) != '_' {
        assert(!SEGMENT_FILE_NAME@.push('_').is_prefix_of(segments_file_name@)) by {
            if SEGMENT_FILE_NAME@.push('_').is_prefix_of(segments_file_name@) {
                assert(SEGMENT_FILE_NAME@.push('_')[8] == segments_file_name@[8]);
            }
        }
        return Err(CorruptFileName);
    }
    match parse_decimal(segments_file_name, base + 1) {
        Some(generation) => Ok(generation),
        None => Err(CorruptFileName),
    }
}

/// The name of the commit file of generation `gen`.
pub fn get_segment_file_name(gen: u32) -> (name: String)
    ensures
        name@ == segment_file_name(gen),
{
    let mut name = String::from_str(SEGMENT_FILE_NAME);
    if gen != 0 {
        proof {
            reveal_strlit("_");
        }
        name.append("_");
        push_decimal(&mut name, gen);
    }
    name
}

} // verus!
