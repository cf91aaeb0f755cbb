use lucene_utils::{
    get_generation_from_segments_file_name, get_last_commit_generation, get_segment_file_name,
    CorruptFileName, SegmentReadError, SEGMENTS_CODEC, SEGMENT_FILE_NAME,
};

fn names(list: &[&str]) -> Vec<String> {
    list.iter().map(|name| name.to_string()).collect()
}

#[test]
fn base_name_and_codec() {
    assert_eq!(SEGMENT_FILE_NAME, "segments");
    assert_eq!(SEGMENTS_CODEC, "segments");
}

#[test]
fn last_generation_is_the_highest() {
    let listing = names(&["segments", "segments_1", "segments_3", "other.txt"]);
    assert_eq!(get_last_commit_generation(&listing), Ok(Some(3)));
}

#[test]
fn last_generation_does_not_depend_on_order() {
    let listing = names(&["segments_3", "_0.si", "segments", "segments_10", "segments_9"]);
    assert_eq!(get_last_commit_generation(&listing), Ok(Some(10)));
    let listing = names(&["segments_10", "segments_9", "segments_3"]);
    assert_eq!(get_last_commit_generation(&listing), Ok(Some(10)));
}

#[test]
fn bare_name_is_generation_zero() {
    let listing = names(&["segments", "_0.si", "_0.cfs"]);
    assert_eq!(get_last_commit_generation(&listing), Ok(Some(0)));
}

#[test]
fn no_commit_is_not_a_fault() {
    assert_eq!(get_last_commit_generation(&[]), Ok(None));
    let listing = names(&["other.txt", "_0.si", "segment", "Segments_1", "write.lock"]);
    assert_eq!(get_last_commit_generation(&listing), Ok(None));
}

#[test]
fn a_name_that_starts_like_a_commit_and_is_none_is_a_fault() {
    for bad in ["segments_abc", "segments_", "segments.gen", "segmentsX", "segments_1x", "segments_-1"] {
        let listing = names(&["segments_1", bad, "segments_3"]);
        assert_eq!(get_last_commit_generation(&listing), Err(CorruptFileName), "{}", bad);
    }
}

#[test]
fn generation_from_file_name() {
    assert_eq!(get_generation_from_segments_file_name("segments"), Ok(0));
    assert_eq!(get_generation_from_segments_file_name("segments_1"), Ok(1));
    assert_eq!(get_generation_from_segments_file_name("segments_42"), Ok(42));
    assert_eq!(get_generation_from_segments_file_name("segments_0"), Ok(0));
    assert_eq!(get_generation_from_segments_file_name("segments_007"), Ok(7));
    assert_eq!(get_generation_from_segments_file_name("segments_4294967295"), Ok(u32::MAX));
}

#[test]
fn generation_from_malformed_file_name() {
    for bad in [
        "segments_",
        "segments_abc",
        "segments_1a",
        "segments_ 1",
        "segments_+1",
        "segments_-1",
        "segments_1_2",
        "segments_4294967296",
        "segments_99999999999999999999",
        "segments_١",
        "segmentsX",
        "segments1",
        "segments.gen",
        "segment",
        "Segments",
        "other.txt",
        "",
    ] {
        assert_eq!(get_generation_from_segments_file_name(bad), Err(CorruptFileName), "{:?}", bad);
    }
}

#[test]
fn file_name_of_a_generation() {
    assert_eq!(get_segment_file_name(0), "segments");
    assert_eq!(get_segment_file_name(1), "segments_1");
    assert_eq!(get_segment_file_name(9), "segments_9");
    assert_eq!(get_segment_file_name(10), "segments_10");
    assert_eq!(get_segment_file_name(1234567890), "segments_1234567890");
    assert_eq!(get_segment_file_name(u32::MAX), "segments_4294967295");
}

#[test]
fn file_name_and_generation_agree() {
    for generation in [0u32, 1, 9, 10, 99, 100, 65535, 1_000_000, u32::MAX] {
        let name = get_segment_file_name(generation);
        assert_eq!(get_generation_from_segments_file_name(&name), Ok(generation));
    }
}

#[test]
fn a_corrupt_file_name_is_a_corrupted_index() {
    assert_eq!(SegmentReadError::from(CorruptFileName), SegmentReadError::CorruptedIndex);
}
