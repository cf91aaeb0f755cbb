use bytes::Bytes;
use lucene_utils::directory_reader::{DirectoryReader, IndexInput};
use lucene_utils::header::HeaderError;
use lucene_utils::segment_info::format::lucene90::{
    Lucene90SegmentInfoFormat, SegmentInfoReadError,
};
use lucene_utils::segment_info::format::SegmentInfoFormat;
use lucene_utils::util::ReadError;
use lucene_utils::{get_last_commit_generation, SegmentInfos, SegmentReadError};

const MAGIC: [u8; 4] = [0x3f, 0xd7, 0x6c, 0x17];

fn id(seed: u8) -> Vec<u8> {
    (0..16).map(|i| seed.wrapping_add(i)).collect()
}

fn put_string(out: &mut Vec<u8>, text: &str) {
    assert!(text.len() < 128);
    out.push(text.len() as u8);
    out.extend(text.as_bytes());
}

fn put_map(out: &mut Vec<u8>, entries: &[(&str, &str)]) {
    out.push(entries.len() as u8);
    for (key, value) in entries {
        put_string(out, key);
        put_string(out, value);
    }
}

fn put_list(out: &mut Vec<u8>, items: &[&str]) {
    out.push(items.len() as u8);
    for item in items {
        put_string(out, item);
    }
}

/// The header of a descriptor file: codec, version, identifier, empty suffix.
fn descriptor_header(codec: &str, version: u32, segment_id: &[u8]) -> Vec<u8> {
    let mut out = MAGIC.to_vec();
    put_string(&mut out, codec);
    out.extend(version.to_be_bytes());
    out.extend(segment_id);
    out.push(0);
    out
}

/// What stands behind the header of the descriptor used throughout.
fn descriptor_body() -> Vec<u8> {
    let mut out = Vec::new();
    for part in [9u32, 7, 1] {
        out.extend(part.to_le_bytes());
    }
    out.push(1);
    for part in [8u32, 11, 2] {
        out.extend(part.to_le_bytes());
    }
    out.extend(300u32.to_le_bytes());
    out.push(1);
    put_map(&mut out, &[("os", "linux"), ("source", "flush"), ("os", "mac")]);
    put_list(&mut out, &["_0.cfs", "_0.cfe", "_0.si", "_0.cfs"]);
    put_map(&mut out, &[("mode", "BEST_SPEED")]);
    put_list(&mut out, &["date", "title", "date"]);
    out
}

fn descriptor(segment_id: &[u8]) -> Vec<u8> {
    let mut out = descriptor_header("SegmentInfo", 0, segment_id);
    out.extend(descriptor_body());
    out
}

struct Entry<'a> {
    name: &'a str,
    id: Vec<u8>,
    del_gen: i64,
    del_count: u32,
    field_infos_gen: i64,
    dv_gen: i64,
    soft_del_count: u32,
    marker: Option<u8>,
    sci_id: Option<Vec<u8>>,
    field_info_files: Vec<&'a str>,
    num_dv_fields: u32,
}

fn entry(name: &str, seed: u8) -> Entry<'_> {
    Entry {
        name,
        id: id(seed),
        del_gen: -1,
        del_count: 0,
        field_infos_gen: -1,
        dv_gen: -1,
        soft_del_count: 0,
        marker: Some(0),
        sci_id: None,
        field_info_files: Vec::new(),
        num_dv_fields: 0,
    }
}

fn put_entry(out: &mut Vec<u8>, entry: &Entry) {
    put_string(out, entry.name);
    out.extend(&entry.id);
    put_string(out, "Lucene90");
    out.extend(entry.del_gen.to_be_bytes());
    out.extend(entry.del_count.to_be_bytes());
    out.extend(entry.field_infos_gen.to_be_bytes());
    out.extend(entry.dv_gen.to_be_bytes());
    out.extend(entry.soft_del_count.to_be_bytes());
    if let Some(marker) = entry.marker {
        out.push(marker);
    }
    if let Some(sci_id) = &entry.sci_id {
        out.extend(sci_id);
    }
    put_list(out, &entry.field_info_files);
    out.extend(entry.num_dv_fields.to_be_bytes());
    put_map(out, &[("user", "data")]);
}

/// What opens a commit file, up to and with the suffix.
fn commit_header(format_version: u32, suffix: &str) -> Vec<u8> {
    let mut out = MAGIC.to_vec();
    put_string(&mut out, "segments");
    out.extend(format_version.to_be_bytes());
    out.extend(id(0xC0));
    put_string(&mut out, suffix);
    out
}

/// The versions and counters that stand between header and entries.
fn commit_counters(num_segments: u32) -> Vec<u8> {
    let mut out = vec![9, 7, 1];
    out.push(9);
    out.extend(0x0102030405060708u64.to_be_bytes());
    out.extend([0x85, 0x01]);
    out.extend(num_segments.to_be_bytes());
    out.extend([8, 11, 2]);
    out
}

fn commit(format_version: u32, suffix: &str, entries: &[Entry], trailer: usize) -> Vec<u8> {
    let mut out = commit_header(format_version, suffix);
    out.extend(commit_counters(entries.len() as u32));
    for entry in entries {
        put_entry(&mut out, entry);
    }
    out.extend(std::iter::repeat(0xAA).take(trailer));
    out
}

/// A directory with the commit `file` under `name` and a descriptor for each
/// of the segments `_0` (identifier seed 0x10) and `_1` (seed 0x20).
fn directory(name: &str, file: Vec<u8>) -> DirectoryReader {
    let mut directory = DirectoryReader::new();
    directory.add_file(name.to_string(), file);
    directory.add_file("_0.si".to_string(), descriptor(&id(0x10)));
    directory.add_file("_1.si".to_string(), descriptor(&id(0x20)));
    directory
}

#[test]
fn descriptor_constants() {
    assert_eq!(Lucene90SegmentInfoFormat::SI_EXTENSION, "si");
    assert_eq!(Lucene90SegmentInfoFormat::CODEC, "SegmentInfo");
    assert_eq!(Lucene90SegmentInfoFormat::VERSION_START, 0);
    assert_eq!(Lucene90SegmentInfoFormat::VERSION_CURRENT, 0);
    assert_eq!(SegmentInfos::MIN_VERSION, 9);
    assert_eq!(SegmentInfos::CURRENT_VERSION, 10);
}

#[test]
fn descriptor_is_decoded_field_by_field() {
    let info = Lucene90SegmentInfoFormat::decode(
        Bytes::from(descriptor(&id(0x10))),
        "_0".to_string(),
        id(0x10),
    )
    .unwrap();
    assert_eq!(info.name, "_0");
    assert_eq!(info.id, id(0x10));
    assert_eq!(info.version, (9, 7, 1));
    assert_eq!(info.min_version, Some((8, 11, 2)));
    assert_eq!(info.doc_count, 300);
    assert!(info.is_compound_file);
    assert_eq!(info.diagnostics.len(), 2);
    assert_eq!(info.diagnostics.get("os"), Some(&"mac".to_string()));
    assert_eq!(info.diagnostics.get("source"), Some(&"flush".to_string()));
    assert_eq!(info.files.len(), 3);
    assert!(info.files.contains("_0.cfs"));
    assert!(info.files.contains("_0.cfe"));
    assert!(info.files.contains("_0.si"));
    assert_eq!(info.attributes.len(), 1);
    assert_eq!(info.attributes.get("mode"), Some(&"BEST_SPEED".to_string()));
    assert_eq!(info.sort_fields, vec!["date".to_string(), "title".to_string(), "date".to_string()]);
}

#[test]
fn descriptor_is_read_from_its_file() {
    let directory = directory("segments", Vec::new());
    let info = Lucene90SegmentInfoFormat::read(&directory, "_1".to_string(), id(0x20)).unwrap();
    assert_eq!(info.name, "_1");
    assert_eq!(info.id, id(0x20));
    assert_eq!(info.doc_count, 300);
}

#[test]
fn descriptor_without_file_is_not_found() {
    let directory = directory("segments", Vec::new());
    let r = Lucene90SegmentInfoFormat::read(&directory, "_2".to_string(), id(0x20));
    assert_eq!(r.unwrap_err(), SegmentInfoReadError::NotFound);
    let r = Lucene90SegmentInfoFormat::read(&directory, "_0.si".to_string(), id(0x10));
    assert_eq!(r.unwrap_err(), SegmentInfoReadError::NotFound);
}

#[test]
fn descriptor_without_min_version() {
    let mut file = descriptor_header("SegmentInfo", 0, &id(1));
    for part in [1u32, 2, 3] {
        file.extend(part.to_le_bytes());
    }
    file.push(0);
    file.extend(0x01020304u32.to_le_bytes());
    file.push(0);
    file.extend([0, 0, 0, 0]);
    let info =
        Lucene90SegmentInfoFormat::decode(Bytes::from(file), "_7".to_string(), id(1)).unwrap();
    assert_eq!(info.version, (1, 2, 3));
    assert_eq!(info.min_version, None);
    assert_eq!(info.doc_count, 0x01020304);
    assert!(!info.is_compound_file);
    assert!(info.diagnostics.is_empty());
    assert!(info.files.is_empty());
    assert!(info.attributes.is_empty());
    assert!(info.sort_fields.is_empty());
}

#[test]
fn compound_flag_is_set_by_any_byte_but_zero() {
    for (flag, expected) in [(0u8, false), (1, true), (2, true), (255, true)] {
        let mut file = descriptor_header("SegmentInfo", 0, &id(1));
        file.extend([0; 12]);
        file.push(0);
        file.extend([0; 4]);
        file.push(flag);
        file.extend([0, 0, 0, 0]);
        let info =
            Lucene90SegmentInfoFormat::decode(Bytes::from(file), "_0".to_string(), id(1)).unwrap();
        assert_eq!(info.is_compound_file, expected, "flag {}", flag);
    }
}

#[test]
fn min_version_flag_must_be_zero_or_one() {
    for flag in [2u8, 3, 0x80, 0xFF] {
        let mut file = descriptor_header("SegmentInfo", 0, &id(1));
        file.extend([0; 12]);
        file.push(flag);
        file.extend([0; 32]);
        let r = Lucene90SegmentInfoFormat::decode(Bytes::from(file), "_0".to_string(), id(1));
        assert_eq!(r.unwrap_err(), SegmentInfoReadError::CorruptSegment(flag));
    }
}

#[test]
fn descriptor_header_faults() {
    let decode = |file: Vec<u8>| {
        Lucene90SegmentInfoFormat::decode(Bytes::from(file), "_0".to_string(), id(1)).unwrap_err()
    };
    let mut file = descriptor(&id(1));
    file[0] = 0;
    assert_eq!(
        decode(file),
        SegmentInfoReadError::Header(HeaderError::MagicMismatch {
            expected: 0x3fd76c17,
            actual: 0x00d76c17
        })
    );

    let mut file = descriptor_header("Lucene90SegmentInfo", 0, &id(1));
    file.extend(descriptor_body());
    assert_eq!(
        decode(file),
        SegmentInfoReadError::Header(HeaderError::CodecMismatch {
            expected: "SegmentInfo".to_string(),
            actual: "Lucene90SegmentInfo".to_string()
        })
    );

    let mut file = descriptor_header("SegmentInfo", 1, &id(1));
    file.extend(descriptor_body());
    assert_eq!(decode(file), SegmentInfoReadError::Header(HeaderError::VersionTooNew));

    assert_eq!(decode(descriptor(&id(2))), SegmentInfoReadError::Header(HeaderError::BadHeaderId));

    let mut file = descriptor_header("SegmentInfo", 0, &id(1));
    let last = file.len() - 1;
    file[last] = 1;
    file.push(b'x');
    file.extend(descriptor_body());
    assert_eq!(decode(file), SegmentInfoReadError::Header(HeaderError::BadHeaderSuffix));

    let mut file = MAGIC.to_vec();
    file.extend([1, 0xFF]);
    assert_eq!(decode(file), SegmentInfoReadError::Header(HeaderError::MalformedCodecName));
}

#[test]
fn wrong_id_wins_over_wrong_suffix() {
    let mut file = descriptor_header("SegmentInfo", 0, &id(2));
    let last = file.len() - 1;
    file[last] = 1;
    file.push(b'x');
    let r = Lucene90SegmentInfoFormat::decode(Bytes::from(file), "_0".to_string(), id(1));
    assert_eq!(r.unwrap_err(), SegmentInfoReadError::Header(HeaderError::BadHeaderId));
}

#[test]
fn descriptor_cut_short_is_eof() {
    let whole = descriptor(&id(1));
    for cut in 0..whole.len() {
        let r = Lucene90SegmentInfoFormat::decode(
            Bytes::from(whole[..cut].to_vec()),
            "_0".to_string(),
            id(1),
        );
        assert_eq!(r.unwrap_err(), SegmentInfoReadError::UnexpectedEof, "cut at {}", cut);
    }
}

#[test]
fn descriptor_faults_of_the_cursor() {
    let mut file = descriptor_header("SegmentInfo", 0, &id(1));
    file.extend([0; 12]);
    file.push(0);
    file.extend([0; 5]);
    let mut bad_text = file.clone();
    bad_text.extend([1, 1, 0xFF]);
    let r = Lucene90SegmentInfoFormat::decode(Bytes::from(bad_text), "_0".to_string(), id(1));
    assert_eq!(r.unwrap_err(), SegmentInfoReadError::InvalidEncoding);
    let mut endless = file.clone();
    endless.extend([0xFF, 0xFF, 0xFF, 0xFF, 0xFF, 0xFF]);
    let r = Lucene90SegmentInfoFormat::decode(Bytes::from(endless), "_0".to_string(), id(1));
    assert_eq!(r.unwrap_err(), SegmentInfoReadError::VarIntOverflow);
}

#[test]
fn descriptor_faults_from_lower_levels() {
    assert_eq!(
        SegmentInfoReadError::from(ReadError::UnexpectedEof),
        SegmentInfoReadError::UnexpectedEof
    );
    assert_eq!(
        SegmentInfoReadError::from(ReadError::InvalidEncoding),
        SegmentInfoReadError::InvalidEncoding
    );
    assert_eq!(
        SegmentInfoReadError::from(ReadError::VarIntOverflow),
        SegmentInfoReadError::VarIntOverflow
    );
    assert_eq!(
        SegmentInfoReadError::from(HeaderError::UnexpectedEof),
        SegmentInfoReadError::UnexpectedEof
    );
    assert_eq!(
        SegmentInfoReadError::from(HeaderError::InvalidEncoding),
        SegmentInfoReadError::InvalidEncoding
    );
    assert_eq!(
        SegmentInfoReadError::from(HeaderError::VarIntOverflow),
        SegmentInfoReadError::VarIntOverflow
    );
    assert_eq!(
        SegmentInfoReadError::from(HeaderError::BadHeaderId),
        SegmentInfoReadError::Header(HeaderError::BadHeaderId)
    );
}

#[test]
fn single_segment_commit_end_to_end() {
    let listing = vec!["segments".to_string(), "_0.si".to_string(), "_0.cfs".to_string()];
    let generation = get_last_commit_generation(&listing).unwrap().unwrap();
    assert_eq!(generation, 0);

    let directory = directory("segments", commit(10, "", &[entry("_0", 0x10)], 16));
    let commit = SegmentInfos::read_commit(&directory, generation).unwrap();
    assert_eq!(commit.generation, 0);
    assert_eq!(commit.segments.len(), 1);
    assert_eq!(commit.segments[0].info.name, "_0");
}

#[test]
fn commit_is_decoded_field_by_field() {
    let mut first = entry("_0", 0x10);
    first.del_gen = 4;
    first.del_count = 17;
    first.field_infos_gen = -1;
    first.dv_gen = 0x0102030405;
    first.soft_del_count = 5;
    first.marker = Some(1);
    first.sci_id = Some(id(0x77));
    first.field_info_files = vec!["_0_1.fnm", "_0_2.fnm", "_0_1.fnm"];
    first.num_dv_fields = 3;
    let second = entry("_1", 0x20);
    let directory = directory("segments_12", commit(10, "12", &[first, second], 16));

    let commit = SegmentInfos::read_commit(&directory, 12).unwrap();
    assert_eq!(commit.generation, 12);
    assert_eq!(commit.id, id(0xC0));
    assert_eq!(commit.lucene_version, (9, 7, 1));
    assert_eq!(commit.index_created_version, 9);
    assert_eq!(commit.version, 0x0102030405060708);
    assert_eq!(commit.counter, 133);
    assert_eq!(commit.num_segments, 2);
    assert_eq!(commit.min_segment_lucene_version, (8, 11, 2));
    assert_eq!(commit.segments.len(), 2);

    let first = &commit.segments[0];
    assert_eq!(first.info.name, "_0");
    assert_eq!(first.info.id, id(0x10));
    assert_eq!(first.info.doc_count, 300);
    assert_eq!(first.info.min_version, Some((8, 11, 2)));
    assert_eq!(first.del_gen, 4);
    assert_eq!(first.del_count, 17);
    assert_eq!(first.field_infos_gen, -1);
    assert_eq!(first.dv_gen, 0x0102030405);
    assert_eq!(first.soft_del_count, 5);
    assert_eq!(first.sci_id, Some(id(0x77)));
    assert_eq!(first.field_info_files.len(), 2);
    assert!(first.field_info_files.contains("_0_1.fnm"));
    assert!(first.field_info_files.contains("_0_2.fnm"));
    assert_eq!(first.num_dv_fields, 3);
    assert!(first.dv_update_files.is_empty());
    assert!(first.deletions_fit());

    let second = &commit.segments[1];
    assert_eq!(second.info.name, "_1");
    assert_eq!(second.info.id, id(0x20));
    assert_eq!(second.del_gen, -1);
    assert_eq!(second.del_count, 0);
    assert_eq!(second.sci_id, None);
    assert!(second.field_info_files.is_empty());
    assert_eq!(second.num_dv_fields, 0);
    assert!(second.dv_update_files.is_empty());
}

#[test]
fn commit_of_the_oldest_format_has_no_marker_byte() {
    let mut old = entry("_0", 0x10);
    old.marker = None;
    let directory = directory("segments_1", commit(9, "1", &[old], 16));
    let commit = SegmentInfos::read_commit(&directory, 1).unwrap();
    assert_eq!(commit.segments.len(), 1);
    assert_eq!(commit.segments[0].sci_id, None);
    assert_eq!(commit.segments[0].info.name, "_0");
}

#[test]
fn commit_without_segments() {
    let directory = directory("segments", commit(10, "", &[], 16));
    let commit = SegmentInfos::read_commit(&directory, 0).unwrap();
    assert_eq!(commit.num_segments, 0);
    assert!(commit.segments.is_empty());
}

#[test]
fn commit_may_end_with_or_without_trailer() {
    for (trailer, good) in [(0usize, true), (16, true), (1, false), (15, false), (17, false), (32, false)] {
        let file = commit(10, "", &[entry("_0", 0x10)], trailer);
        let r = SegmentInfos::read_commit(&directory("segments", file), 0);
        if good {
            assert!(r.is_ok(), "trailer {}", trailer);
        } else {
            assert_eq!(r.unwrap_err(), SegmentReadError::CorruptedIndex, "trailer {}", trailer);
        }
    }
}

#[test]
fn commit_file_missing_is_not_found() {
    let directory = directory("segments_2", commit(10, "2", &[], 16));
    assert_eq!(SegmentInfos::read_commit(&directory, 3).unwrap_err(), SegmentReadError::NotFound);
    assert_eq!(SegmentInfos::read_commit(&directory, 0).unwrap_err(), SegmentReadError::NotFound);
}

#[test]
fn descriptor_file_missing_is_not_found() {
    let directory = directory("segments", commit(10, "", &[entry("_5", 0x10)], 16));
    assert_eq!(SegmentInfos::read_commit(&directory, 0).unwrap_err(), SegmentReadError::NotFound);
}

#[test]
fn commit_header_faults() {
    let read = |file: Vec<u8>, generation: u32| {
        let mut directory = directory("unused", Vec::new());
        directory.add_file(lucene_utils::get_segment_file_name(generation), file);
        SegmentInfos::read_commit(&directory, generation).unwrap_err()
    };
    let good = commit(10, "", &[entry("_0", 0x10)], 16);

    let mut file = good.clone();
    file[3] = 0;
    assert_eq!(read(file, 0), SegmentReadError::IndexFormatTooOld);

    let mut file = good.clone();
    file[5] = b'S';
    assert_eq!(read(file, 0), SegmentReadError::CorruptedIndex);

    assert_eq!(read(commit(8, "", &[], 16), 0), SegmentReadError::IndexFormatTooOld);
    assert_eq!(read(commit(11, "", &[], 16), 0), SegmentReadError::IndexFormatTooNew);

    assert_eq!(read(commit(10, "3", &[], 16), 4), SegmentReadError::CorruptedIndex);
    assert_eq!(read(commit(10, "", &[], 16), 4), SegmentReadError::CorruptedIndex);
    assert_eq!(read(commit(10, "0", &[], 16), 0), SegmentReadError::CorruptedIndex);
    assert!(SegmentInfos::read_commit(&directory("segments_4", commit(10, "4", &[], 16)), 4).is_ok());

    let mut file = MAGIC.to_vec();
    file.extend([1, 0xFF]);
    assert_eq!(read(file, 0), SegmentReadError::CorruptedIndex);
}

#[test]
fn commit_version_checks() {
    let read = |versions: [u8; 4]| {
        let mut file = commit_header(10, "");
        file.extend(versions);
        file.extend(commit_counters(0)[4..].to_vec());
        file.extend([0xAA; 16]);
        SegmentInfos::read_commit(&directory("segments", file), 0)
    };
    assert!(read([9, 0, 0, 9]).is_ok());
    assert!(read([10, 0, 0, 9]).is_ok());
    assert_eq!(read([9, 0, 0, 10]).unwrap_err(), SegmentReadError::CorruptedIndex);
    assert_eq!(read([8, 0, 0, 8]).unwrap_err(), SegmentReadError::IndexFormatTooOld);
    assert_eq!(read([9, 0, 0, 8]).unwrap_err(), SegmentReadError::IndexFormatTooOld);
    assert_eq!(read([7, 0, 0, 8]).unwrap_err(), SegmentReadError::CorruptedIndex);
    assert_eq!(read([0, 0, 0, 0]).unwrap_err(), SegmentReadError::IndexFormatTooOld);
}

#[test]
fn version_checks_come_before_any_segment() {
    let mut file = commit_header(10, "");
    file.extend([9, 0, 0, 10]);
    file.extend(commit_counters(1)[4..].to_vec());
    put_entry(&mut file, &entry("_missing", 0x10));
    let r = SegmentInfos::read_commit(&directory("segments", file), 0);
    assert_eq!(r.unwrap_err(), SegmentReadError::CorruptedIndex);
}

#[test]
fn commit_versions_are_varints() {
    let mut file = commit_header(10, "");
    file.extend([0x81, 0x01, 0x80, 0x01, 0x00]);
    file.push(9);
    file.extend(7u64.to_be_bytes());
    file.extend([0xFF, 0xFF, 0xFF, 0xFF, 0x1F]);
    file.extend(0u32.to_be_bytes());
    file.extend([0x82, 0x01, 3, 4]);
    let commit = SegmentInfos::read_commit(&directory("segments", file), 0).unwrap();
    assert_eq!(commit.lucene_version, (129, 128, 0));
    assert_eq!(commit.counter, 0x1_FFFF_FFFF);
    assert_eq!(commit.min_segment_lucene_version, (130, 3, 4));
    assert_eq!(commit.version, 7);
}

#[test]
fn bad_marker_byte_is_corruption() {
    for marker in [2u8, 3, 0xFF] {
        let mut bad = entry("_0", 0x10);
        bad.marker = Some(marker);
        let directory = directory("segments", commit(10, "", &[bad], 16));
        assert_eq!(
            SegmentInfos::read_commit(&directory, 0).unwrap_err(),
            SegmentReadError::CorruptedIndex
        );
    }
}

#[test]
fn faults_of_a_descriptor_surface_from_the_commit() {
    let read = |descriptor_file: Vec<u8>| {
        let mut directory = directory("segments", commit(10, "", &[entry("_0", 0x10)], 16));
        directory.add_file("_0.si".to_string(), descriptor_file);
        SegmentInfos::read_commit(&directory, 0).unwrap_err()
    };
    assert_eq!(read(descriptor(&id(0x11))), SegmentReadError::CorruptedIndex);
    assert_eq!(read(vec![0, 0, 0, 0]), SegmentReadError::IndexFormatTooOld);
    assert_eq!(read(Vec::new()), SegmentReadError::UnexpectedEof);
    let mut newer = descriptor_header("SegmentInfo", 1, &id(0x10));
    newer.extend(descriptor_body());
    assert_eq!(read(newer), SegmentReadError::IndexFormatTooNew);
    let mut flag = descriptor_header("SegmentInfo", 0, &id(0x10));
    flag.extend([0; 12]);
    flag.push(7);
    assert_eq!(read(flag), SegmentReadError::CorruptedIndex);
    let mut text = descriptor_header("SegmentInfo", 0, &id(0x10));
    text.extend([0; 18]);
    text.extend([1, 1, 0xFF]);
    assert_eq!(read(text), SegmentReadError::InvalidEncoding);
    let mut endless = descriptor_header("SegmentInfo", 0, &id(0x10));
    endless.extend([0; 18]);
    endless.extend([0xFF; 6]);
    assert_eq!(read(endless), SegmentReadError::VarIntOverflow);
}

#[test]
fn commit_cut_short_is_eof() {
    let whole = commit(10, "", &[entry("_0", 0x10), entry("_1", 0x20)], 0);
    for cut in 0..whole.len() {
        let r = SegmentInfos::read_commit(&directory("segments", whole[..cut].to_vec()), 0);
        assert_eq!(r.unwrap_err(), SegmentReadError::UnexpectedEof, "cut at {}", cut);
    }
}

#[test]
fn commit_faults_of_the_cursor() {
    let mut file = commit_header(10, "");
    file.extend([0xFF, 0xFF, 0xFF, 0xFF, 0xFF, 0x01]);
    let r = SegmentInfos::read_commit(&directory("segments", file), 0);
    assert_eq!(r.unwrap_err(), SegmentReadError::VarIntOverflow);

    let mut file = commit_header(10, "");
    file.extend(commit_counters(1));
    file.extend([2, 0xC3, 0x28]);
    let r = SegmentInfos::read_commit(&directory("segments", file), 0);
    assert_eq!(r.unwrap_err(), SegmentReadError::InvalidEncoding);
}

#[test]
fn commit_faults_from_lower_levels() {
    let from = |e: HeaderError| SegmentReadError::from(e);
    assert_eq!(from(HeaderError::VersionTooOld), SegmentReadError::IndexFormatTooOld);
    assert_eq!(from(HeaderError::VersionTooNew), SegmentReadError::IndexFormatTooNew);
    assert_eq!(
        from(HeaderError::MagicMismatch { expected: 1, actual: 2 }),
        SegmentReadError::IndexFormatTooOld
    );
    assert_eq!(
        from(HeaderError::CodecMismatch { expected: "a".to_string(), actual: "b".to_string() }),
        SegmentReadError::CorruptedIndex
    );
    assert_eq!(from(HeaderError::MalformedCodecName), SegmentReadError::CorruptedIndex);
    assert_eq!(from(HeaderError::BadHeaderId), SegmentReadError::CorruptedIndex);
    assert_eq!(from(HeaderError::BadHeaderSuffix), SegmentReadError::CorruptedIndex);
    assert_eq!(from(HeaderError::UnexpectedEof), SegmentReadError::UnexpectedEof);
    assert_eq!(from(HeaderError::InvalidEncoding), SegmentReadError::InvalidEncoding);
    assert_eq!(from(HeaderError::VarIntOverflow), SegmentReadError::VarIntOverflow);

    assert_eq!(SegmentReadError::from(ReadError::UnexpectedEof), SegmentReadError::UnexpectedEof);
    assert_eq!(
        SegmentReadError::from(ReadError::InvalidEncoding),
        SegmentReadError::InvalidEncoding
    );
    assert_eq!(SegmentReadError::from(ReadError::VarIntOverflow), SegmentReadError::VarIntOverflow);

    let from = |e: SegmentInfoReadError| SegmentReadError::from(e);
    assert_eq!(
        from(SegmentInfoReadError::Header(HeaderError::VersionTooNew)),
        SegmentReadError::IndexFormatTooNew
    );
    assert_eq!(
        from(SegmentInfoReadError::Header(HeaderError::BadHeaderId)),
        SegmentReadError::CorruptedIndex
    );
    assert_eq!(from(SegmentInfoReadError::CorruptSegment(5)), SegmentReadError::CorruptedIndex);
    assert_eq!(from(SegmentInfoReadError::UnexpectedEof), SegmentReadError::UnexpectedEof);
    assert_eq!(from(SegmentInfoReadError::InvalidEncoding), SegmentReadError::InvalidEncoding);
    assert_eq!(from(SegmentInfoReadError::VarIntOverflow), SegmentReadError::VarIntOverflow);
    assert_eq!(from(SegmentInfoReadError::NotFound), SegmentReadError::NotFound);
}

#[test]
fn commit_helpers_on_an_input() {
    let mut data = vec![8];
    data.extend(b"segments");
    data.extend(10u32.to_be_bytes());
    data.extend([1, b'7']);
    data.extend([1]);
    data.extend(id(5));
    data.extend([0, 9]);
    let mut input = IndexInput::new(data);
    assert_eq!(SegmentInfos::check_header(&mut input), Ok(10));
    assert_eq!(SegmentInfos::check_header_suffix(&mut input, "7"), Ok(()));
    assert_eq!(SegmentInfos::read_segment_commit_info_id(10, &mut input), Ok(Some(id(5))));
    assert_eq!(SegmentInfos::read_segment_commit_info_id(10, &mut input), Ok(None));
    assert_eq!(input.remaining(), 1);
    assert_eq!(SegmentInfos::read_segment_commit_info_id(9, &mut input), Ok(None));
    assert_eq!(input.remaining(), 1);
    assert_eq!(
        SegmentInfos::read_segment_commit_info_id(10, &mut input),
        Err(SegmentReadError::CorruptedIndex)
    );
    assert_eq!(
        SegmentInfos::read_segment_commit_info_id(10, &mut input),
        Err(SegmentReadError::UnexpectedEof)
    );
    assert_eq!(
        SegmentInfos::check_header_suffix(&mut input, ""),
        Err(SegmentReadError::UnexpectedEof)
    );
}

#[test]
fn commit_helpers_report_mismatches() {
    let mut data = vec![5];
    data.extend(b"other");
    data.extend(10u32.to_be_bytes());
    let mut input = IndexInput::new(data);
    assert_eq!(SegmentInfos::check_header(&mut input), Err(SegmentReadError::CorruptedIndex));
    let mut input = IndexInput::new(vec![1, b'7']);
    assert_eq!(
        SegmentInfos::check_header_suffix(&mut input, "8"),
        Err(SegmentReadError::CorruptedIndex)
    );
    let mut input = IndexInput::new(vec![1, 1, 2, 3]);
    assert_eq!(
        SegmentInfos::read_segment_commit_info_id(10, &mut input),
        Err(SegmentReadError::UnexpectedEof)
    );
}

#[test]
fn deletions_are_checked_against_the_document_count() {
    let mut within = entry("_0", 0x10);
    within.del_count = 100;
    within.soft_del_count = 200;
    let mut beyond = entry("_1", 0x20);
    beyond.del_count = 100;
    beyond.soft_del_count = 201;
    let mut huge = entry("_0", 0x10);
    huge.del_count = u32::MAX;
    huge.soft_del_count = u32::MAX;
    let directory = directory("segments", commit(10, "", &[within, beyond, huge], 16));
    let commit = SegmentInfos::read_commit(&directory, 0).unwrap();
    assert!(commit.segments[0].deletions_fit());
    assert!(!commit.segments[1].deletions_fit());
    assert!(!commit.segments[2].deletions_fit());
}

#[test]
fn a_well_formed_commit_is_consistent() {
    let mut first = entry("_0", 0x10);
    first.del_count = 100;
    first.soft_del_count = 200;
    let directory = directory("segments", commit(10, "", &[first, entry("_1", 0x20)], 16));
    let decoded = SegmentInfos::read_commit(&directory, 0).unwrap();
    assert!(decoded.is_consistent());

    let empty = commit(10, "", &[], 16);
    let mut other = DirectoryReader::new();
    other.add_file("segments".to_string(), empty);
    assert!(SegmentInfos::read_commit(&other, 0).unwrap().is_consistent());
}

#[test]
fn a_commit_that_repeats_a_segment_is_not_consistent() {
    let directory = directory("segments", commit(10, "", &[entry("_0", 0x10), entry("_0", 0x10)], 16));
    let commit = SegmentInfos::read_commit(&directory, 0).unwrap();
    assert_eq!(commit.segments.len(), 2);
    assert!(!commit.is_consistent());
}

#[test]
fn a_commit_that_repeats_an_identifier_is_not_consistent() {
    let mut directory =
        directory("segments", commit(10, "", &[entry("_0", 0x10), entry("_1", 0x10)], 16));
    directory.add_file("_1.si".to_string(), descriptor(&id(0x10)));
    let mut commit = SegmentInfos::read_commit(&directory, 0).unwrap();
    assert!(!commit.is_consistent());
    commit.segments[1].info.id = id(0x20);
    assert!(commit.is_consistent());
    commit.segments[1].info.name = "_0".to_string();
    assert!(!commit.is_consistent());
}

#[test]
fn a_commit_with_too_many_deletions_is_not_consistent() {
    let mut beyond = entry("_1", 0x20);
    beyond.del_count = 300;
    beyond.soft_del_count = 1;
    let directory = directory("segments", commit(10, "", &[entry("_0", 0x10), beyond], 16));
    let commit = SegmentInfos::read_commit(&directory, 0).unwrap();
    assert!(!commit.is_consistent());
}

#[test]
fn a_commit_that_lists_fewer_segments_than_it_announces_is_not_consistent() {
    let directory = directory("segments", commit(10, "", &[entry("_0", 0x10)], 16));
    let mut commit = SegmentInfos::read_commit(&directory, 0).unwrap();
    assert!(commit.is_consistent());
    commit.num_segments = 2;
    assert!(!commit.is_consistent());
}

#[test]
fn every_codec_is_read_in_the_one_format() {
    for codec in ["Lucene90", "Lucene99", "", "anything"] {
        assert_eq!(SegmentInfoFormat::for_codec(codec), SegmentInfoFormat::Lucene90);
    }
    let directory = directory("segments", Vec::new());
    let info = SegmentInfoFormat::Lucene90.read(&directory, "_0".to_string(), id(0x10)).unwrap();
    assert_eq!(info.name, "_0");
    assert_eq!(info.doc_count, 300);
    let r = SegmentInfoFormat::Lucene90.read(&directory, "_0".to_string(), id(0x11));
    assert_eq!(r.unwrap_err(), SegmentInfoReadError::Header(HeaderError::BadHeaderId));
}
