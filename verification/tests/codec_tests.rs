use uaedb::bytes::{padding_for_alignment, read_u16_be, read_u32_be, read_u64_be, write_u16_be,
    write_u32_be, write_u64_be};
use uaedb::error::BundleError;
use uaedb::flags::clear_compression_flags;
use uaedb::select::{apply_packer, normalize_entry_path, select_entry, Packer};
use uaedb::blob::{build_block_info_bytes, parse_block_info, BlockInfo, DirectoryEntry};
use uaedb::version::{parse_engine_version, uses_new_archive_flags};

fn entry(offset: u64, size: u64, flags: u32, path: &str) -> DirectoryEntry {
    DirectoryEntry { offset, size, flags, path: path.as_bytes().to_vec() }
}

#[test]
fn big_endian_round_trip() {
    let mut out: Vec<u8> = Vec::new();
    write_u16_be(&mut out, 0x1234);
    write_u32_be(&mut out, 0x0102_0304);
    write_u64_be(&mut out, 0x0506_0708_090A_0B0C);
    assert_eq!(
        out,
        vec![0x12, 0x34, 0x01, 0x02, 0x03, 0x04, 0x05, 0x06, 0x07, 0x08, 0x09, 0x0A, 0x0B, 0x0C]
    );
    let mut pos = 0usize;
    assert_eq!(read_u16_be(&out, &mut pos), Some(0x1234));
    assert_eq!(read_u32_be(&out, &mut pos), Some(0x0102_0304));
    assert_eq!(read_u64_be(&out, &mut pos), Some(0x0506_0708_090A_0B0C));
    assert_eq!(pos, 14);
    assert_eq!(read_u16_be(&out, &mut pos), None);
}

#[test]
fn padding_values() {
    assert_eq!(padding_for_alignment(0, 16), 0);
    assert_eq!(padding_for_alignment(1, 16), 15);
    assert_eq!(padding_for_alignment(16, 16), 0);
    assert_eq!(padding_for_alignment(17, 16), 15);
    assert_eq!(padding_for_alignment(31, 16), 1);
}

#[test]
fn engine_version_parsing() {
    assert_eq!(parse_engine_version(&b"2021.3.16f1".to_vec()), Some((2021, 3, 16)));
    assert_eq!(parse_engine_version(&b"2019.4.0a1".to_vec()), Some((2019, 4, 0)));
    assert_eq!(parse_engine_version(&b"5.6.7p4".to_vec()), Some((5, 6, 7)));
    assert_eq!(parse_engine_version(&b"2021.3".to_vec()), None);
    assert_eq!(parse_engine_version(&b"".to_vec()), None);
    assert_eq!(parse_engine_version(&b"no digits here".to_vec()), None);
    // A run too large for the field is skipped, not truncated.
    assert_eq!(parse_engine_version(&b"99999999999.1.2.3".to_vec()), Some((1, 2, 3)));
}

#[test]
fn new_archive_flags_boundaries() {
    assert!(!uses_new_archive_flags(2019, 4, 9));
    assert!(!uses_new_archive_flags(2020, 3, 33));
    assert!(uses_new_archive_flags(2020, 3, 34));
    assert!(uses_new_archive_flags(2020, 4, 0));
    assert!(!uses_new_archive_flags(2021, 3, 1));
    assert!(uses_new_archive_flags(2021, 3, 2));
    assert!(!uses_new_archive_flags(2022, 1, 0));
    assert!(uses_new_archive_flags(2022, 1, 1));
    assert!(uses_new_archive_flags(2023, 0, 0));
    assert!(!uses_new_archive_flags(2017, 9, 9));
}

#[test]
fn clear_compression_keeps_high_bits() {
    assert_eq!(clear_compression_flags(0x0041), 0x0040);
    assert_eq!(clear_compression_flags(0x003F), 0x0000);
    assert_eq!(clear_compression_flags(0xFFC2), 0xFFC0);
}

#[test]
fn packer_override_values() {
    assert_eq!(Packer::Store.override_compression(), Some(0));
    assert_eq!(Packer::Lz4.override_compression(), Some(2));
    assert_eq!(Packer::Lzma.override_compression(), Some(1));
    assert_eq!(Packer::Original.override_compression(), None);
}

#[test]
fn apply_packer_rewrites_both_nibbles() {
    assert_eq!(apply_packer(0x43, 0x41, Packer::Lz4), (0x42, 0x42));
    assert_eq!(apply_packer(0x241, 0x03, Packer::Store), (0x240, 0x00));
    assert_eq!(apply_packer(0x43, 0x41, Packer::Lzma), (0x41, 0x41));
    assert_eq!(apply_packer(0x43, 0x41, Packer::Original), (0x43, 0x41));
}

#[test]
fn normalize_backslashes_and_case() {
    assert_eq!(normalize_entry_path(&b"CAB\\Asset.resS".to_vec(), false), b"CAB/Asset.resS");
    assert_eq!(normalize_entry_path(&b"CAB\\Asset.resS".to_vec(), true), b"cab/asset.ress");
}

#[test]
fn select_by_suffix() {
    let entries = vec![
        entry(0, 10, 4, "CAB-abc/asset"),
        entry(10, 20, 4, "CAB-abc/asset.resS"),
    ];
    let sel = b"asset.resS".to_vec();
    assert_eq!(select_entry(&entries, Some(&sel), false), Ok(1));
}

#[test]
fn select_exact_beats_suffix() {
    let entries = vec![
        entry(0, 10, 4, "dir/asset"),
        entry(10, 20, 4, "asset"),
    ];
    let sel = b"asset".to_vec();
    assert_eq!(select_entry(&entries, Some(&sel), false), Ok(1));
}

#[test]
fn select_ambiguous_suffix() {
    let entries = vec![
        entry(0, 10, 4, "a/data.bin"),
        entry(10, 20, 4, "b/data.bin"),
    ];
    let sel = b"data.bin".to_vec();
    assert_eq!(select_entry(&entries, Some(&sel), false), Err(BundleError::EntryAmbiguous));
}

#[test]
fn select_not_found() {
    let entries = vec![entry(0, 10, 4, "a/data.bin")];
    let sel = b"missing".to_vec();
    assert_eq!(select_entry(&entries, Some(&sel), false), Err(BundleError::EntryNotFound));
}

#[test]
fn select_without_selector() {
    let one = vec![entry(0, 10, 4, "only")];
    assert_eq!(select_entry(&one, None, false), Ok(0));
    let two = vec![entry(0, 10, 4, "a"), entry(10, 10, 4, "b")];
    assert_eq!(select_entry(&two, None, false), Err(BundleError::MultipleEntries));
    let none: Vec<DirectoryEntry> = Vec::new();
    assert_eq!(select_entry(&none, None, false), Err(BundleError::NoEntries));
}

#[test]
fn blob_round_trip() {
    let blocks = vec![
        BlockInfo { uncompressed_size: 100, compressed_size: 80, flags: 0x42 },
        BlockInfo { uncompressed_size: 50, compressed_size: 50, flags: 0x40 },
    ];
    let entries = vec![entry(0, 120, 4, "CAB-abc"), entry(120, 30, 0, "CAB-abc.resS")];
    let blob = build_block_info_bytes(&blocks, &entries).unwrap();
    // Hash slot, counts, two ten-byte block records, two entry records.
    assert_eq!(&blob[0..16], &[0u8; 16]);
    assert_eq!(&blob[16..20], &[0, 0, 0, 2]);
    assert_eq!(&blob[20..30], &[0, 0, 0, 100, 0, 0, 0, 80, 0x00, 0x42]);
    let (rb, re) = parse_block_info(&blob).unwrap();
    assert_eq!(rb, blocks);
    assert_eq!(re.len(), 2);
    assert_eq!(re[0].offset, 0);
    assert_eq!(re[0].size, 120);
    assert_eq!(re[0].flags, 4);
    assert_eq!(re[0].path, b"CAB-abc");
    assert_eq!(re[1].offset, 120);
    assert_eq!(re[1].path, b"CAB-abc.resS");
}

#[test]
fn blob_rejects_negative_counts() {
    let mut blob = vec![0u8; 16];
    blob.extend_from_slice(&[0x80, 0, 0, 0]); // block count with the sign bit set
    assert!(matches!(parse_block_info(&blob), Err(BundleError::NegativeCount)));
}

#[test]
fn blob_truncated() {
    let blob = vec![0u8; 19];
    assert!(matches!(parse_block_info(&blob), Err(BundleError::Truncated)));
    let mut blob2 = vec![0u8; 16];
    blob2.extend_from_slice(&[0, 0, 0, 3]); // three blocks promised, none present
    assert!(matches!(parse_block_info(&blob2), Err(BundleError::Truncated)));
}
