use uaedb::blob::{build_block_info_bytes, BlockInfo, DirectoryEntry};
use uaedb::bundle::UnityFsBundle;
use uaedb::error::BundleError;
use uaedb::select::{apply_packer, select_entry, Packer};
use uaedb::writer::assemble;

const FLAG_BLOCKS_AND_DIR: u32 = 0x40;
const FLAG_BLOCKS_INFO_AT_END: u32 = 0x80;
const COMP_MASK: u32 = 0x3F;

/// Assemble a bundle file whose blob and blocks are stored uncompressed.
fn build_stored_bundle(
    version: u32,
    engine: &str,
    flags: u32,
    blocks: &[BlockInfo],
    entries: &[(u64, u64, u32, &str)],
    data: &[u8],
) -> Vec<u8> {
    let blocks: Vec<BlockInfo> = blocks.to_vec();
    let entries: Vec<DirectoryEntry> = entries
        .iter()
        .map(|&(offset, size, eflags, path)| DirectoryEntry {
            offset,
            size,
            flags: eflags,
            path: path.as_bytes().to_vec(),
        })
        .collect();
    let blob = build_block_info_bytes(&blocks, &entries).unwrap();
    let uses_alignment = version >= 7;
    assemble(
        &b"UnityFS".to_vec(),
        version,
        &b"5.x.x".to_vec(),
        &engine.as_bytes().to_vec(),
        &blob,
        blob.len() as u32,
        flags,
        uses_alignment,
        &data.to_vec(),
    )
}

fn single_entry_bundle(data: &[u8]) -> Vec<u8> {
    let n = data.len() as u32;
    build_stored_bundle(
        6,
        "2018.4.0f1",
        FLAG_BLOCKS_AND_DIR,
        &[BlockInfo { uncompressed_size: n, compressed_size: n, flags: 0 }],
        &[(0, data.len() as u64, 4, "asset.bin")],
        data,
    )
}

fn hundred_bytes() -> Vec<u8> {
    (0u8..100).collect()
}

#[test]
fn read_stored_bundle() {
    let data = hundred_bytes();
    let file = single_entry_bundle(&data);
    let bundle = UnityFsBundle::read(&file).unwrap();
    assert_eq!(bundle.signature(), b"UnityFS");
    assert_eq!(bundle.version(), 6);
    assert_eq!(bundle.flags(), FLAG_BLOCKS_AND_DIR);
    assert_eq!(bundle.blocks().len(), 1);
    assert_eq!(bundle.blocks()[0].uncompressed_size, 100);
    assert_eq!(bundle.entries().len(), 1);
    assert_eq!(bundle.entries()[0].path, b"asset.bin");
    assert!(!bundle.uses_block_alignment());
    assert_eq!(bundle.decompress_data(&file).unwrap(), data);
}

#[test]
fn read_rejects_bad_signature() {
    let data = hundred_bytes();
    let mut file = single_entry_bundle(&data);
    file[0] = b'X';
    assert!(matches!(UnityFsBundle::read(&file), Err(BundleError::BadSignature)));
}

#[test]
fn read_rejects_truncated() {
    let data = hundred_bytes();
    let file = single_entry_bundle(&data);
    let cut = file[..30].to_vec();
    assert!(matches!(UnityFsBundle::read(&cut), Err(BundleError::Truncated)));
}

// Rejection of encrypted bundles: bit 0x200 under the old regime, bit
// 0x1400 under the new one.
#[test]
fn read_rejects_encrypted_old_regime() {
    let data = hundred_bytes();
    let n = data.len() as u32;
    let file = build_stored_bundle(
        6,
        "2018.4.0f1",
        FLAG_BLOCKS_AND_DIR | 0x200,
        &[BlockInfo { uncompressed_size: n, compressed_size: n, flags: 0 }],
        &[(0, 100, 4, "asset.bin")],
        &data,
    );
    assert!(matches!(UnityFsBundle::read(&file), Err(BundleError::Encrypted)));
}

#[test]
fn read_rejects_encrypted_new_regime() {
    let data = hundred_bytes();
    let n = data.len() as u32;
    let file = build_stored_bundle(
        7,
        "2022.1.1f1",
        FLAG_BLOCKS_AND_DIR | 0x400,
        &[BlockInfo { uncompressed_size: n, compressed_size: n, flags: 0 }],
        &[(0, 100, 4, "asset.bin")],
        &data,
    );
    assert!(matches!(UnityFsBundle::read(&file), Err(BundleError::Encrypted)));
}

#[test]
fn padding_bit_is_not_encryption_under_new_regime() {
    let data = hundred_bytes();
    let n = data.len() as u32;
    let file = build_stored_bundle(
        7,
        "2022.1.1f1",
        FLAG_BLOCKS_AND_DIR | 0x200,
        &[BlockInfo { uncompressed_size: n, compressed_size: n, flags: 0 }],
        &[(0, 100, 4, "asset.bin")],
        &data,
    );
    let bundle = UnityFsBundle::read(&file).unwrap();
    assert_eq!(bundle.decompress_data(&file).unwrap(), data);
    // The data region is sixteen-byte aligned: version seven plus padding bit.
    assert_eq!(bundle.data_start() % 16, 0);
}

// Rejection of LZHAM, at read and at write time.
#[test]
fn read_rejects_lzham_blob() {
    let data = hundred_bytes();
    let n = data.len() as u32;
    let file = build_stored_bundle(
        6,
        "2018.4.0f1",
        FLAG_BLOCKS_AND_DIR | 4,
        &[BlockInfo { uncompressed_size: n, compressed_size: n, flags: 0 }],
        &[(0, 100, 4, "asset.bin")],
        &data,
    );
    assert!(matches!(UnityFsBundle::read(&file), Err(BundleError::UnsupportedLzham)));
}

#[test]
fn write_rejects_lzham() {
    let data = hundred_bytes();
    let file = single_entry_bundle(&data);
    let bundle = UnityFsBundle::read(&file).unwrap();
    let entries: Vec<DirectoryEntry> = bundle.entries().clone();
    let r = bundle.write_bundle(&data, &entries, FLAG_BLOCKS_AND_DIR | 4, 0);
    assert!(matches!(r, Err(BundleError::UnsupportedLzham)));
}

#[test]
fn write_requires_blocks_and_dir_flag() {
    let data = hundred_bytes();
    let file = single_entry_bundle(&data);
    let bundle = UnityFsBundle::read(&file).unwrap();
    let entries: Vec<DirectoryEntry> = bundle.entries().clone();
    let r = bundle.write_bundle(&data, &entries, 0, 0);
    assert!(matches!(r, Err(BundleError::MissingBlocksAndDirFlag)));
}

/// One full entry-mode pass without an external delta: decompress,
/// extract, splice replacement bytes back, write under the given packer,
/// and read the result back.
fn patch_single_entry(packer: Packer, replacement: &[u8]) -> (Vec<u8>, UnityFsBundle) {
    let data = hundred_bytes();
    let file = single_entry_bundle(&data);
    let bundle = UnityFsBundle::read(&file).unwrap();
    let stream = bundle.decompress_data(&file).unwrap();
    let sel = b"asset.bin".to_vec();
    let idx = select_entry(bundle.entries(), Some(&sel), false).unwrap();
    let extracted = bundle.extract_entry(&stream, idx).unwrap();
    assert_eq!(extracted, data);
    let (new_stream, new_entries) =
        bundle.rebuild_data_file(&stream, idx, &replacement.to_vec()).unwrap();
    let (data_flags, block_info_flags) =
        apply_packer(bundle.flags(), bundle.block_info_flags(), packer);
    let out = bundle
        .write_bundle(&new_stream, &new_entries, data_flags, block_info_flags)
        .unwrap();
    let reread = UnityFsBundle::read(&out).unwrap();
    (out, reread)
}

// Single-entry passthrough: a no-op replacement leaves the entry's bytes
// unchanged under every packer choice.
#[test]
fn passthrough_store() {
    let data = hundred_bytes();
    let (out, reread) = patch_single_entry(Packer::Store, &data);
    let stream = reread.decompress_data(&out).unwrap();
    assert_eq!(reread.extract_entry(&stream, 0).unwrap(), data);
}

#[test]
fn passthrough_lz4() {
    let data = hundred_bytes();
    let (out, reread) = patch_single_entry(Packer::Lz4, &data);
    let stream = reread.decompress_data(&out).unwrap();
    assert_eq!(reread.extract_entry(&stream, 0).unwrap(), data);
}

#[test]
fn passthrough_lzma() {
    let data = hundred_bytes();
    let (out, reread) = patch_single_entry(Packer::Lzma, &data);
    let stream = reread.decompress_data(&out).unwrap();
    assert_eq!(reread.extract_entry(&stream, 0).unwrap(), data);
}

#[test]
fn passthrough_original() {
    let data = hundred_bytes();
    let (out, reread) = patch_single_entry(Packer::Original, &data);
    let stream = reread.decompress_data(&out).unwrap();
    assert_eq!(reread.extract_entry(&stream, 0).unwrap(), data);
}

// Single-entry replace: two hundred bytes of 0xAA go in, and come back.
#[test]
fn replace_entry_bytes() {
    let replacement = vec![0xAAu8; 200];
    let (out, reread) = patch_single_entry(Packer::Original, &replacement);
    assert_eq!(reread.signature(), b"UnityFS");
    assert_eq!(reread.entries().len(), 1);
    assert_eq!(reread.entries()[0].size, 200);
    let stream = reread.decompress_data(&out).unwrap();
    assert_eq!(reread.extract_entry(&stream, 0).unwrap(), replacement);
}

// Compression override: an uncompressed input written under LZ4 carries
// the LZ4 code in every kept block and in the recompression default, and
// expands back to the original data.
#[test]
fn override_store_to_lz4() {
    let data: Vec<u8> = std::iter::repeat(&b"repetitive payload "[..])
        .take(200)
        .flatten()
        .copied()
        .collect();
    let n = data.len() as u32;
    let file = build_stored_bundle(
        6,
        "2018.4.0f1",
        FLAG_BLOCKS_AND_DIR,
        &[BlockInfo { uncompressed_size: n, compressed_size: n, flags: 0 }],
        &[(0, data.len() as u64, 4, "asset.bin")],
        &data,
    );
    let bundle = UnityFsBundle::read(&file).unwrap();
    let stream = bundle.decompress_data(&file).unwrap();
    let entries: Vec<DirectoryEntry> = bundle.entries().clone();
    let (data_flags, block_info_flags) =
        apply_packer(bundle.flags(), bundle.block_info_flags(), Packer::Lz4);
    assert_eq!(data_flags & COMP_MASK, 2);
    assert_eq!(block_info_flags & 0x3F, 2);
    let out = bundle
        .write_bundle(&stream, &entries, data_flags, block_info_flags)
        .unwrap();
    assert!(out.len() < file.len());
    let reread = UnityFsBundle::read(&out).unwrap();
    assert_eq!(reread.flags() & COMP_MASK, 2);
    assert_eq!(reread.block_info_flags() as u32 & COMP_MASK, 2);
    for block in reread.blocks() {
        let code = block.flags as u32 & COMP_MASK;
        assert!(code == 2 || code == 0);
        assert!(block.compressed_size <= block.uncompressed_size);
    }
    assert_eq!(reread.decompress_data(&out).unwrap(), stream);
}

// Block-size discipline: LZ4 chunks the stream into 0x20000-byte blocks.
#[test]
fn lz4_chunking_discipline() {
    let data = vec![7u8; 0x20000 + 0x1234];
    let file = single_entry_bundle(&hundred_bytes());
    let bundle = UnityFsBundle::read(&file).unwrap();
    let entries = vec![DirectoryEntry {
        offset: 0,
        size: data.len() as u64,
        flags: 4,
        path: b"big.bin".to_vec(),
    }];
    let out = bundle
        .write_bundle(&data, &entries, FLAG_BLOCKS_AND_DIR | 2, 2)
        .unwrap();
    let reread = UnityFsBundle::read(&out).unwrap();
    assert_eq!(reread.blocks().len(), 2);
    assert_eq!(reread.blocks()[0].uncompressed_size, 0x20000);
    assert_eq!(reread.blocks()[1].uncompressed_size, 0x1234);
    for block in reread.blocks() {
        assert!(block.compressed_size <= block.uncompressed_size);
    }
    assert_eq!(reread.decompress_data(&out).unwrap(), data);
}

// Round-trip identity through the layout-preserving writer.
#[test]
fn layout_write_round_trip() {
    let data = hundred_bytes();
    let file = build_stored_bundle(
        6,
        "2018.4.0f1",
        FLAG_BLOCKS_AND_DIR,
        &[
            BlockInfo { uncompressed_size: 60, compressed_size: 60, flags: 0 },
            BlockInfo { uncompressed_size: 40, compressed_size: 40, flags: 0 },
        ],
        &[(0, 100, 4, "asset.bin")],
        &data,
    );
    let bundle = UnityFsBundle::read(&file).unwrap();
    let stream = bundle.decompress_data(&file).unwrap();
    let entries: Vec<DirectoryEntry> = bundle.entries().clone();
    let layout: Vec<BlockInfo> = bundle.blocks().clone();
    let out = bundle
        .write_bundle_with_layout(&stream, &entries, bundle.flags(), bundle.block_info_flags(),
            &layout)
        .unwrap();
    let reread = UnityFsBundle::read(&out).unwrap();
    assert_eq!(reread.blocks(), &layout);
    assert_eq!(reread.entries().len(), 1);
    assert_eq!(reread.entries()[0].size, 100);
    assert_eq!(reread.decompress_data(&out).unwrap(), stream);
}

// Unpack idempotence: the uncompressed rewrite of an already-unpacked
// bundle is the unpacked bundle itself.
#[test]
fn unpack_is_idempotent() {
    let data: Vec<u8> = std::iter::repeat(&b"idempotence fodder "[..])
        .take(300)
        .flatten()
        .copied()
        .collect();
    let file = single_entry_bundle(&hundred_bytes());
    let seed = UnityFsBundle::read(&file).unwrap();
    let entries = vec![DirectoryEntry {
        offset: 0,
        size: data.len() as u64,
        flags: 4,
        path: b"asset.bin".to_vec(),
    }];
    // A compressed source bundle, then two rounds of unpacking.
    let compressed = seed
        .write_bundle(&data, &entries, FLAG_BLOCKS_AND_DIR | 2, 2)
        .unwrap();
    let b0 = UnityFsBundle::read(&compressed).unwrap();
    let once = b0.unpack(&compressed).unwrap();
    let b1 = UnityFsBundle::read(&once).unwrap();
    assert_eq!(b1.decompress_data(&once).unwrap(), data);
    let twice = b1.unpack(&once).unwrap();
    assert_eq!(twice, once);
}

// Blob at the end of the file: flag 0x80 moves the blob after the data.
#[test]
fn blob_at_end_round_trip() {
    let data = hundred_bytes();
    let n = data.len() as u32;
    let file = build_stored_bundle(
        6,
        "2018.4.0f1",
        FLAG_BLOCKS_AND_DIR | FLAG_BLOCKS_INFO_AT_END,
        &[BlockInfo { uncompressed_size: n, compressed_size: n, flags: 0 }],
        &[(0, 100, 4, "asset.bin")],
        &data,
    );
    let bundle = UnityFsBundle::read(&file).unwrap();
    assert_eq!(bundle.entries().len(), 1);
    assert_eq!(bundle.decompress_data(&file).unwrap(), data);
}

// Alignment: on a version-seven bundle with the blob at the end, the
// data region starts at a multiple of sixteen.
#[test]
fn version_seven_alignment() {
    let data = hundred_bytes();
    let n = data.len() as u32;
    let file = build_stored_bundle(
        7,
        "2022.1.1f1",
        FLAG_BLOCKS_AND_DIR | FLAG_BLOCKS_INFO_AT_END,
        &[BlockInfo { uncompressed_size: n, compressed_size: n, flags: 0 }],
        &[(0, 100, 4, "asset.bin")],
        &data,
    );
    let bundle = UnityFsBundle::read(&file).unwrap();
    assert!(bundle.uses_block_alignment());
    assert_eq!(bundle.data_start() % 16, 0);
    assert_eq!(bundle.decompress_data(&file).unwrap(), data);
}

// The rebuilt entry table: each entry starts where the previous one
// ends; only the target's size changes.
#[test]
fn rebuild_offsets() {
    let data: Vec<u8> = (0u8..60).collect();
    let file = build_stored_bundle(
        6,
        "2018.4.0f1",
        FLAG_BLOCKS_AND_DIR,
        &[BlockInfo { uncompressed_size: 60, compressed_size: 60, flags: 0 }],
        &[(0, 10, 4, "a"), (10, 20, 4, "b"), (30, 30, 4, "c")],
        &data,
    );
    let bundle = UnityFsBundle::read(&file).unwrap();
    let stream = bundle.decompress_data(&file).unwrap();
    let patched = vec![0x55u8; 5];
    let (new_stream, new_entries) = bundle.rebuild_data_file(&stream, 1, &patched).unwrap();
    assert_eq!(new_entries.len(), 3);
    assert_eq!(
        (new_entries[0].offset, new_entries[0].size),
        (0, 10)
    );
    assert_eq!(
        (new_entries[1].offset, new_entries[1].size),
        (10, 5)
    );
    assert_eq!(
        (new_entries[2].offset, new_entries[2].size),
        (15, 30)
    );
    assert_eq!(new_stream.len(), 45);
    assert_eq!(&new_stream[10..15], &patched[..]);
    assert_eq!(&new_stream[0..10], &data[0..10]);
    assert_eq!(&new_stream[15..45], &data[30..60]);
}

#[test]
fn extract_entry_errors() {
    let data = hundred_bytes();
    let file = single_entry_bundle(&data);
    let bundle = UnityFsBundle::read(&file).unwrap();
    let stream = bundle.decompress_data(&file).unwrap();
    assert!(matches!(
        bundle.extract_entry(&stream, 5),
        Err(BundleError::EntryIndexOutOfRange)
    ));
    let short = stream[..50].to_vec();
    assert!(matches!(bundle.extract_entry(&short, 0), Err(BundleError::DataTooShort)));
}

// The whole-bundle fallback decision: true only when the block table
// covers fewer bytes than the entries require.
#[test]
fn raw_data_fallback_decision() {
    let data = hundred_bytes();
    let file = single_entry_bundle(&data);
    let bundle = UnityFsBundle::read(&file).unwrap();
    assert_eq!(bundle.raw_data_fallback_needed(), Ok(false));
    let n = data.len() as u32;
    let inconsistent = build_stored_bundle(
        6,
        "2018.4.0f1",
        FLAG_BLOCKS_AND_DIR,
        &[BlockInfo { uncompressed_size: n, compressed_size: n, flags: 0 }],
        &[(0, 150, 4, "asset.bin")],
        &data,
    );
    let bundle2 = UnityFsBundle::read(&inconsistent).unwrap();
    assert_eq!(bundle2.raw_data_fallback_needed(), Ok(true));
    let raw = uaedb::bundle::extract_raw_data(&inconsistent, bundle2.data_start()).unwrap();
    assert_eq!(raw.len(), data.len());
    assert_eq!(raw, data);
}

// Probed alignment: a version-six bundle from engine 2019.4 with zero
// padding before the blob is detected as aligned.
#[test]
fn probed_alignment() {
    let data = hundred_bytes();
    let n = data.len() as u32;
    let blocks = vec![BlockInfo { uncompressed_size: n, compressed_size: n, flags: 0 }];
    let entries = vec![DirectoryEntry { offset: 0, size: 100, flags: 4, path: b"asset.bin".to_vec() }];
    let blob = build_block_info_bytes(&blocks, &entries).unwrap();
    let file = assemble(
        &b"UnityFS".to_vec(),
        6,
        &b"5.x.x".to_vec(),
        &b"2019.4.31f1".to_vec(),
        &blob,
        blob.len() as u32,
        FLAG_BLOCKS_AND_DIR,
        true,
        &data.to_vec(),
    );
    let bundle = UnityFsBundle::read(&file).unwrap();
    assert!(bundle.uses_block_alignment() || bundle.data_start() % 16 == 0);
    assert_eq!(bundle.decompress_data(&file).unwrap(), data);
}

#[test]
fn read_rejects_unknown_compression() {
    let data = hundred_bytes();
    let n = data.len() as u32;
    let file = build_stored_bundle(
        6,
        "2018.4.0f1",
        FLAG_BLOCKS_AND_DIR | 5,
        &[BlockInfo { uncompressed_size: n, compressed_size: n, flags: 0 }],
        &[(0, 100, 4, "asset.bin")],
        &data,
    );
    assert!(matches!(UnityFsBundle::read(&file), Err(BundleError::UnknownCompression)));
}

// A blob marked LZMA but shorter than the five-byte properties header.
#[test]
fn read_rejects_short_lzma_blob() {
    let tiny = vec![1u8, 2, 3];
    let file = assemble(
        &b"UnityFS".to_vec(),
        6,
        &b"5.x.x".to_vec(),
        &b"2018.4.0f1".to_vec(),
        &tiny,
        64,
        FLAG_BLOCKS_AND_DIR | 1,
        false,
        &Vec::new(),
    );
    assert!(matches!(UnityFsBundle::read(&file), Err(BundleError::LzmaHeaderTooShort)));
}

// A blob marked LZ4 whose bytes are not a valid LZ4 block.
#[test]
fn read_rejects_garbage_lz4_blob() {
    let garbage = vec![0xFFu8; 24];
    let file = assemble(
        &b"UnityFS".to_vec(),
        6,
        &b"5.x.x".to_vec(),
        &b"2018.4.0f1".to_vec(),
        &garbage,
        64,
        FLAG_BLOCKS_AND_DIR | 2,
        false,
        &Vec::new(),
    );
    assert!(matches!(UnityFsBundle::read(&file), Err(BundleError::CodecFailed)));
}

// A layout that does not cover the data stream exactly is refused.
#[test]
fn layout_mismatch() {
    let data = hundred_bytes();
    let file = single_entry_bundle(&data);
    let bundle = UnityFsBundle::read(&file).unwrap();
    let entries: Vec<DirectoryEntry> = bundle.entries().clone();
    let layout = vec![BlockInfo { uncompressed_size: 60, compressed_size: 60, flags: 0 }];
    let r = bundle.write_bundle_with_layout(&data, &entries, FLAG_BLOCKS_AND_DIR, 0, &layout);
    assert!(matches!(r, Err(BundleError::LayoutMismatch)));
}

// LZMA output actually passes through the encoder: the block keeps the
// LZMA code and the file shrinks, and the decoder restores the stream.
#[test]
fn lzma_compression_applied() {
    let data: Vec<u8> = std::iter::repeat(&b"lzma payload block "[..])
        .take(400)
        .flatten()
        .copied()
        .collect();
    let file = single_entry_bundle(&hundred_bytes());
    let seed = UnityFsBundle::read(&file).unwrap();
    let entries = vec![DirectoryEntry {
        offset: 0,
        size: data.len() as u64,
        flags: 4,
        path: b"asset.bin".to_vec(),
    }];
    let out = seed
        .write_bundle(&data, &entries, FLAG_BLOCKS_AND_DIR | 1, 1)
        .unwrap();
    let reread = UnityFsBundle::read(&out).unwrap();
    assert_eq!(reread.blocks().len(), 1);
    assert_eq!(reread.blocks()[0].flags & 0x3F, 1);
    assert!(reread.blocks()[0].compressed_size < reread.blocks()[0].uncompressed_size);
    assert_eq!(reread.decompress_data(&out).unwrap(), data);
}

// The whole-bundle flow without a delta: unpack, reparse the unpacked
// form, and rewrite it reusing its own block layout.
#[test]
fn whole_bundle_layout_reuse() {
    let data: Vec<u8> = std::iter::repeat(&b"whole bundle payload "[..])
        .take(250)
        .flatten()
        .copied()
        .collect();
    let file = single_entry_bundle(&hundred_bytes());
    let seed = UnityFsBundle::read(&file).unwrap();
    let entries = vec![DirectoryEntry {
        offset: 0,
        size: data.len() as u64,
        flags: 4,
        path: b"asset.bin".to_vec(),
    }];
    let compressed = seed
        .write_bundle(&data, &entries, FLAG_BLOCKS_AND_DIR | 2, 2)
        .unwrap();
    let b0 = UnityFsBundle::read(&compressed).unwrap();
    let unpacked = b0.unpack(&compressed).unwrap();
    let u = UnityFsBundle::read(&unpacked).unwrap();
    assert!(!u.raw_data_fallback_needed().unwrap());
    let stream = u.decompress_data(&unpacked).unwrap();
    assert_eq!(stream, data);
    let (data_flags, block_info_flags) = apply_packer(b0.flags(), b0.block_info_flags(),
        Packer::Original);
    let patched_entries: Vec<DirectoryEntry> = u.entries().clone();
    let layout = u.blocks().clone();
    let out = u
        .write_bundle_with_layout(&stream, &patched_entries, data_flags, block_info_flags,
            &layout)
        .unwrap();
    let reread = UnityFsBundle::read(&out).unwrap();
    assert_eq!(reread.decompress_data(&out).unwrap(), data);
    assert_eq!(reread.entries().len(), 1);
    assert_eq!(reread.entries()[0].size, data.len() as u64);
}

// Selection matches across backslash-separated paths.
#[test]
fn select_normalizes_backslashes_in_bundle() {
    let data = hundred_bytes();
    let file = build_stored_bundle(
        6,
        "2018.4.0f1",
        FLAG_BLOCKS_AND_DIR,
        &[BlockInfo { uncompressed_size: 100, compressed_size: 100, flags: 0 }],
        &[(0, 40, 4, "CAB\\one.bin"), (40, 60, 4, "CAB\\two.bin")],
        &data,
    );
    let bundle = UnityFsBundle::read(&file).unwrap();
    let sel = b"CAB/two.bin".to_vec();
    assert_eq!(select_entry(bundle.entries(), Some(&sel), false), Ok(1));
}
