//! The bundle reader: parsing the version-sensitive header, locating and
//! expanding the block-info blob, and exposing the block and entry lists.
//!
//! A [`UnityFsBundle`] is built by [`UnityFsBundle::read`] from the bytes of
//! a bundle file and is immutable afterwards.

use vstd::prelude::*;

use crate::blob::{
    entries_view, parse_block_info, spec_parse_block_info, BlockInfo, DirectoryEntry,
    DirectoryEntryV,
};
use crate::bytes::{
    find_null, padding_for_alignment, read_string_to_null, read_u32_be, read_u64_be, spec_padding,
    u32_at, zero_bytes,
};
use crate::codec::{decompress_blocks, spec_decompress_blocks, spec_decompress_block_info};
use crate::error::BundleError;
use crate::flags::{
    COMP_MASK, FLAG_BLOCKS_INFO_AT_END, FLAG_BLOCK_INFO_NEED_PADDING, FLAG_ENCRYPTION_NEW,
    FLAG_ENCRYPTION_OLD,
};
use crate::version::{
    parse_engine_version, spec_parse_engine_version, spec_uses_new_archive_flags,
    uses_new_archive_flags,
};

verus! {

/// The bytes of the mandatory `UnityFS` signature.
pub open spec fn spec_sig_unityfs() -> Seq<u8> {
    seq![0x55u8, 0x6Eu8, 0x69u8, 0x74u8, 0x79u8, 0x46u8, 0x53u8]
}

/// The parsed container.
pub struct UnityFsBundle {
    pub(crate) signature: Vec<u8>,
    pub(crate) version: u32,
    pub(crate) version_player: Vec<u8>,
    pub(crate) version_engine: Vec<u8>,
    pub(crate) flags: u32,
    pub(crate) uses_block_alignment: bool,
    pub(crate) data_start: usize,
    pub(crate) block_info_flags: u16,
    pub(crate) blocks: Vec<BlockInfo>,
    pub(crate) entries: Vec<DirectoryEntry>,
}

/// Mathematical image of a [`UnityFsBundle`].
pub ghost struct BundleV {
    /// Signature bytes, always `UnityFS` on a parsed bundle.
    pub signature: Seq<u8>,
    /// Archive format version.
    pub version: u32,
    /// Player version string bytes.
    pub version_player: Seq<u8>,
    /// Engine version string bytes.
    pub version_engine: Seq<u8>,
    /// Archive flag bitset.
    pub flags: u32,
    /// Whether the data region is sixteen-byte aligned.
    pub uses_block_alignment: bool,
    /// File offset of the first data byte.
    pub data_start: int,
    /// Flag word of the first block, the recompression default.
    pub block_info_flags: u16,
    /// Block list.
    pub blocks: Seq<BlockInfo>,
    /// Entry list.
    pub entries: Seq<DirectoryEntryV>,
}

impl View for UnityFsBundle {
    type V = BundleV;

    closed spec fn view(&self) -> BundleV {
        BundleV {
            signature: self.signature@,
            version: self.version,
            version_player: self.version_player@,
            version_engine: self.version_engine@,
            flags: self.flags,
            uses_block_alignment: self.uses_block_alignment,
            data_start: self.data_start as int,
            block_info_flags: self.block_info_flags,
            blocks: self.blocks@,
            entries: entries_view(self.entries@),
        }
    }
}

/// True when an engine-version triple is at least `2019.4.0`, the first
/// version whose bundles may carry probed pre-blob alignment.
pub open spec fn spec_engine_ge_2019_4(major: u32, minor: u32, patch: u32) -> bool {
    major > 2019 || (major == 2019 && minor >= 4)
}

/// The flag regime of an engine-version string: true for the new
/// assignments.
pub open spec fn spec_new_flags_regime(engine: Seq<u8>) -> bool {
    match spec_parse_engine_version(engine) {
        Some(v) => spec_uses_new_archive_flags(v.0, v.1, v.2),
        None => false,
    }
}

/// The encryption bit of a flag word under the regime of the given engine
/// version.
pub open spec fn spec_encryption_flag(engine: Seq<u8>) -> u32 {
    if spec_new_flags_regime(engine) {
        FLAG_ENCRYPTION_NEW
    } else {
        FLAG_ENCRYPTION_OLD
    }
}

/// Whether the pre-blob alignment probe applies: the engine version
/// parses and is at least `2019.4.0`.
pub open spec fn spec_probe_eligible(engine: Seq<u8>) -> bool {
    match spec_parse_engine_version(engine) {
        Some(v) => spec_engine_ge_2019_4(v.0, v.1, v.2),
        None => false,
    }
}

/// Cursor position and alignment outcome after the pre-blob alignment
/// step: the position after the header fields, whether alignment applies,
/// and whether the probe failed for want of bytes.
pub open spec fn spec_align_step(bytes: Seq<u8>, pos: int, version: u32, engine: Seq<u8>) -> Result<
    (int, bool),
    BundleError,
> {
    if version >= 7 {
        Ok((pos + spec_padding(pos, 16), true))
    } else {
        match spec_parse_engine_version(engine) {
            Some(v) => if spec_engine_ge_2019_4(v.0, v.1, v.2) {
                let pad = spec_padding(pos, 16);
                if pad == 0 {
                    Ok((pos, false))
                } else if pos + pad > bytes.len() {
                    Err(BundleError::Truncated)
                } else if bytes.subrange(pos, pos + pad) == zero_bytes(pad) {
                    Ok((pos + pad, true))
                } else {
                    Ok((pos, false))
                }
            } else {
                Ok((pos, false))
            },
            None => Ok((pos, false)),
        }
    }
}

/// Outcome of parsing a whole bundle file: the parsed container, or the
/// error the parse stops on. The header is read field by field; the
/// encryption bit is tested under the version-appropriate mask; the
/// block-info blob is located inline or at the end of the file, expanded
/// under the top-level compression, and decoded.
pub open spec fn spec_read(bytes: Seq<u8>) -> Result<BundleV, BundleError> {
    let sig_end = find_null(bytes, 0);
    if sig_end >= bytes.len() {
        Err(BundleError::Truncated)
    } else if bytes.subrange(0, sig_end) != spec_sig_unityfs() {
        Err(BundleError::BadSignature)
    } else {
        let p0 = sig_end + 1;
        if p0 + 4 > bytes.len() {
            Err(BundleError::Truncated)
        } else {
            let version = u32_at(bytes, p0);
            let pe = find_null(bytes, p0 + 4);
            if pe >= bytes.len() {
                Err(BundleError::Truncated)
            } else {
                let player = bytes.subrange(p0 + 4, pe);
                let ee = find_null(bytes, pe + 1);
                if ee >= bytes.len() {
                    Err(BundleError::Truncated)
                } else {
                    let engine = bytes.subrange(pe + 1, ee);
                    let p3 = ee + 1;
                    if p3 + 20 > bytes.len() {
                        Err(BundleError::Truncated)
                    } else {
                        let cis = u32_at(bytes, p3 + 8);
                        let uis = u32_at(bytes, p3 + 12);
                        let flags = u32_at(bytes, p3 + 16);
                        if flags & spec_encryption_flag(engine) != 0 {
                            Err(BundleError::Encrypted)
                        } else {
                            match spec_align_step(bytes, p3 + 20, version, engine) {
                                Err(e) => Err(e),
                                Ok((p5, uba)) => spec_read_blob(
                                    bytes,
                                    version,
                                    player,
                                    engine,
                                    cis,
                                    uis,
                                    flags,
                                    p5,
                                    uba,
                                ),
                            }
                        }
                    }
                }
            }
        }
    }
}

/// Continuation of [`spec_read`] after the header: locate the compressed
/// blob, expand and decode it, and settle the data-region start.
pub open spec fn spec_read_blob(
    bytes: Seq<u8>,
    version: u32,
    player: Seq<u8>,
    engine: Seq<u8>,
    cis: u32,
    uis: u32,
    flags: u32,
    p5: int,
    uba: bool,
) -> Result<BundleV, BundleError> {
    let at_end = flags & FLAG_BLOCKS_INFO_AT_END != 0;
    let blob_loc: Result<(Seq<u8>, int), BundleError> = if at_end {
        if cis > bytes.len() {
            Err(BundleError::Truncated)
        } else {
            Ok((bytes.subrange(bytes.len() - cis, bytes.len() as int), p5))
        }
    } else {
        if !(0 <= p5 && p5 + cis <= bytes.len()) {
            Err(BundleError::Truncated)
        } else {
            Ok((bytes.subrange(p5, p5 + cis), p5 + cis))
        }
    };
    match blob_loc {
        Err(e) => Err(e),
        Ok((blob_comp, next)) => match spec_decompress_block_info(blob_comp, uis, flags) {
            Err(e) => Err(e),
            Ok(blob) => match spec_parse_block_info(blob) {
                Err(e) => Err(e),
                Ok((bs, es)) => {
                    let bif = if bs.len() > 0 {
                        bs[0].flags
                    } else {
                        0
                    };
                    let data_start = if spec_new_flags_regime(engine) && flags
                        & FLAG_BLOCK_INFO_NEED_PADDING != 0 {
                        next + spec_padding(next, 16)
                    } else {
                        next
                    };
                    Ok(
                        BundleV {
                            signature: spec_sig_unityfs(),
                            version,
                            version_player: player,
                            version_engine: engine,
                            flags,
                            uses_block_alignment: uba,
                            data_start,
                            block_info_flags: bif,
                            blocks: bs,
                            entries: es,
                        },
                    )
                },
            },
        },
    }
}


/// The block list with every block forced to its stored form: compression
/// cleared and on-disk size equal to expanded size.
pub open spec fn spec_uncompressed_blocks(bs: Seq<BlockInfo>) -> Seq<BlockInfo> {
    bs.map_values(
        |b: BlockInfo| BlockInfo {
            uncompressed_size: b.uncompressed_size,
            compressed_size: b.uncompressed_size,
            flags: crate::flags::spec_clear_compression(b.flags),
        },
    )
}

/// Outcome of the lossless uncompressed rewrite: a bundle with the same
/// header strings, flags outside the compression code, entries and block
/// boundaries, in which every block and the blob are stored uncompressed
/// and the blocks-and-directory bit is set.
pub open spec fn spec_unpack(b: BundleV, file: Seq<u8>) -> Result<Seq<u8>, BundleError> {
    if b.blocks.len() >= 0x8000_0000 || b.entries.len() >= 0x8000_0000 {
        Err(BundleError::SizeOverflow)
    } else {
        let blob = crate::blob::spec_block_info_blob(spec_uncompressed_blocks(b.blocks), b.entries);
        if blob.len() > u32::MAX {
            Err(BundleError::SizeOverflow)
        } else {
            match spec_decompress_blocks(file, b.data_start, b.blocks) {
                Err(e) => Err(e),
                Ok(data) => {
                    let data_flags = (b.flags & !COMP_MASK) | crate::flags::FLAG_BLOCKS_AND_DIR;
                    Ok(
                        crate::writer::spec_assemble(
                            b.signature,
                            b.version,
                            b.version_player,
                            b.version_engine,
                            blob,
                            blob.len() as u32,
                            data_flags,
                            b.uses_block_alignment,
                            data,
                        ),
                    )
                },
            }
        }
    }
}

/// Outcome of writing a bundle from a data stream under the uniform
/// chunking policy: the stream is recompressed from scratch, the blob is
/// rebuilt over the new block table and the given entries, and the file
/// is assembled under the header of `b`.
pub open spec fn spec_write_bundle(
    b: BundleV,
    data: Seq<u8>,
    entries: Seq<DirectoryEntryV>,
    data_flags: u32,
    block_info_flags: u16,
) -> Result<Seq<u8>, BundleError> {
    let compression = data_flags & COMP_MASK;
    if compression == crate::flags::COMP_LZHAM {
        Err(BundleError::UnsupportedLzham)
    } else if data_flags & crate::flags::FLAG_BLOCKS_AND_DIR == 0 {
        Err(BundleError::MissingBlocksAndDirFlag)
    } else {
        match crate::codec::spec_compress_data_blocks(data, block_info_flags) {
            Err(e) => Err(e),
            Ok((cdata, bs)) => spec_write_tail(b, entries, data_flags, cdata, bs),
        }
    }
}

/// Outcome of writing a bundle that reuses a provided block layout
/// instead of the chunking policy.
pub open spec fn spec_write_bundle_with_layout(
    b: BundleV,
    data: Seq<u8>,
    entries: Seq<DirectoryEntryV>,
    data_flags: u32,
    layout: Seq<BlockInfo>,
) -> Result<Seq<u8>, BundleError> {
    let compression = data_flags & COMP_MASK;
    if compression == crate::flags::COMP_LZHAM {
        Err(BundleError::UnsupportedLzham)
    } else if data_flags & crate::flags::FLAG_BLOCKS_AND_DIR == 0 {
        Err(BundleError::MissingBlocksAndDirFlag)
    } else {
        match crate::writer::spec_layout_compress(data, 0, layout) {
            Err(e) => Err(e),
            Ok((cdata, bs)) => spec_write_tail(b, entries, data_flags, cdata, bs),
        }
    }
}

/// Shared tail of the two write paths: rebuild and compress the blob,
/// check the size fields, and assemble.
pub open spec fn spec_write_tail(
    b: BundleV,
    entries: Seq<DirectoryEntryV>,
    data_flags: u32,
    cdata: Seq<u8>,
    bs: Seq<BlockInfo>,
) -> Result<Seq<u8>, BundleError> {
    if bs.len() >= 0x8000_0000 || entries.len() >= 0x8000_0000 {
        Err(BundleError::SizeOverflow)
    } else {
        let blob = crate::blob::spec_block_info_blob(bs, entries);
        match crate::codec::spec_compress_block_info(blob, data_flags & COMP_MASK) {
            Err(e) => Err(e),
            Ok(cblob) => if blob.len() > u32::MAX || cblob.len() > u32::MAX {
                Err(BundleError::SizeOverflow)
            } else {
                Ok(
                    crate::writer::spec_assemble(
                        b.signature,
                        b.version,
                        b.version_player,
                        b.version_engine,
                        cblob,
                        blob.len() as u32,
                        data_flags,
                        b.uses_block_alignment,
                        cdata,
                    ),
                )
            },
        }
    }
}

/// Outcome of slicing one entry out of the expanded data stream.
pub open spec fn spec_extract_entry(data: Seq<u8>, entries: Seq<DirectoryEntryV>, idx: int)
    -> Result<Seq<u8>, BundleError> {
    if !(0 <= idx < entries.len()) {
        Err(BundleError::EntryIndexOutOfRange)
    } else {
        let e = entries[idx];
        if e.offset + e.size > data.len() {
            Err(BundleError::DataTooShort)
        } else {
            Ok(data.subrange(e.offset as int, e.offset + e.size))
        }
    }
}


/// Slice the raw data region out of a bundle file without expanding
/// blocks: everything from the data start to the end of the file. The
/// fallback source when a patched block table covers fewer bytes than
/// the entries require.
pub fn extract_raw_data(bytes: &Vec<u8>, data_start: usize) -> (r: Result<Vec<u8>, BundleError>)
    ensures
        match r {
            Ok(v) => data_start <= bytes@.len() && v@ == bytes@.skip(data_start as int),
            Err(e) => e == BundleError::Truncated && data_start > bytes@.len(),
        },
{
    if data_start > bytes.len() {
        return Err(BundleError::Truncated);
    }
    let mut out: Vec<u8> = Vec::new();
    crate::bytes::push_byte_range(&mut out, bytes, data_start, bytes.len());
    proof {
        assert(bytes@.subrange(data_start as int, bytes@.len() as int) =~= bytes@.skip(
            data_start as int,
        ));
    }
    Ok(out)
}

/// The bytes an entry contributes to the rebuilt data stream: the patched
/// bytes for the target entry, its old bytes for every other.
pub open spec fn spec_piece(
    data: Seq<u8>,
    es: Seq<DirectoryEntryV>,
    idx: int,
    patched: Seq<u8>,
    i: int,
) -> Seq<u8> {
    if i == idx {
        patched
    } else {
        data.subrange(es[i].offset as int, es[i].offset + es[i].size)
    }
}

/// The first `i` pieces of the rebuilt data stream, concatenated in
/// directory order.
pub open spec fn spec_rebuilt_data(
    data: Seq<u8>,
    es: Seq<DirectoryEntryV>,
    idx: int,
    patched: Seq<u8>,
    i: int,
) -> Seq<u8>
    decreases i,
{
    if i <= 0 {
        Seq::empty()
    } else {
        spec_rebuilt_data(data, es, idx, patched, i - 1) + spec_piece(data, es, idx, patched, i - 1)
    }
}

/// Sum of the expanded sizes of all blocks.
pub open spec fn spec_block_total(bs: Seq<BlockInfo>) -> int
    decreases bs.len(),
{
    if bs.len() == 0 {
        0
    } else {
        bs[0].uncompressed_size + spec_block_total(bs.skip(1))
    }
}

/// Sum of the on-disk sizes of all blocks.
pub open spec fn spec_block_csize_total(bs: Seq<BlockInfo>) -> int
    decreases bs.len(),
{
    if bs.len() == 0 {
        0
    } else {
        bs[0].compressed_size + spec_block_csize_total(bs.skip(1))
    }
}

/// Both block totals are non-negative and bounded by the count times the
/// largest block size.
pub proof fn lemma_block_total_bound(bs: Seq<BlockInfo>)
    ensures
        0 <= spec_block_total(bs) <= bs.len() * 0xFFFF_FFFF,
        0 <= spec_block_csize_total(bs),
    decreases bs.len(),
{
    if bs.len() > 0 {
        lemma_block_total_bound(bs.skip(1));
        assert((bs.len() - 1) * 0xFFFF_FFFF + 0xFFFF_FFFF == bs.len() * 0xFFFF_FFFF)
            by (nonlinear_arith);
    }
}

/// The largest end offset among the first `i` entries, zero when none.
pub open spec fn spec_max_end_upto(es: Seq<DirectoryEntryV>, i: int) -> int
    decreases i,
{
    if i <= 0 {
        0
    } else {
        let prev = spec_max_end_upto(es, i - 1);
        let end = es[i - 1].offset + es[i - 1].size;
        if end > prev {
            end
        } else {
            prev
        }
    }
}

/// The running maximum of entry end offsets never decreases.
pub proof fn lemma_max_end_monotone(es: Seq<DirectoryEntryV>, i: int, j: int)
    requires
        0 <= i <= j,
    ensures
        spec_max_end_upto(es, i) <= spec_max_end_upto(es, j),
    decreases j - i,
{
    if i < j {
        lemma_max_end_monotone(es, i, j - 1);
    }
}

impl UnityFsBundle {
    /// Internal consistency of a parsed bundle: the lists fit their
    /// signed 32-bit count fields.
    pub open spec fn wf(&self) -> bool {
        self@.blocks.len() < 0x8000_0000 && self@.entries.len() < 0x8000_0000
    }

    /// Parse a bundle file.
    #[verifier::rlimit(100)]
    pub fn read(bytes: &Vec<u8>) -> (r: Result<UnityFsBundle, BundleError>)
        requires
            bytes@.len() <= usize::MAX - 32,
        ensures
            match r {
                Ok(b) => spec_read(bytes@) == Ok::<BundleV, BundleError>(b@) && b.wf()
                    && b@.signature == spec_sig_unityfs(),
                Err(e) => spec_read(bytes@) == Err::<BundleV, BundleError>(e),
            },
    {
        let mut pos: usize = 0;
        let signature = match read_string_to_null(bytes, &mut pos) {
            Some(v) => v,
            None => {
                return Err(BundleError::Truncated);
            },
        };
        if !(signature.len() == 7 && signature[0] == 0x55 && signature[1] == 0x6E
            && signature[2] == 0x69 && signature[3] == 0x74 && signature[4] == 0x79
            && signature[5] == 0x46 && signature[6] == 0x53) {
            proof {
                assert(signature@ != spec_sig_unityfs());
            }
            return Err(BundleError::BadSignature);
        }
        proof {
            assert(signature@ =~= spec_sig_unityfs());
        }
        let version = match read_u32_be(bytes, &mut pos) {
            Some(v) => v,
            None => {
                return Err(BundleError::Truncated);
            },
        };
        let version_player = match read_string_to_null(bytes, &mut pos) {
            Some(v) => v,
            None => {
                return Err(BundleError::Truncated);
            },
        };
        let version_engine = match read_string_to_null(bytes, &mut pos) {
            Some(v) => v,
            None => {
                return Err(BundleError::Truncated);
            },
        };
        let ghost p3 = pos as int;
        let _size = match read_u64_be(bytes, &mut pos) {
            Some(v) => v,
            None => {
                return Err(BundleError::Truncated);
            },
        };
        let cis = match read_u32_be(bytes, &mut pos) {
            Some(v) => v,
            None => {
                return Err(BundleError::Truncated);
            },
        };
        let uis = match read_u32_be(bytes, &mut pos) {
            Some(v) => v,
            None => {
                return Err(BundleError::Truncated);
            },
        };
        let flags = match read_u32_be(bytes, &mut pos) {
            Some(v) => v,
            None => {
                return Err(BundleError::Truncated);
            },
        };
        let engine_version = parse_engine_version(&version_engine);
        let uses_new = match engine_version {
            Some(v) => uses_new_archive_flags(v.0, v.1, v.2),
            None => false,
        };
        proof {
            assert(uses_new == spec_new_flags_regime(version_engine@));
        }
        let encryption_flag = if uses_new {
            FLAG_ENCRYPTION_NEW
        } else {
            FLAG_ENCRYPTION_OLD
        };
        if flags & encryption_flag != 0 {
            return Err(BundleError::Encrypted);
        }
        // Pre-blob alignment: mandatory from format version seven; probed
        // from engine version 2019.4 below that.
        let mut uses_block_alignment = false;
        let ghost p4 = pos as int;
        if version >= 7 {
            let pad = padding_for_alignment(pos, 16);
            pos = pos + pad;
            uses_block_alignment = true;
        } else {
            let probe = match engine_version {
                Some(v) => v.0 > 2019 || (v.0 == 2019 && v.1 >= 4),
                None => false,
            };
            if probe {
                let pad = padding_for_alignment(pos, 16);
                if pad > 0 {
                    if pad > bytes.len() - pos {
                        proof {
                            assert(spec_align_step(bytes@, p4, version, version_engine@) == Err::<
                                (int, bool),
                                BundleError,
                            >(BundleError::Truncated));
                        }
                        return Err(BundleError::Truncated);
                    }
                    let mut all_zero = true;
                    let mut k: usize = 0;
                    proof {
                        assert(bytes@.subrange(pos as int, pos as int) =~= zero_bytes(0));
                    }
                    while k < pad
                        invariant
                            k <= pad,
                            pos + pad <= bytes@.len(),
                            bytes@.len() <= usize::MAX - 32,
                            all_zero <==> bytes@.subrange(pos as int, pos + k as int) == zero_bytes(
                                k as int,
                            ),
                        decreases pad - k,
                    {
                        let ghost pre = bytes@.subrange(pos as int, pos + k as int);
                        if bytes[pos + k] != 0 {
                            proof {
                                let whole = bytes@.subrange(pos as int, pos + pad as int);
                                assert(whole[k as int] == bytes@[pos + k]);
                                assert(whole != zero_bytes(pad as int));
                            }
                            all_zero = false;
                            proof {
                                let cur = bytes@.subrange(pos as int, pos + (k + 1) as int);
                                assert(cur[k as int] == bytes@[pos + k]);
                                assert(cur != zero_bytes(k + 1));
                            }
                        } else {
                            proof {
                                let cur = bytes@.subrange(pos as int, pos + (k + 1) as int);
                                if all_zero {
                                    assert(cur =~= zero_bytes(k + 1));
                                } else {
                                    assert(cur.subrange(0, k as int) =~= pre);
                                    if cur == zero_bytes(k + 1) {
                                        assert(pre =~= zero_bytes(k as int));
                                    }
                                }
                            }
                        }
                        k = k + 1;
                    }
                    if all_zero {
                        pos = pos + pad;
                        uses_block_alignment = true;
                    }
                }
            }
        }
        proof {
            assert(spec_align_step(bytes@, p4, version, version_engine@) == Ok::<
                (int, bool),
                BundleError,
            >((pos as int, uses_block_alignment)));
        }
        // Locate and read the compressed blob.
        let at_end = flags & FLAG_BLOCKS_INFO_AT_END != 0;
        let mut blob_comp: Vec<u8> = Vec::new();
        let next: usize;
        if at_end {
            if cis as u64 > bytes.len() as u64 {
                return Err(BundleError::Truncated);
            }
            crate::bytes::push_byte_range(&mut blob_comp, bytes, bytes.len() - cis as usize,
                bytes.len());
            next = pos;
        } else {
            if pos > bytes.len() || cis as u64 > (bytes.len() - pos) as u64 {
                return Err(BundleError::Truncated);
            }
            crate::bytes::push_byte_range(&mut blob_comp, bytes, pos, pos + cis as usize);
            next = pos + cis as usize;
        }
        let blob = match crate::codec::decompress_block_info(&blob_comp, uis, flags) {
            Ok(v) => v,
            Err(e) => {
                return Err(e);
            },
        };
        let (blocks, entries) = match parse_block_info(&blob) {
            Ok(p) => p,
            Err(e) => {
                return Err(e);
            },
        };
        let block_info_flags = if blocks.len() > 0 {
            blocks[0].flags
        } else {
            0
        };
        let data_start = if uses_new && flags & FLAG_BLOCK_INFO_NEED_PADDING != 0 {
            next + padding_for_alignment(next, 16)
        } else {
            next
        };
        let bundle = UnityFsBundle {
            signature,
            version,
            version_player,
            version_engine,
            flags,
            uses_block_alignment,
            data_start,
            block_info_flags,
            blocks,
            entries,
        };
        Ok(bundle)
    }

    /// The directory entries.
    pub fn entries(&self) -> (r: &Vec<DirectoryEntry>)
        ensures
            entries_view(r@) == self@.entries,
    {
        &self.entries
    }

    /// The block list.
    pub fn blocks(&self) -> (r: &Vec<BlockInfo>)
        ensures
            r@ == self@.blocks,
    {
        &self.blocks
    }

    /// The archive flag bitset.
    pub fn flags(&self) -> (r: u32)
        ensures
            r == self@.flags,
    {
        self.flags
    }

    /// The flag word of the first block, used as the recompression default.
    pub fn block_info_flags(&self) -> (r: u16)
        ensures
            r == self@.block_info_flags,
    {
        self.block_info_flags
    }

    /// The archive format version.
    pub fn version(&self) -> (r: u32)
        ensures
            r == self@.version,
    {
        self.version
    }

    /// The signature bytes.
    pub fn signature(&self) -> (r: &Vec<u8>)
        ensures
            r@ == self@.signature,
    {
        &self.signature
    }

    /// The engine version string bytes.
    pub fn version_engine(&self) -> (r: &Vec<u8>)
        ensures
            r@ == self@.version_engine,
    {
        &self.version_engine
    }

    /// Whether the data region is sixteen-byte aligned.
    pub fn uses_block_alignment(&self) -> (r: bool)
        ensures
            r == self@.uses_block_alignment,
    {
        self.uses_block_alignment
    }

    /// The file offset of the first data byte.
    pub fn data_start(&self) -> (r: usize)
        ensures
            r == self@.data_start,
    {
        self.data_start
    }

    /// Expand the whole data region of the bundle file into one contiguous
    /// stream, block by block.
    pub fn decompress_data(&self, bytes: &Vec<u8>) -> (r: Result<Vec<u8>, BundleError>)
        ensures
            match r {
                Ok(v) => spec_decompress_blocks(bytes@, self@.data_start, self@.blocks) == Ok::<
                    Seq<u8>,
                    BundleError,
                >(v@),
                Err(e) => spec_decompress_blocks(bytes@, self@.data_start, self@.blocks) == Err::<
                    Seq<u8>,
                    BundleError,
                >(e),
            },
    {
        if self.data_start > bytes.len() {
            if self.blocks.len() == 0 {
                proof {
                    assert(spec_decompress_blocks(bytes@, self@.data_start, self@.blocks) == Ok::<
                        Seq<u8>,
                        BundleError,
                    >(Seq::empty()));
                }
                let empty: Vec<u8> = Vec::new();
                proof {
                    assert(empty@ =~= Seq::<u8>::empty());
                }
                return Ok(empty);
            }
            return Err(BundleError::Truncated);
        }
        decompress_blocks(bytes, self.data_start, &self.blocks)
    }

    /// Rewrite the bundle as a fully-uncompressed, byte-addressable file:
    /// every block stored, the blob stored, boundaries and entries kept.
    pub fn unpack(&self, bytes: &Vec<u8>) -> (r: Result<Vec<u8>, BundleError>)
        ensures
            match r {
                Ok(v) => spec_unpack(self@, bytes@) == Ok::<Seq<u8>, BundleError>(v@),
                Err(e) => spec_unpack(self@, bytes@) == Err::<Seq<u8>, BundleError>(e),
            },
    {
        let mut ublocks: Vec<BlockInfo> = Vec::new();
        let mut i: usize = 0;
        while i < self.blocks.len()
            invariant
                i <= self.blocks@.len(),
                ublocks@ == spec_uncompressed_blocks(self.blocks@).take(i as int),
            decreases self.blocks@.len() - i,
        {
            let b = self.blocks[i];
            ublocks.push(
                BlockInfo {
                    uncompressed_size: b.uncompressed_size,
                    compressed_size: b.uncompressed_size,
                    flags: crate::flags::clear_compression_flags(b.flags),
                },
            );
            proof {
                assert(ublocks@ =~= spec_uncompressed_blocks(self.blocks@).take(i + 1));
            }
            i = i + 1;
        }
        proof {
            assert(ublocks@ =~= spec_uncompressed_blocks(self.blocks@));
        }
        let blob = match crate::blob::build_block_info_bytes(&ublocks, &self.entries) {
            Ok(v) => v,
            Err(e) => {
                return Err(e);
            },
        };
        if blob.len() as u64 > u32::MAX as u64 {
            return Err(BundleError::SizeOverflow);
        }
        let data = match self.decompress_data(bytes) {
            Ok(v) => v,
            Err(e) => {
                return Err(e);
            },
        };
        let data_flags = (self.flags & !COMP_MASK) | crate::flags::FLAG_BLOCKS_AND_DIR;
        Ok(
            crate::writer::assemble(
                &self.signature,
                self.version,
                &self.version_player,
                &self.version_engine,
                &blob,
                blob.len() as u32,
                data_flags,
                self.uses_block_alignment,
                &data,
            ),
        )
    }

    /// Write a bundle from an expanded data stream, recompressing it from
    /// scratch under the policy of `block_info_flags` and emitting the
    /// given entry list under this bundle's header.
    pub fn write_bundle(
        &self,
        data: &Vec<u8>,
        entries: &Vec<DirectoryEntry>,
        data_flags: u32,
        block_info_flags: u16,
    ) -> (r: Result<Vec<u8>, BundleError>)
        ensures
            match r {
                Ok(v) => spec_write_bundle(
                    self@,
                    data@,
                    entries_view(entries@),
                    data_flags,
                    block_info_flags,
                ) == Ok::<Seq<u8>, BundleError>(v@),
                Err(e) => spec_write_bundle(
                    self@,
                    data@,
                    entries_view(entries@),
                    data_flags,
                    block_info_flags,
                ) == Err::<Seq<u8>, BundleError>(e),
            },
    {
        let compression = data_flags & COMP_MASK;
        if compression == crate::flags::COMP_LZHAM {
            return Err(BundleError::UnsupportedLzham);
        }
        if data_flags & crate::flags::FLAG_BLOCKS_AND_DIR == 0 {
            return Err(BundleError::MissingBlocksAndDirFlag);
        }
        let (cdata, bs) = match crate::codec::compress_data_blocks(data, block_info_flags) {
            Ok(p) => p,
            Err(e) => {
                return Err(e);
            },
        };
        self.write_tail(entries, data_flags, cdata, bs)
    }

    /// Write a bundle from an expanded data stream, reusing a provided
    /// block layout instead of the chunking policy. The
    /// `block_info_flags` default is not consulted: each layout block
    /// carries its own flag word.
    pub fn write_bundle_with_layout(
        &self,
        data: &Vec<u8>,
        entries: &Vec<DirectoryEntry>,
        data_flags: u32,
        block_info_flags: u16,
        layout: &Vec<BlockInfo>,
    ) -> (r: Result<Vec<u8>, BundleError>)
        ensures
            match r {
                Ok(v) => spec_write_bundle_with_layout(
                    self@,
                    data@,
                    entries_view(entries@),
                    data_flags,
                    layout@,
                ) == Ok::<Seq<u8>, BundleError>(v@),
                Err(e) => spec_write_bundle_with_layout(
                    self@,
                    data@,
                    entries_view(entries@),
                    data_flags,
                    layout@,
                ) == Err::<Seq<u8>, BundleError>(e),
            },
    {
        let _ = block_info_flags;
        let compression = data_flags & COMP_MASK;
        if compression == crate::flags::COMP_LZHAM {
            return Err(BundleError::UnsupportedLzham);
        }
        if data_flags & crate::flags::FLAG_BLOCKS_AND_DIR == 0 {
            return Err(BundleError::MissingBlocksAndDirFlag);
        }
        let (cdata, bs) = match crate::writer::layout_compress(data, layout) {
            Ok(p) => p,
            Err(e) => {
                return Err(e);
            },
        };
        self.write_tail(entries, data_flags, cdata, bs)
    }

    /// Shared tail of the two write paths.
    fn write_tail(
        &self,
        entries: &Vec<DirectoryEntry>,
        data_flags: u32,
        cdata: Vec<u8>,
        bs: Vec<BlockInfo>,
    ) -> (r: Result<Vec<u8>, BundleError>)
        ensures
            match r {
                Ok(v) => spec_write_tail(self@, entries_view(entries@), data_flags, cdata@, bs@)
                    == Ok::<Seq<u8>, BundleError>(v@),
                Err(e) => spec_write_tail(self@, entries_view(entries@), data_flags, cdata@, bs@)
                    == Err::<Seq<u8>, BundleError>(e),
            },
    {
        let blob = match crate::blob::build_block_info_bytes(&bs, entries) {
            Ok(v) => v,
            Err(e) => {
                return Err(e);
            },
        };
        let cblob = match crate::codec::compress_block_info(&blob, data_flags & COMP_MASK) {
            Ok(v) => v,
            Err(e) => {
                return Err(e);
            },
        };
        if blob.len() as u64 > u32::MAX as u64 || cblob.len() as u64 > u32::MAX as u64 {
            return Err(BundleError::SizeOverflow);
        }
        Ok(
            crate::writer::assemble(
                &self.signature,
                self.version,
                &self.version_player,
                &self.version_engine,
                &cblob,
                blob.len() as u32,
                data_flags,
                self.uses_block_alignment,
                &cdata,
            ),
        )
    }

    /// Slice one entry out of the expanded data stream.
    pub fn extract_entry(&self, data: &Vec<u8>, entry_index: usize) -> (r: Result<
        Vec<u8>,
        BundleError,
    >)
        ensures
            match r {
                Ok(v) => spec_extract_entry(data@, self@.entries, entry_index as int) == Ok::<
                    Seq<u8>,
                    BundleError,
                >(v@),
                Err(e) => spec_extract_entry(data@, self@.entries, entry_index as int) == Err::<
                    Seq<u8>,
                    BundleError,
                >(e),
            },
    {
        if entry_index >= self.entries.len() {
            return Err(BundleError::EntryIndexOutOfRange);
        }
        let e = &self.entries[entry_index];
        if e.offset > data.len() as u64 || e.size > data.len() as u64 - e.offset {
            return Err(BundleError::DataTooShort);
        }
        let start = e.offset as usize;
        let end = (e.offset + e.size) as usize;
        let mut out: Vec<u8> = Vec::new();
        crate::bytes::push_byte_range(&mut out, data, start, end);
        Ok(out)
    }

    /// Rebuild the expanded data stream with the target entry's bytes
    /// replaced by `patched`, recomputing every entry offset: each entry
    /// starts where the previous one ends, sizes are unchanged except for
    /// the target, and flags and paths carry over. Succeeds exactly when
    /// every other entry lies inside `data` and the new total size fits
    /// the offset field.
    pub fn rebuild_data_file(
        &self,
        data: &Vec<u8>,
        entry_index: usize,
        patched: &Vec<u8>,
    ) -> (r: Result<(Vec<u8>, Vec<DirectoryEntry>), BundleError>)
        ensures
            ({
                let es = self@.entries;
                let idx = entry_index as int;
                let plen = patched@.len() as int;
                match r {
                    Ok(p) => {
                        let nd = p.0@;
                        let nes = entries_view(p.1@);
                        &&& forall|i: int|
                            0 <= i < es.len() && i != idx ==> (#[trigger] es[i]).offset
                                + es[i].size <= data@.len()
                        &&& crate::writer::spec_sum_new_sizes(es, idx, plen, es.len() as int)
                            <= u64::MAX
                        &&& nes.len() == es.len()
                        &&& forall|i: int|
                            0 <= i < es.len() ==> {
                                &&& (#[trigger] nes[i]).size == crate::writer::spec_new_entry_size(
                                    es,
                                    idx,
                                    plen,
                                    i,
                                )
                                &&& nes[i].offset == crate::writer::spec_sum_new_sizes(
                                    es,
                                    idx,
                                    plen,
                                    i,
                                )
                                &&& nes[i].flags == es[i].flags
                                &&& nes[i].path == es[i].path
                            }
                        &&& nd == spec_rebuilt_data(data@, es, idx, patched@, es.len() as int)
                        &&& nd.len() == crate::writer::spec_sum_new_sizes(
                            es,
                            idx,
                            plen,
                            es.len() as int,
                        )
                    },
                    Err(e) => {
                        &&& (e == BundleError::DataTooShort || e == BundleError::SizeOverflow)
                        &&& !((forall|i: int|
                            0 <= i < es.len() && i != idx ==> (#[trigger] es[i]).offset
                                + es[i].size <= data@.len())
                            && crate::writer::spec_sum_new_sizes(es, idx, plen, es.len() as int)
                            <= u64::MAX)
                    },
                }
            }),
    {
        let ghost es = self@.entries;
        let ghost idx = entry_index as int;
        let ghost plen = patched@.len() as int;
        let mut out: Vec<u8> = Vec::new();
        let mut new_entries: Vec<DirectoryEntry> = Vec::new();
        let mut offset: u64 = 0;
        let mut i: usize = 0;
        while i < self.entries.len()
            invariant
                i <= es.len(),
                es == self@.entries,
                es == entries_view(self.entries@),
                plen == patched@.len() as int,
                idx == entry_index as int,
                new_entries@.len() == i,
                offset == crate::writer::spec_sum_new_sizes(es, idx, plen, i as int),
                out@ == spec_rebuilt_data(data@, es, idx, patched@, i as int),
                out@.len() == offset,
                forall|j: int|
                    0 <= j < i && j != idx ==> (#[trigger] es[j]).offset + es[j].size
                        <= data@.len(),
                forall|j: int|
                    0 <= j < i ==> {
                        &&& (#[trigger] entries_view(new_entries@)[j]).size
                            == crate::writer::spec_new_entry_size(es, idx, plen, j)
                        &&& entries_view(new_entries@)[j].offset
                            == crate::writer::spec_sum_new_sizes(es, idx, plen, j)
                        &&& entries_view(new_entries@)[j].flags == es[j].flags
                        &&& entries_view(new_entries@)[j].path == es[j].path
                    },
            decreases es.len() - i,
        {
            let ghost out0 = out@;
            let e = &self.entries[i];
            proof {
                assert(es[i as int] == e@);
            }
            let size: u64;
            if i == entry_index {
                crate::bytes::push_bytes(&mut out, patched);
                size = patched.len() as u64;
            } else {
                if e.offset > data.len() as u64 || e.size > data.len() as u64 - e.offset {
                    proof {
                        assert(es[i as int].offset + es[i as int].size > data@.len());
                    }
                    return Err(BundleError::DataTooShort);
                }
                crate::bytes::push_byte_range(
                    &mut out,
                    data,
                    e.offset as usize,
                    (e.offset + e.size) as usize,
                );
                size = e.size;
            }
            proof {
                assert(out@ =~= out0 + spec_piece(data@, es, idx, patched@, i as int));
            }
            let mut path: Vec<u8> = Vec::new();
            crate::bytes::push_bytes(&mut path, &e.path);
            let new_entry = DirectoryEntry { offset, size, flags: e.flags, path };
            let ghost prev_entries = new_entries@;
            new_entries.push(new_entry);
            proof {
                assert(entries_view(new_entries@) =~= entries_view(prev_entries) + seq![
                    new_entry@,
                ]);
            }
            if size > u64::MAX - offset {
                proof {
                    crate::writer::lemma_sum_new_sizes_monotone(es, idx, plen, i + 1, es.len() as int);
                }
                return Err(BundleError::SizeOverflow);
            }
            offset = offset + size;
            i = i + 1;
        }
        Ok((out, new_entries))
    }

    /// Sum of the expanded sizes of all blocks: the length the expanded
    /// data stream should have.
    pub fn block_total(&self) -> (r: u64)
        requires
            self.wf(),
        ensures
            r == spec_block_total(self@.blocks),
    {
        let ghost bs = self@.blocks;
        proof {
            lemma_block_total_bound(bs);
            assert(bs.len() * 0xFFFF_FFFF <= 0x8000_0000int * 0xFFFF_FFFF) by (nonlinear_arith)
                requires
                    bs.len() <= 0x8000_0000,
            ;
            assert(bs.skip(0) =~= bs);
        }
        let mut total: u64 = 0;
        let mut i: usize = 0;
        while i < self.blocks.len()
            invariant
                i <= bs.len(),
                bs == self@.blocks,
                bs == self.blocks@,
                spec_block_total(bs) == total + spec_block_total(bs.skip(i as int)),
                spec_block_total(bs) <= 0x7FFF_FFFF_FFFF_FFFF,
                total <= spec_block_total(bs),
            decreases bs.len() - i,
        {
            let u = self.blocks[i].uncompressed_size;
            proof {
                let tail = bs.skip(i as int);
                assert(tail[0] == bs[i as int]);
                assert(tail.skip(1) =~= bs.skip(i + 1));
                lemma_block_total_bound(bs.skip(i + 1));
            }
            total = total + u as u64;
            i = i + 1;
        }
        proof {
            assert(bs.skip(bs.len() as int) =~= Seq::<BlockInfo>::empty());
        }
        total
    }

    /// The largest end offset any entry claims in the expanded stream.
    /// Fails when an entry's end does not fit the sixty-four-bit offset
    /// arithmetic.
    pub fn max_entry_end(&self) -> (r: Result<u64, BundleError>)
        ensures
            match r {
                Ok(v) => v == spec_max_end_upto(self@.entries, self@.entries.len() as int)
                    && spec_max_end_upto(self@.entries, self@.entries.len() as int) <= u64::MAX,
                Err(e) => e == BundleError::SizeOverflow && spec_max_end_upto(
                    self@.entries,
                    self@.entries.len() as int,
                ) > u64::MAX,
            },
    {
        let ghost es = self@.entries;
        let mut best: u64 = 0;
        let mut i: usize = 0;
        while i < self.entries.len()
            invariant
                i <= es.len(),
                es == self@.entries,
                es == entries_view(self.entries@),
                best == spec_max_end_upto(es, i as int),
            decreases es.len() - i,
        {
            let e = &self.entries[i];
            proof {
                assert(es[i as int] == e@);
            }
            if e.size > u64::MAX - e.offset {
                proof {
                    crate::bundle::lemma_max_end_monotone(es, i + 1, es.len() as int);
                }
                return Err(BundleError::SizeOverflow);
            }
            let end = e.offset + e.size;
            if end > best {
                best = end;
            }
            i = i + 1;
        }
        Ok(best)
    }

    /// Whether whole-bundle patching must fall back to the raw data
    /// region: true when the block table covers fewer bytes than the
    /// entries require.
    pub fn raw_data_fallback_needed(&self) -> (r: Result<bool, BundleError>)
        requires
            self.wf(),
        ensures
            match r {
                Ok(v) => v == (spec_block_total(self@.blocks) < spec_max_end_upto(
                    self@.entries,
                    self@.entries.len() as int,
                )),
                Err(e) => e == BundleError::SizeOverflow && spec_max_end_upto(
                    self@.entries,
                    self@.entries.len() as int,
                ) > u64::MAX,
            },
    {
        let bt = self.block_total();
        match self.max_entry_end() {
            Ok(m) => Ok(bt < m),
            Err(e) => Err(e),
        }
    }
}

} // verus!
