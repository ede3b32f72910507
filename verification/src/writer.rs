//! The bundle writer: assembling a well-formed bundle file from header
//! fields, a compressed block-info blob, and a compressed data stream.
//!
//! The header carries a total-size field that is known only once the body
//! is laid out; the assembler writes a placeholder and patches the field
//! afterwards, which the specification expresses by computing the final
//! length first.

use vstd::prelude::*;

use crate::blob::BlockInfo;
use crate::bytes::{
    align_writer, patch_u64_be, push_bytes, push_byte_range, spec_padding, u32_be_bytes,
    u64_be_bytes, write_string_to_null, write_u32_be, write_u64_be, zero_bytes,
};
use crate::codec::{lz4_compress, lz4_pack, compress_lzma_bytes, spec_lzma_compress};
use crate::error::BundleError;
use crate::flags::{
    clear_compression_flags, spec_clear_compression, COMP_LZ4, COMP_LZ4HC, COMP_LZHAM, COMP_LZMA,
    COMP_MASK, COMP_NONE, FLAG_BLOCKS_INFO_AT_END, FLAG_BLOCK_INFO_NEED_PADDING,
};

verus! {

/// The bytes of a whole bundle file assembled from its parts: the three
/// header strings and version, the size fields, the flag word, the
/// alignment padding the flags and version rules call for, and the blob
/// and data regions in the order the flags select.
pub open spec fn spec_assemble(
    sig: Seq<u8>,
    version: u32,
    player: Seq<u8>,
    engine: Seq<u8>,
    comp_blob: Seq<u8>,
    unc_info_size: u32,
    data_flags: u32,
    uses_block_alignment: bool,
    data: Seq<u8>,
) -> Seq<u8> {
    let pre = sig + seq![0u8] + u32_be_bytes(version) + player + seq![0u8] + engine + seq![0u8];
    let base = pre.len() + 20;
    let pad1 = if uses_block_alignment {
        spec_padding(base as int, 16)
    } else {
        0
    };
    let at_end = data_flags & FLAG_BLOCKS_INFO_AT_END != 0;
    let need_pad = data_flags & FLAG_BLOCK_INFO_NEED_PADDING != 0;
    let body = if at_end {
        let pad2 = if need_pad {
            spec_padding(base + pad1, 16)
        } else {
            0
        };
        zero_bytes(pad1) + zero_bytes(pad2) + data + comp_blob
    } else {
        let q = base + pad1 + comp_blob.len();
        let pad2 = if need_pad {
            spec_padding(q, 16)
        } else {
            0
        };
        zero_bytes(pad1) + comp_blob + zero_bytes(pad2) + data
    };
    let total = (base + body.len()) as u64;
    pre + u64_be_bytes(total) + u32_be_bytes(comp_blob.len() as u32) + u32_be_bytes(unc_info_size)
        + u32_be_bytes(data_flags) + body
}

/// Assemble a bundle file, back-patching the total-size field.
pub fn assemble(
    sig: &Vec<u8>,
    version: u32,
    player: &Vec<u8>,
    engine: &Vec<u8>,
    comp_blob: &Vec<u8>,
    unc_info_size: u32,
    data_flags: u32,
    uses_block_alignment: bool,
    data: &Vec<u8>,
) -> (r: Vec<u8>)
    requires
        comp_blob@.len() <= u32::MAX,
    ensures
        r@ == spec_assemble(
            sig@,
            version,
            player@,
            engine@,
            comp_blob@,
            unc_info_size,
            data_flags,
            uses_block_alignment,
            data@,
        ),
{
    let mut out: Vec<u8> = Vec::new();
    write_string_to_null(&mut out, sig);
    write_u32_be(&mut out, version);
    write_string_to_null(&mut out, player);
    write_string_to_null(&mut out, engine);
    let ghost pre = out@;
    let size_offset = out.len();
    write_u64_be(&mut out, 0);
    write_u32_be(&mut out, comp_blob.len() as u32);
    write_u32_be(&mut out, unc_info_size);
    write_u32_be(&mut out, data_flags);
    let ghost hdr = out@;
    let ghost base = out@.len() as int;
    proof {
        assert(base == pre.len() + 20);
    }
    if uses_block_alignment {
        align_writer(&mut out, 16);
    }
    let ghost pad1: int = out@.len() - base;
    let at_end = data_flags & FLAG_BLOCKS_INFO_AT_END != 0;
    let need_pad = data_flags & FLAG_BLOCK_INFO_NEED_PADDING != 0;
    if at_end {
        if need_pad {
            align_writer(&mut out, 16);
        }
        push_bytes(&mut out, data);
        push_bytes(&mut out, comp_blob);
    } else {
        push_bytes(&mut out, comp_blob);
        if need_pad {
            align_writer(&mut out, 16);
        }
        push_bytes(&mut out, data);
    }
    let total = out.len() as u64;
    patch_u64_be(&mut out, size_offset, total);
    proof {
        let body = if at_end {
            let pad2: int = if need_pad {
                spec_padding(base + pad1, 16)
            } else {
                0
            };
            zero_bytes(pad1) + zero_bytes(pad2) + data@ + comp_blob@
        } else {
            let q = base + pad1 + comp_blob@.len();
            let pad2: int = if need_pad {
                spec_padding(q, 16)
            } else {
                0
            };
            zero_bytes(pad1) + comp_blob@ + zero_bytes(pad2) + data@
        };
        assert(out@.len() == hdr.len() + body.len());
        assert(out@.subrange(0, size_offset as int) =~= pre);
        assert(out@ =~= pre + u64_be_bytes(total) + u32_be_bytes(comp_blob@.len() as u32)
            + u32_be_bytes(unc_info_size) + u32_be_bytes(data_flags) + body);
    }
    out
}

// ---------------------------------------------------------------------------
// Layout-preserving block compression
// ---------------------------------------------------------------------------

/// Outcome of re-encoding one chunk under a layout block's flag word: the
/// on-disk bytes and the block record that describes them. A compressed
/// form no smaller than the chunk is discarded in favor of the stored
/// form, with the compression code cleared.
pub open spec fn spec_layout_one(chunk: Seq<u8>, b: BlockInfo) -> Result<
    (Seq<u8>, BlockInfo),
    BundleError,
> {
    let compression = (b.flags as u32) & COMP_MASK;
    if compression == COMP_NONE {
        Ok(
            (
                chunk,
                BlockInfo {
                    uncompressed_size: b.uncompressed_size,
                    compressed_size: b.uncompressed_size,
                    flags: b.flags,
                },
            ),
        )
    } else if compression == COMP_LZ4 || compression == COMP_LZ4HC {
        match lz4_pack(chunk) {
            None => Err(BundleError::CodecFailed),
            Some(c) => if c.len() > chunk.len() {
                Ok(
                    (
                        chunk,
                        BlockInfo {
                            uncompressed_size: b.uncompressed_size,
                            compressed_size: b.uncompressed_size,
                            flags: spec_clear_compression(b.flags),
                        },
                    ),
                )
            } else {
                Ok(
                    (
                        c,
                        BlockInfo {
                            uncompressed_size: b.uncompressed_size,
                            compressed_size: c.len() as u32,
                            flags: b.flags,
                        },
                    ),
                )
            },
        }
    } else if compression == COMP_LZMA {
        match spec_lzma_compress(chunk) {
            Err(e) => Err(e),
            Ok(st) => if st.len() >= chunk.len() {
                Ok(
                    (
                        chunk,
                        BlockInfo {
                            uncompressed_size: b.uncompressed_size,
                            compressed_size: b.uncompressed_size,
                            flags: spec_clear_compression(b.flags),
                        },
                    ),
                )
            } else {
                Ok(
                    (
                        st,
                        BlockInfo {
                            uncompressed_size: b.uncompressed_size,
                            compressed_size: st.len() as u32,
                            flags: b.flags,
                        },
                    ),
                )
            },
        }
    } else if compression == COMP_LZHAM {
        Err(BundleError::UnsupportedLzham)
    } else {
        Err(BundleError::UnknownCompression)
    }
}

/// Re-encode one chunk under a layout block's flag word.
pub fn layout_one(chunk: &Vec<u8>, b: &BlockInfo) -> (r: Result<(Vec<u8>, BlockInfo), BundleError>)
    requires
        chunk@.len() == b.uncompressed_size,
    ensures
        match r {
            Ok(p) => spec_layout_one(chunk@, *b) == Ok::<(Seq<u8>, BlockInfo), BundleError>(
                (p.0@, p.1),
            ),
            Err(e) => spec_layout_one(chunk@, *b) == Err::<(Seq<u8>, BlockInfo), BundleError>(e),
        },
{
    let compression = (b.flags as u32) & COMP_MASK;
    if compression == COMP_NONE {
        let mut stored: Vec<u8> = Vec::new();
        push_bytes(&mut stored, chunk);
        Ok(
            (
                stored,
                BlockInfo {
                    uncompressed_size: b.uncompressed_size,
                    compressed_size: b.uncompressed_size,
                    flags: b.flags,
                },
            ),
        )
    } else if compression == COMP_LZ4 || compression == COMP_LZ4HC {
        let packed = match lz4_compress(chunk) {
            Ok(v) => v,
            Err(e) => {
                return Err(e);
            },
        };
        if packed.len() > chunk.len() {
            let mut stored: Vec<u8> = Vec::new();
            push_bytes(&mut stored, chunk);
            Ok(
                (
                    stored,
                    BlockInfo {
                        uncompressed_size: b.uncompressed_size,
                        compressed_size: b.uncompressed_size,
                        flags: clear_compression_flags(b.flags),
                    },
                ),
            )
        } else {
            let csize = packed.len() as u32;
            Ok(
                (
                    packed,
                    BlockInfo {
                        uncompressed_size: b.uncompressed_size,
                        compressed_size: csize,
                        flags: b.flags,
                    },
                ),
            )
        }
    } else if compression == COMP_LZMA {
        let packed = match compress_lzma_bytes(chunk) {
            Ok(v) => v,
            Err(e) => {
                return Err(e);
            },
        };
        if packed.len() >= chunk.len() {
            let mut stored: Vec<u8> = Vec::new();
            push_bytes(&mut stored, chunk);
            Ok(
                (
                    stored,
                    BlockInfo {
                        uncompressed_size: b.uncompressed_size,
                        compressed_size: b.uncompressed_size,
                        flags: clear_compression_flags(b.flags),
                    },
                ),
            )
        } else {
            let csize = packed.len() as u32;
            Ok(
                (
                    packed,
                    BlockInfo {
                        uncompressed_size: b.uncompressed_size,
                        compressed_size: csize,
                        flags: b.flags,
                    },
                ),
            )
        }
    } else if compression == COMP_LZHAM {
        Err(BundleError::UnsupportedLzham)
    } else {
        Err(BundleError::UnknownCompression)
    }
}

/// Outcome of re-encoding the data stream block by block under a given
/// layout: the layout's boundaries are kept and each block's bytes are
/// encoded under its own flag word. The layout must cover the stream
/// exactly.
pub open spec fn spec_layout_compress(data: Seq<u8>, pos: int, layout: Seq<BlockInfo>) -> Result<
    (Seq<u8>, Seq<BlockInfo>),
    BundleError,
>
    decreases layout.len(),
{
    if layout.len() == 0 {
        if pos == data.len() {
            Ok((Seq::empty(), Seq::empty()))
        } else {
            Err(BundleError::LayoutMismatch)
        }
    } else {
        let b = layout[0];
        let n = b.uncompressed_size as int;
        if !(0 <= pos && pos + n <= data.len()) {
            Err(BundleError::LayoutMismatch)
        } else {
            match spec_layout_one(data.subrange(pos, pos + n), b) {
                Err(e) => Err(e),
                Ok((piece, blk)) => match spec_layout_compress(data, pos + n, layout.skip(1)) {
                    Err(e) => Err(e),
                    Ok(p) => Ok((piece + p.0, seq![blk] + p.1)),
                },
            }
        }
    }
}

/// Re-encode the data stream block by block under a given layout.
pub fn layout_compress(data: &Vec<u8>, layout: &Vec<BlockInfo>) -> (r: Result<
    (Vec<u8>, Vec<BlockInfo>),
    BundleError,
>)
    ensures
        match r {
            Ok(p) => spec_layout_compress(data@, 0, layout@) == Ok::<
                (Seq<u8>, Seq<BlockInfo>),
                BundleError,
            >((p.0@, p.1@)),
            Err(e) => spec_layout_compress(data@, 0, layout@) == Err::<
                (Seq<u8>, Seq<BlockInfo>),
                BundleError,
            >(e),
        },
{
    let mut out: Vec<u8> = Vec::new();
    let mut blocks: Vec<BlockInfo> = Vec::new();
    let mut pos: usize = 0;
    let mut i: usize = 0;
    proof {
        assert(layout@.skip(0) =~= layout@);
        match spec_layout_compress(data@, 0, layout@) {
            Ok(p) => {
                assert(Seq::<u8>::empty() + p.0 =~= p.0);
                assert(Seq::<BlockInfo>::empty() + p.1 =~= p.1);
            },
            Err(_) => {},
        }
    }
    while i < layout.len()
        invariant
            i <= layout@.len(),
            pos <= data@.len(),
            spec_layout_compress(data@, 0, layout@) == match spec_layout_compress(
                data@,
                pos as int,
                layout@.skip(i as int),
            ) {
                Ok(p) => Ok::<(Seq<u8>, Seq<BlockInfo>), BundleError>((out@ + p.0, blocks@ + p.1)),
                Err(e) => Err::<(Seq<u8>, Seq<BlockInfo>), BundleError>(e),
            },
        decreases layout@.len() - i,
    {
        let ghost rest = layout@.skip(i as int);
        proof {
            assert(rest[0] == layout@[i as int]);
            assert(rest.skip(1) =~= layout@.skip(i + 1));
        }
        let b = layout[i];
        let n64 = b.uncompressed_size as u64;
        if n64 > (data.len() - pos) as u64 {
            proof {
                assert(spec_layout_compress(data@, pos as int, rest) == Err::<
                    (Seq<u8>, Seq<BlockInfo>),
                    BundleError,
                >(BundleError::LayoutMismatch));
            }
            return Err(BundleError::LayoutMismatch);
        }
        let n = b.uncompressed_size as usize;
        let mut chunk: Vec<u8> = Vec::new();
        push_byte_range(&mut chunk, data, pos, pos + n);
        let (piece, blk) = match layout_one(&chunk, &b) {
            Ok(p) => p,
            Err(e) => {
                return Err(e);
            },
        };
        let ghost out0 = out@;
        let ghost blocks0 = blocks@;
        push_bytes(&mut out, &piece);
        blocks.push(blk);
        pos = pos + n;
        i = i + 1;
        proof {
            assert(blocks@ =~= blocks0 + seq![blk]);
            match spec_layout_compress(data@, pos as int, layout@.skip(i as int)) {
                Ok(p) => {
                    assert(out0 + (piece@ + p.0) =~= out@ + p.0);
                    assert(blocks0 + (seq![blk] + p.1) =~= blocks@ + p.1);
                },
                Err(_) => {},
            }
        }
    }
    if pos != data.len() {
        proof {
            assert(layout@.skip(layout@.len() as int) =~= Seq::<BlockInfo>::empty());
        }
        return Err(BundleError::LayoutMismatch);
    }
    proof {
        assert(layout@.skip(layout@.len() as int) =~= Seq::<BlockInfo>::empty());
        assert(out@ + Seq::<u8>::empty() =~= out@);
        assert(blocks@ + Seq::<BlockInfo>::empty() =~= blocks@);
    }
    Ok((out, blocks))
}

// ---------------------------------------------------------------------------
// Entry splicing
// ---------------------------------------------------------------------------

/// The size an entry has after the target entry is replaced by the
/// patched bytes.
pub open spec fn spec_new_entry_size(
    entries: Seq<crate::blob::DirectoryEntryV>,
    idx: int,
    patched_len: int,
    i: int,
) -> int {
    if i == idx {
        patched_len
    } else {
        entries[i].size as int
    }
}

/// Sum of the first `i` post-replacement entry sizes: the offset the
/// `i`-th entry has in the rebuilt stream.
pub open spec fn spec_sum_new_sizes(
    entries: Seq<crate::blob::DirectoryEntryV>,
    idx: int,
    patched_len: int,
    i: int,
) -> int
    decreases i,
{
    if i <= 0 {
        0
    } else {
        spec_sum_new_sizes(entries, idx, patched_len, i - 1) + spec_new_entry_size(
            entries,
            idx,
            patched_len,
            i - 1,
        )
    }
}

/// Partial sums of post-replacement sizes grow with the index.
pub proof fn lemma_sum_new_sizes_monotone(
    entries: Seq<crate::blob::DirectoryEntryV>,
    idx: int,
    patched_len: int,
    i: int,
    j: int,
)
    requires
        0 <= i <= j,
        patched_len >= 0,
    ensures
        spec_sum_new_sizes(entries, idx, patched_len, i) <= spec_sum_new_sizes(
            entries,
            idx,
            patched_len,
            j,
        ),
    decreases j - i,
{
    if i < j {
        lemma_sum_new_sizes_monotone(entries, idx, patched_len, i, j - 1);
    }
}

} // verus!
