//! Per-block compression codec for the three active compression families:
//! stored, LZ4/LZ4HC (block format), and LZMA.
//!
//! The outside compression libraries are reached through the trusted
//! wrappers at the top of this module; everything stated about their
//! results goes through the uninterpreted names `lz4_pack`, `lz4_unpack`,
//! `lzma_pack` and `lzma_unpack`, each a pure function of the input bytes.
//!
//! An LZMA block on disk is the five-byte properties header followed at
//! once by the raw stream; the eight-byte uncompressed-size field of a
//! standard stream is stripped on write and synthesized from the
//! block-info table on read.

use std::io::{Read, Write};
use vstd::prelude::*;

use crate::bytes::{push_byte_range, u64_le_bytes, write_u64_le};
use crate::error::BundleError;
use crate::blob::BlockInfo;
use crate::flags::{
    spec_clear_compression, clear_compression_flags, COMP_LZ4, COMP_LZ4HC, COMP_LZHAM, COMP_LZMA,
    COMP_MASK, COMP_NONE,
};

verus! {

/// What `lz4::block::compress` produces for the given input under
/// high-compression level 9 without a size prefix; `None` when the call fails.
pub uninterp spec fn lz4_pack(data: Seq<u8>) -> Option<Seq<u8>>;

/// What `lz4::block::decompress` produces for the given input and expected
/// size; `None` when the call fails.
pub uninterp spec fn lz4_unpack(data: Seq<u8>, size: int) -> Option<Seq<u8>>;

/// What the LZMA encoder produces, as a whole stream in the standalone
/// `.lzma` layout, for the given input; `None` when the call fails.
pub uninterp spec fn lzma_pack(data: Seq<u8>) -> Option<Seq<u8>>;

/// What the LZMA decoder produces for a whole stream in the standalone
/// `.lzma` layout; `None` when the call fails.
pub uninterp spec fn lzma_unpack(stream: Seq<u8>) -> Option<Seq<u8>>;

/// Relies on `lz4::block::compress` with mode `HIGHCOMPRESSION(9)` and no
/// prepended size: the result is a function of the input bytes alone, and
/// the call fails only for inputs the library rejects (longer than
/// `i32::MAX`).
#[verifier::external_body]
fn lz4_compress_raw(data: &Vec<u8>) -> (r: Result<Vec<u8>, BundleError>)
    ensures
        match r {
            Ok(v) => lz4_pack(data@) == Some(v@),
            Err(e) => lz4_pack(data@) is None && e == BundleError::CodecFailed,
        },
{
    match lz4::block::compress(
        data.as_slice(),
        Some(lz4::block::CompressionMode::HIGHCOMPRESSION(9)),
        false,
    ) {
        Ok(v) => Ok(v),
        Err(_) => Err(BundleError::CodecFailed),
    }
}

/// Relies on `lz4::block::decompress` with an explicit uncompressed size:
/// the result is a function of the input bytes and the size alone, and is
/// never longer than the requested size (the library allocates that much
/// and truncates to what the decoder wrote).
#[verifier::external_body]
fn lz4_decompress_raw(data: &Vec<u8>, size: i32) -> (r: Result<Vec<u8>, BundleError>)
    requires
        size >= 0,
    ensures
        match r {
            Ok(v) => lz4_unpack(data@, size as int) == Some(v@) && v@.len() <= size,
            Err(e) => lz4_unpack(data@, size as int) is None && e == BundleError::CodecFailed,
        },
{
    match lz4::block::decompress(data.as_slice(), Some(size)) {
        Ok(v) => Ok(v),
        Err(_) => Err(BundleError::CodecFailed),
    }
}

/// Relies on `xz2::stream::Stream::new_lzma_encoder` and
/// `xz2::write::XzEncoder` with fixed options (preset 6, dictionary
/// `0x0080_0000`, literal-context bits 3, literal-position bits 0, position
/// bits 2, normal mode, binary-tree match finder, nice length 123): the
/// result is a function of the input bytes alone, in the standalone
/// `.lzma` layout whose header occupies the first thirteen bytes.
#[verifier::external_body]
fn lzma_encode_raw(data: &Vec<u8>) -> (r: Result<Vec<u8>, BundleError>)
    ensures
        match r {
            Ok(v) => lzma_pack(data@) == Some(v@) && v@.len() >= 13,
            Err(e) => lzma_pack(data@) is None && e == BundleError::CodecFailed,
        },
{
    let mut o = xz2::stream::LzmaOptions::new_preset(6).map_err(|_| BundleError::CodecFailed)?;
    o.dict_size(0x0080_0000).literal_context_bits(3).literal_position_bits(0).position_bits(2)
        .mode(xz2::stream::Mode::Normal).match_finder(xz2::stream::MatchFinder::BinaryTree4)
        .nice_len(123);
    let s = xz2::stream::Stream::new_lzma_encoder(&o).map_err(|_| BundleError::CodecFailed)?;
    let mut enc = xz2::write::XzEncoder::new_stream(Vec::new(), s);
    enc.write_all(data.as_slice()).map_err(|_| BundleError::CodecFailed)?;
    enc.finish().map_err(|_| BundleError::CodecFailed)
}

/// Relies on `xz2::stream::Stream::new_lzma_decoder` (memory limit
/// `u64::MAX`) and `xz2::read::XzDecoder` reading a whole standalone
/// `.lzma` stream to its end: the result is a function of the stream bytes
/// alone.
#[verifier::external_body]
fn lzma_decode_raw(stream_bytes: &Vec<u8>) -> (r: Result<Vec<u8>, BundleError>)
    ensures
        match r {
            Ok(v) => lzma_unpack(stream_bytes@) == Some(v@),
            Err(e) => lzma_unpack(stream_bytes@) is None && e == BundleError::CodecFailed,
        },
{
    let stream = match xz2::stream::Stream::new_lzma_decoder(u64::MAX) {
        Ok(s) => s,
        Err(_) => return Err(BundleError::CodecFailed),
    };
    let cursor = std::io::Cursor::new(stream_bytes.as_slice());
    let mut decoder = xz2::read::XzDecoder::new_stream(cursor, stream);
    let mut out: Vec<u8> = Vec::new();
    match decoder.read_to_end(&mut out) {
        Ok(_) => Ok(out),
        Err(_) => Err(BundleError::CodecFailed),
    }
}

// ---------------------------------------------------------------------------
// Verified codec built on the names
// ---------------------------------------------------------------------------

/// Outcome of LZ4-decoding `data` to `size` expanded bytes.
pub open spec fn spec_lz4_decompress(data: Seq<u8>, size: u32) -> Result<Seq<u8>, BundleError> {
    if size > 0x7FFF_FFFF {
        Err(BundleError::SizeOverflow)
    } else {
        match lz4_unpack(data, size as int) {
            Some(v) => Ok(v),
            None => Err(BundleError::CodecFailed),
        }
    }
}

/// LZ4-decode `data` to at most `size` expanded bytes.
pub fn lz4_decompress(data: &Vec<u8>, size: u32) -> (r: Result<Vec<u8>, BundleError>)
    ensures
        match r {
            Ok(v) => spec_lz4_decompress(data@, size) == Ok::<Seq<u8>, BundleError>(v@),
            Err(e) => spec_lz4_decompress(data@, size) == Err::<Seq<u8>, BundleError>(e),
        },
{
    if size > 0x7FFF_FFFF {
        return Err(BundleError::SizeOverflow);
    }
    lz4_decompress_raw(data, size as i32)
}

/// Outcome of LZ4-encoding `data`.
pub open spec fn spec_lz4_compress(data: Seq<u8>) -> Result<Seq<u8>, BundleError> {
    match lz4_pack(data) {
        Some(v) => Ok(v),
        None => Err(BundleError::CodecFailed),
    }
}

/// LZ4-encode `data` in block format.
pub fn lz4_compress(data: &Vec<u8>) -> (r: Result<Vec<u8>, BundleError>)
    ensures
        match r {
            Ok(v) => spec_lz4_compress(data@) == Ok::<Seq<u8>, BundleError>(v@),
            Err(e) => spec_lz4_compress(data@) == Err::<Seq<u8>, BundleError>(e),
        },
{
    lz4_compress_raw(data)
}

/// The standalone stream synthesized for an on-disk LZMA region: its five
/// header bytes, the out-of-band uncompressed size, then the raw stream.
pub open spec fn spec_lzma_stream(data: Seq<u8>, size: u64) -> Seq<u8> {
    data.subrange(0, 5) + u64_le_bytes(size) + data.skip(5)
}

/// Outcome of LZMA-decoding an on-disk region whose expanded size is
/// carried out of band.
pub open spec fn spec_lzma_decompress(data: Seq<u8>, size: u64) -> Result<Seq<u8>, BundleError> {
    if data.len() < 5 {
        Err(BundleError::LzmaHeaderTooShort)
    } else {
        match lzma_unpack(spec_lzma_stream(data, size)) {
            Some(v) => Ok(v),
            None => Err(BundleError::CodecFailed),
        }
    }
}

/// LZMA-decode an on-disk region, synthesizing the eight-byte size field
/// the standalone layout expects.
pub fn lzma_decompress(data: &Vec<u8>, size: u64) -> (r: Result<Vec<u8>, BundleError>)
    ensures
        match r {
            Ok(v) => spec_lzma_decompress(data@, size) == Ok::<Seq<u8>, BundleError>(v@),
            Err(e) => spec_lzma_decompress(data@, size) == Err::<Seq<u8>, BundleError>(e),
        },
{
    if data.len() < 5 {
        return Err(BundleError::LzmaHeaderTooShort);
    }
    let mut stream: Vec<u8> = Vec::new();
    push_byte_range(&mut stream, data, 0, 5);
    write_u64_le(&mut stream, size);
    push_byte_range(&mut stream, data, 5, data.len());
    proof {
        assert(data@.subrange(5, data@.len() as int) =~= data@.skip(5));
        assert(stream@ =~= spec_lzma_stream(data@, size));
    }
    lzma_decode_raw(&stream)
}

/// Outcome of LZMA-encoding `data` into the on-disk form: the standalone
/// stream with its eight-byte uncompressed-size field stripped.
pub open spec fn spec_lzma_compress(data: Seq<u8>) -> Result<Seq<u8>, BundleError> {
    match lzma_pack(data) {
        Some(e) => Ok(e.subrange(0, 5) + e.skip(13)),
        None => Err(BundleError::CodecFailed),
    }
}

/// LZMA-encode `data` and strip the size field to the on-disk form.
pub fn compress_lzma_bytes(data: &Vec<u8>) -> (r: Result<Vec<u8>, BundleError>)
    ensures
        match r {
            Ok(v) => spec_lzma_compress(data@) == Ok::<Seq<u8>, BundleError>(v@),
            Err(e) => spec_lzma_compress(data@) == Err::<Seq<u8>, BundleError>(e),
        },
{
    let encoded = match lzma_encode_raw(data) {
        Ok(v) => v,
        Err(e) => {
            return Err(e);
        },
    };
    let mut out: Vec<u8> = Vec::new();
    push_byte_range(&mut out, &encoded, 0, 5);
    push_byte_range(&mut out, &encoded, 13, encoded.len());
    proof {
        assert(encoded@.subrange(13, encoded@.len() as int) =~= encoded@.skip(13));
    }
    Ok(out)
}

// ---------------------------------------------------------------------------
// Block-info blob compression
// ---------------------------------------------------------------------------

/// Outcome of compressing the block-info blob under a top-level
/// compression code.
pub open spec fn spec_compress_block_info(data: Seq<u8>, compression: u32) -> Result<
    Seq<u8>,
    BundleError,
> {
    if compression == COMP_NONE {
        Ok(data)
    } else if compression == COMP_LZ4 || compression == COMP_LZ4HC {
        spec_lz4_compress(data)
    } else if compression == COMP_LZMA {
        spec_lzma_compress(data)
    } else if compression == COMP_LZHAM {
        Err(BundleError::UnsupportedLzham)
    } else {
        Err(BundleError::UnknownCompression)
    }
}

/// Compress the block-info blob under a top-level compression code.
pub fn compress_block_info(data: &Vec<u8>, compression: u32) -> (r: Result<Vec<u8>, BundleError>)
    ensures
        match r {
            Ok(v) => spec_compress_block_info(data@, compression) == Ok::<Seq<u8>, BundleError>(
                v@,
            ),
            Err(e) => spec_compress_block_info(data@, compression) == Err::<Seq<u8>, BundleError>(
                e,
            ),
        },
{
    if compression == COMP_NONE {
        let mut out: Vec<u8> = Vec::new();
        crate::bytes::push_bytes(&mut out, data);
        Ok(out)
    } else if compression == COMP_LZ4 || compression == COMP_LZ4HC {
        lz4_compress(data)
    } else if compression == COMP_LZMA {
        compress_lzma_bytes(data)
    } else if compression == COMP_LZHAM {
        Err(BundleError::UnsupportedLzham)
    } else {
        Err(BundleError::UnknownCompression)
    }
}

/// Outcome of expanding the block-info blob read from the file.
pub open spec fn spec_decompress_block_info(data: Seq<u8>, uncompressed_size: u32, flags: u32)
    -> Result<Seq<u8>, BundleError> {
    let compression = flags & COMP_MASK;
    if compression == COMP_NONE {
        Ok(data)
    } else if compression == COMP_LZ4 || compression == COMP_LZ4HC {
        spec_lz4_decompress(data, uncompressed_size)
    } else if compression == COMP_LZMA {
        spec_lzma_decompress(data, uncompressed_size as u64)
    } else if compression == COMP_LZHAM {
        Err(BundleError::UnsupportedLzham)
    } else {
        Err(BundleError::UnknownCompression)
    }
}

/// Expand the block-info blob read from the file.
pub fn decompress_block_info(data: &Vec<u8>, uncompressed_size: u32, flags: u32) -> (r: Result<
    Vec<u8>,
    BundleError,
>)
    ensures
        match r {
            Ok(v) => spec_decompress_block_info(data@, uncompressed_size, flags) == Ok::<
                Seq<u8>,
                BundleError,
            >(v@),
            Err(e) => spec_decompress_block_info(data@, uncompressed_size, flags) == Err::<
                Seq<u8>,
                BundleError,
            >(e),
        },
{
    let compression = flags & COMP_MASK;
    if compression == COMP_NONE {
        let mut out: Vec<u8> = Vec::new();
        crate::bytes::push_bytes(&mut out, data);
        Ok(out)
    } else if compression == COMP_LZ4 || compression == COMP_LZ4HC {
        lz4_decompress(data, uncompressed_size)
    } else if compression == COMP_LZMA {
        lzma_decompress(data, uncompressed_size as u64)
    } else if compression == COMP_LZHAM {
        Err(BundleError::UnsupportedLzham)
    } else {
        Err(BundleError::UnknownCompression)
    }
}

// ---------------------------------------------------------------------------
// Data-region expansion
// ---------------------------------------------------------------------------

/// Outcome of expanding one block region.
pub open spec fn spec_decompress_one(chunk: Seq<u8>, b: BlockInfo) -> Result<Seq<u8>, BundleError> {
    let compression = (b.flags as u32) & COMP_MASK;
    if compression == COMP_NONE {
        Ok(chunk)
    } else if compression == COMP_LZ4 || compression == COMP_LZ4HC {
        spec_lz4_decompress(chunk, b.uncompressed_size)
    } else if compression == COMP_LZMA {
        spec_lzma_decompress(chunk, b.uncompressed_size as u64)
    } else if compression == COMP_LZHAM {
        Err(BundleError::UnsupportedLzham)
    } else {
        Err(BundleError::UnknownCompression)
    }
}

/// Expand one block region.
pub fn decompress_one(chunk: &Vec<u8>, b: &BlockInfo) -> (r: Result<Vec<u8>, BundleError>)
    ensures
        match r {
            Ok(v) => spec_decompress_one(chunk@, *b) == Ok::<Seq<u8>, BundleError>(v@),
            Err(e) => spec_decompress_one(chunk@, *b) == Err::<Seq<u8>, BundleError>(e),
        },
{
    let compression = (b.flags as u32) & COMP_MASK;
    if compression == COMP_NONE {
        let mut out: Vec<u8> = Vec::new();
        crate::bytes::push_bytes(&mut out, chunk);
        Ok(out)
    } else if compression == COMP_LZ4 || compression == COMP_LZ4HC {
        lz4_decompress(chunk, b.uncompressed_size)
    } else if compression == COMP_LZMA {
        lzma_decompress(chunk, b.uncompressed_size as u64)
    } else if compression == COMP_LZHAM {
        Err(BundleError::UnsupportedLzham)
    } else {
        Err(BundleError::UnknownCompression)
    }
}

/// Append expanded bytes to the front of a block-expansion outcome.
pub open spec fn prepend_data(pre: Seq<u8>, r: Result<Seq<u8>, BundleError>) -> Result<
    Seq<u8>,
    BundleError,
> {
    match r {
        Ok(d) => Ok(pre + d),
        Err(e) => Err(e),
    }
}

/// Outcome of expanding every block of the data region, reading the
/// compressed regions back to back from `pos`.
pub open spec fn spec_decompress_blocks(data: Seq<u8>, pos: int, blocks: Seq<BlockInfo>) -> Result<
    Seq<u8>,
    BundleError,
>
    decreases blocks.len(),
{
    if blocks.len() == 0 {
        Ok(Seq::empty())
    } else {
        let b = blocks[0];
        let csize = b.compressed_size as int;
        if 0 <= pos && pos + csize <= data.len() {
            match spec_decompress_one(data.subrange(pos, pos + csize), b) {
                Ok(d) => prepend_data(d, spec_decompress_blocks(data, pos + csize, blocks.skip(1))),
                Err(e) => Err(e),
            }
        } else {
            Err(BundleError::Truncated)
        }
    }
}

/// Expand every block of the data region into one contiguous stream.
pub fn decompress_blocks(data: &Vec<u8>, start: usize, blocks: &Vec<BlockInfo>) -> (r: Result<
    Vec<u8>,
    BundleError,
>)
    requires
        start <= data@.len(),
    ensures
        match r {
            Ok(v) => spec_decompress_blocks(data@, start as int, blocks@) == Ok::<
                Seq<u8>,
                BundleError,
            >(v@),
            Err(e) => spec_decompress_blocks(data@, start as int, blocks@) == Err::<
                Seq<u8>,
                BundleError,
            >(e),
        },
{
    let mut out: Vec<u8> = Vec::new();
    let mut pos: usize = start;
    let mut i: usize = 0;
    proof {
        assert(blocks@.skip(0) =~= blocks@);
        match spec_decompress_blocks(data@, start as int, blocks@) {
            Ok(d) => {
                assert(Seq::<u8>::empty() + d =~= d);
            },
            Err(_) => {},
        }
    }
    while i < blocks.len()
        invariant
            i <= blocks@.len(),
            start <= pos <= data@.len(),
            spec_decompress_blocks(data@, start as int, blocks@) == prepend_data(
                out@,
                spec_decompress_blocks(data@, pos as int, blocks@.skip(i as int)),
            ),
        decreases blocks@.len() - i,
    {
        let ghost pos0 = pos as int;
        let ghost rest = blocks@.skip(i as int);
        proof {
            assert(rest[0] == blocks@[i as int]);
            assert(rest.skip(1) =~= blocks@.skip(i + 1));
        }
        let b = blocks[i];
        let csize = b.compressed_size as usize;
        if csize > data.len() - pos {
            proof {
                assert(spec_decompress_blocks(data@, pos0, rest) == Err::<Seq<u8>, BundleError>(
                    BundleError::Truncated,
                ));
            }
            return Err(BundleError::Truncated);
        }
        let mut chunk: Vec<u8> = Vec::new();
        push_byte_range(&mut chunk, data, pos, pos + csize);
        let piece = match decompress_one(&chunk, &b) {
            Ok(v) => v,
            Err(e) => {
                return Err(e);
            },
        };
        let ghost out0 = out@;
        crate::bytes::push_bytes(&mut out, &piece);
        pos = pos + csize;
        i = i + 1;
        proof {
            match spec_decompress_blocks(data@, pos as int, blocks@.skip(i as int)) {
                Ok(d) => {
                    assert(out0 + (piece@ + d) =~= out@ + d);
                },
                Err(_) => {},
            }
        }
    }
    proof {
        assert(blocks@.skip(blocks@.len() as int) =~= Seq::<BlockInfo>::empty());
        assert(out@ + Seq::<u8>::empty() =~= out@);
    }
    Ok(out)
}

// ---------------------------------------------------------------------------
// Data-region compression
// ---------------------------------------------------------------------------

/// Fixed chunk size of the LZ4 chunking policy.
pub const LZ4_CHUNK_SIZE: usize = 0x0002_0000;

/// Append a piece and a block record to the front of a compression outcome.
pub open spec fn prepend_compressed(
    piece: Seq<u8>,
    blk: BlockInfo,
    r: Result<(Seq<u8>, Seq<BlockInfo>), BundleError>,
) -> Result<(Seq<u8>, Seq<BlockInfo>), BundleError> {
    match r {
        Ok(p) => Ok((piece + p.0, seq![blk] + p.1)),
        Err(e) => Err(e),
    }
}

/// Outcome of the LZ4 chunking policy: split into fixed chunks, compress
/// each, and keep whichever of the compressed and stored forms is smaller.
pub open spec fn spec_lz4_chunks(data: Seq<u8>, block_info_flags: u16) -> Result<
    (Seq<u8>, Seq<BlockInfo>),
    BundleError,
>
    decreases data.len(),
{
    if data.len() == 0 {
        Ok((Seq::empty(), Seq::empty()))
    } else {
        let n = if data.len() < LZ4_CHUNK_SIZE as int {
            data.len() as int
        } else {
            LZ4_CHUNK_SIZE as int
        };
        let chunk = data.take(n);
        match lz4_pack(chunk) {
            None => Err(BundleError::CodecFailed),
            Some(c) => if c.len() > chunk.len() {
                prepend_compressed(
                    chunk,
                    BlockInfo {
                        uncompressed_size: n as u32,
                        compressed_size: n as u32,
                        flags: spec_clear_compression(block_info_flags),
                    },
                    spec_lz4_chunks(data.skip(n), block_info_flags),
                )
            } else {
                prepend_compressed(
                    c,
                    BlockInfo {
                        uncompressed_size: n as u32,
                        compressed_size: c.len() as u32,
                        flags: block_info_flags,
                    },
                    spec_lz4_chunks(data.skip(n), block_info_flags),
                )
            },
        }
    }
}

/// Outcome of recompressing the whole data stream under the uniform
/// per-block policy selected by `block_info_flags`.
pub open spec fn spec_compress_data_blocks(data: Seq<u8>, block_info_flags: u16) -> Result<
    (Seq<u8>, Seq<BlockInfo>),
    BundleError,
> {
    let compression = (block_info_flags as u32) & COMP_MASK;
    if compression == COMP_NONE || compression == COMP_LZMA {
        if data.len() > u32::MAX {
            Err(BundleError::TooLargeForSingleBlock)
        } else if compression == COMP_NONE {
            Ok(
                (
                    data,
                    seq![
                        BlockInfo {
                            uncompressed_size: data.len() as u32,
                            compressed_size: data.len() as u32,
                            flags: block_info_flags,
                        },
                    ],
                ),
            )
        } else {
            match spec_lzma_compress(data) {
                Err(e) => Err(e),
                Ok(stored) => if stored.len() >= data.len() {
                    Ok(
                        (
                            data,
                            seq![
                                BlockInfo {
                                    uncompressed_size: data.len() as u32,
                                    compressed_size: data.len() as u32,
                                    flags: spec_clear_compression(block_info_flags),
                                },
                            ],
                        ),
                    )
                } else {
                    Ok(
                        (
                            stored,
                            seq![
                                BlockInfo {
                                    uncompressed_size: data.len() as u32,
                                    compressed_size: stored.len() as u32,
                                    flags: block_info_flags,
                                },
                            ],
                        ),
                    )
                },
            }
        }
    } else if compression == COMP_LZ4 || compression == COMP_LZ4HC {
        spec_lz4_chunks(data, block_info_flags)
    } else if compression == COMP_LZHAM {
        Err(BundleError::UnsupportedLzham)
    } else {
        Err(BundleError::UnknownCompression)
    }
}

/// Recompress the whole data stream under the uniform per-block policy
/// selected by `block_info_flags`, returning the compressed stream and the
/// block table that describes it.
pub fn compress_data_blocks(data: &Vec<u8>, block_info_flags: u16) -> (r: Result<
    (Vec<u8>, Vec<BlockInfo>),
    BundleError,
>)
    ensures
        match r {
            Ok(p) => spec_compress_data_blocks(data@, block_info_flags) == Ok::<
                (Seq<u8>, Seq<BlockInfo>),
                BundleError,
            >((p.0@, p.1@)),
            Err(e) => spec_compress_data_blocks(data@, block_info_flags) == Err::<
                (Seq<u8>, Seq<BlockInfo>),
                BundleError,
            >(e),
        },
{
    let compression = (block_info_flags as u32) & COMP_MASK;
    if compression == COMP_NONE || compression == COMP_LZMA {
        if data.len() as u64 > u32::MAX as u64 {
            return Err(BundleError::TooLargeForSingleBlock);
        }
        if compression == COMP_NONE {
            let mut stored: Vec<u8> = Vec::new();
            crate::bytes::push_bytes(&mut stored, data);
            let blk = BlockInfo {
                uncompressed_size: data.len() as u32,
                compressed_size: data.len() as u32,
                flags: block_info_flags,
            };
            let mut blocks: Vec<BlockInfo> = Vec::new();
            blocks.push(blk);
            proof {
                assert(blocks@ =~= seq![blk]);
            }
            return Ok((stored, blocks));
        }
        let packed = match compress_lzma_bytes(data) {
            Ok(v) => v,
            Err(e) => {
                return Err(e);
            },
        };
        if packed.len() >= data.len() {
            let mut stored: Vec<u8> = Vec::new();
            crate::bytes::push_bytes(&mut stored, data);
            let blk = BlockInfo {
                uncompressed_size: data.len() as u32,
                compressed_size: data.len() as u32,
                flags: clear_compression_flags(block_info_flags),
            };
            let mut blocks: Vec<BlockInfo> = Vec::new();
            blocks.push(blk);
            proof {
                assert(blocks@ =~= seq![blk]);
            }
            Ok((stored, blocks))
        } else {
            let blk = BlockInfo {
                uncompressed_size: data.len() as u32,
                compressed_size: packed.len() as u32,
                flags: block_info_flags,
            };
            let mut blocks: Vec<BlockInfo> = Vec::new();
            blocks.push(blk);
            proof {
                assert(blocks@ =~= seq![blk]);
            }
            Ok((packed, blocks))
        }
    } else if compression == COMP_LZ4 || compression == COMP_LZ4HC {
        let mut out: Vec<u8> = Vec::new();
        let mut blocks: Vec<BlockInfo> = Vec::new();
        let mut pos: usize = 0;
        proof {
            assert(data@.skip(0) =~= data@);
            match spec_lz4_chunks(data@, block_info_flags) {
                Ok(p) => {
                    assert(Seq::<u8>::empty() + p.0 =~= p.0);
                    assert(Seq::<BlockInfo>::empty() + p.1 =~= p.1);
                },
                Err(_) => {},
            }
        }
        while pos < data.len()
            invariant
                pos <= data@.len(),
                (block_info_flags as u32) & COMP_MASK == COMP_LZ4 || (block_info_flags as u32)
                    & COMP_MASK == COMP_LZ4HC,
                spec_lz4_chunks(data@, block_info_flags) == match spec_lz4_chunks(
                    data@.skip(pos as int),
                    block_info_flags,
                ) {
                    Ok(p) => Ok::<(Seq<u8>, Seq<BlockInfo>), BundleError>(
                        (out@ + p.0, blocks@ + p.1),
                    ),
                    Err(e) => Err::<(Seq<u8>, Seq<BlockInfo>), BundleError>(e),
                },
            decreases data@.len() - pos,
        {
            let ghost tail = data@.skip(pos as int);
            let remaining = data.len() - pos;
            let n = if remaining < LZ4_CHUNK_SIZE {
                remaining
            } else {
                LZ4_CHUNK_SIZE
            };
            let mut chunk: Vec<u8> = Vec::new();
            push_byte_range(&mut chunk, data, pos, pos + n);
            proof {
                assert(chunk@ =~= tail.take(n as int));
                assert(tail.skip(n as int) =~= data@.skip(pos + n));
            }
            let packed = match lz4_compress(&chunk) {
                Ok(v) => v,
                Err(e) => {
                    proof {
                        assert(spec_lz4_chunks(tail, block_info_flags) == Err::<
                            (Seq<u8>, Seq<BlockInfo>),
                            BundleError,
                        >(BundleError::CodecFailed));
                    }
                    return Err(e);
                },
            };
            let ghost out0 = out@;
            let ghost blocks0 = blocks@;
            let ghost mut piece: Seq<u8> = Seq::empty();
            let blk: BlockInfo;
            if packed.len() > chunk.len() {
                crate::bytes::push_bytes(&mut out, &chunk);
                proof {
                    piece = chunk@;
                }
                blk = BlockInfo {
                    uncompressed_size: n as u32,
                    compressed_size: n as u32,
                    flags: clear_compression_flags(block_info_flags),
                };
            } else {
                crate::bytes::push_bytes(&mut out, &packed);
                proof {
                    piece = packed@;
                }
                blk = BlockInfo {
                    uncompressed_size: n as u32,
                    compressed_size: packed.len() as u32,
                    flags: block_info_flags,
                };
            }
            blocks.push(blk);
            pos = pos + n;
            proof {
                assert(out@ == out0 + piece);
                assert(blocks@ =~= blocks0 + seq![blk]);
                match spec_lz4_chunks(data@.skip(pos as int), block_info_flags) {
                    Ok(p) => {
                        assert(out0 + (piece + p.0) =~= out@ + p.0);
                        assert(blocks0 + (seq![blk] + p.1) =~= blocks@ + p.1);
                    },
                    Err(_) => {},
                }
            }
        }
        proof {
            assert(data@.skip(data@.len() as int) =~= Seq::<u8>::empty());
            assert(out@ + Seq::<u8>::empty() =~= out@);
            assert(blocks@ + Seq::<BlockInfo>::empty() =~= blocks@);
        }
        Ok((out, blocks))
    } else if compression == COMP_LZHAM {
        Err(BundleError::UnsupportedLzham)
    } else {
        Err(BundleError::UnknownCompression)
    }
}

} // verus!
