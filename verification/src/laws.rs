//! Cross-cutting properties of the codec, proved from the specifications
//! of the reader, the writer and the rebuild step: what a parsed bundle
//! guarantees, and that reading back a written bundle returns the lists
//! and data it was written from.

use vstd::prelude::*;

use crate::blob::{
    spec_block_info_blob, spec_parse_block_info, spec_parse_blocks, spec_parse_entries, BlockInfo,
    DirectoryEntryV,
};
use crate::bundle::{
    spec_align_step, spec_block_csize_total, spec_encryption_flag, spec_new_flags_regime,
    spec_probe_eligible, spec_read, spec_sig_unityfs, spec_unpack, spec_uncompressed_blocks,
    BundleV,
};
use crate::bytes::{find_null, spec_padding, zero_bytes, zero_free};
use crate::codec::{spec_decompress_blocks, spec_decompress_one};
use crate::error::BundleError;
use crate::flags::{
    spec_clear_compression, COMP_MASK, FLAG_BLOCKS_AND_DIR, FLAG_BLOCKS_INFO_AT_END,
    FLAG_BLOCK_INFO_NEED_PADDING,
};
use crate::writer::{spec_assemble, spec_layout_compress, spec_layout_one};

verus! {

/// A parsed block list has exactly the declared number of records.
pub proof fn lemma_parse_blocks_len(b: Seq<u8>, pos: int, n: nat)
    ensures
        match spec_parse_blocks(b, pos, n) {
            Some(p) => p.0.len() == n,
            None => true,
        },
    decreases n,
{
    if n > 0 {
        lemma_parse_blocks_len(b, pos + 10, (n - 1) as nat);
    }
}

/// A parsed entry list has exactly the declared number of records, and
/// every parsed path is free of zero bytes.
pub proof fn lemma_parse_entries_len(b: Seq<u8>, pos: int, n: nat)
    ensures
        match spec_parse_entries(b, pos, n) {
            Some(p) => p.0.len() == n && forall|k: int|
                0 <= k < p.0.len() ==> zero_free(#[trigger] p.0[k].path),
            None => true,
        },
    decreases n,
{
    if n > 0 {
        if 0 <= pos && pos + 20 <= b.len() {
            let nul = find_null(b, pos + 20);
            if nul < b.len() {
                crate::bytes::lemma_find_null_bounds(b, pos + 20);
                lemma_parse_entries_len(b, nul + 1, (n - 1) as nat);
                match spec_parse_entries(b, nul + 1, (n - 1) as nat) {
                    Some(p) => {
                        let e = DirectoryEntryV {
                            offset: crate::bytes::u64_at(b, pos),
                            size: crate::bytes::u64_at(b, pos + 8),
                            flags: crate::bytes::u32_at(b, pos + 16),
                            path: b.subrange(pos + 20, nul),
                        };
                        assert(zero_free(e.path));
                        assert forall|k: int|
                            0 <= k < (seq![e] + p.0).len() implies zero_free(
                            #[trigger] (seq![e] + p.0)[k].path,
                        ) by {
                            if k > 0 {
                                assert((seq![e] + p.0)[k] == p.0[k - 1]);
                            }
                        }
                    },
                    None => {},
                }
            }
        }
    }
}

/// What a successful parse guarantees about the bundle it returns: the
/// signature, string fields free of zero bytes, list counts inside the
/// signed 32-bit range, zero-free entry paths, and a clear encryption
/// bit under the version-appropriate mask.
pub proof fn lemma_read_wf(bytes: Seq<u8>, b: BundleV)
    requires
        spec_read(bytes) == Ok::<BundleV, BundleError>(b),
    ensures
        b.signature == spec_sig_unityfs(),
        zero_free(b.version_player),
        zero_free(b.version_engine),
        b.blocks.len() < 0x8000_0000,
        b.entries.len() < 0x8000_0000,
        forall|k: int| 0 <= k < b.entries.len() ==> zero_free(#[trigger] b.entries[k].path),
        b.flags & spec_encryption_flag(b.version_engine) == 0,
        b.version >= 7 ==> b.uses_block_alignment,
        b.version < 7 && b.uses_block_alignment ==> spec_probe_eligible(b.version_engine),
{
    let sig_end = find_null(bytes, 0);
    crate::bytes::lemma_find_null_bounds(bytes, 0);
    let p0 = sig_end + 1;
    let pe = find_null(bytes, p0 + 4);
    crate::bytes::lemma_find_null_bounds(bytes, p0 + 4);
    let ee = find_null(bytes, pe + 1);
    crate::bytes::lemma_find_null_bounds(bytes, pe + 1);
    let engine = bytes.subrange(pe + 1, ee);
    let p3 = ee + 1;
    let cis = crate::bytes::u32_at(bytes, p3 + 8);
    let uis = crate::bytes::u32_at(bytes, p3 + 12);
    let flags = crate::bytes::u32_at(bytes, p3 + 16);
    match spec_align_step(bytes, p3 + 20, b.version, engine) {
        Err(_) => {},
        Ok((p5, uba)) => {
            let at_end = flags & FLAG_BLOCKS_INFO_AT_END != 0;
            let blob_comp = if at_end {
                bytes.subrange(bytes.len() - cis, bytes.len() as int)
            } else {
                bytes.subrange(p5, p5 + cis)
            };
            match crate::codec::spec_decompress_block_info(blob_comp, uis, flags) {
                Err(_) => {},
                Ok(blob) => {
                    if blob.len() >= 20 {
                        let nb = crate::bytes::u32_at(blob, 16);
                        lemma_parse_blocks_len(blob, 20, nb as nat);
                        match spec_parse_blocks(blob, 20, nb as nat) {
                            None => {},
                            Some((bs, p1)) => {
                                let ne = crate::bytes::u32_at(blob, p1);
                                lemma_parse_entries_len(blob, p1 + 4, ne as nat);
                            },
                        }
                    }
                },
            }
        },
    }
}

/// Expanding a run of stored blocks reproduces the raw bytes they cover.
pub proof fn lemma_decompress_stored(file: Seq<u8>, pos: int, bs: Seq<BlockInfo>, data: Seq<u8>)
    requires
        0 <= pos,
        forall|k: int| 0 <= k < bs.len() ==> ((#[trigger] bs[k]).flags as u32) & COMP_MASK == 0,
        spec_block_csize_total(bs) == data.len(),
        pos + data.len() <= file.len(),
        file.subrange(pos, pos + data.len()) == data,
    ensures
        spec_decompress_blocks(file, pos, bs) == Ok::<Seq<u8>, BundleError>(data),
    decreases bs.len(),
{
    if bs.len() == 0 {
        assert(data =~= Seq::<u8>::empty());
    } else {
        let b = bs[0];
        let csize = b.compressed_size as int;
        crate::bundle::lemma_block_total_bound(bs.skip(1));
        let rest_total = spec_block_csize_total(bs.skip(1));
        assert(csize + rest_total == data.len());
        let chunk = file.subrange(pos, pos + csize);
        assert(spec_decompress_one(chunk, b) == Ok::<Seq<u8>, BundleError>(chunk));
        let rest_data = data.skip(csize);
        assert(file.subrange(pos + csize, pos + csize + rest_data.len()) =~= rest_data) by {
            assert forall|k: int| 0 <= k < rest_data.len() implies file.subrange(
                pos + csize,
                pos + csize + rest_data.len(),
            )[k] == rest_data[k] by {
                assert(file.subrange(pos, pos + data.len())[csize + k] == file[pos + csize + k]);
                assert(data[csize + k] == rest_data[k]);
            }
        }
        assert forall|k: int| 0 <= k < bs.skip(1).len() implies ((#[trigger] bs.skip(
            1,
        )[k]).flags as u32) & COMP_MASK == 0 by {
            assert(bs.skip(1)[k] == bs[k + 1]);
        }
        lemma_decompress_stored(file, pos + csize, bs.skip(1), rest_data);
        assert(chunk + rest_data =~= data) by {
            assert forall|k: int| 0 <= k < data.len() implies (chunk + rest_data)[k] == data[k] by {
                if k < csize {
                    assert(chunk[k] == file[pos + k]);
                    assert(file.subrange(pos, pos + data.len())[k] == file[pos + k]);
                }
            }
        }
    }
}

/// Re-encoding stored blocks under their own layout is the identity: the
/// pieces are the raw chunks and the records are unchanged.
pub proof fn lemma_layout_stored(data: Seq<u8>, pos: int, layout: Seq<BlockInfo>)
    requires
        0 <= pos <= data.len(),
        forall|k: int| 0 <= k < layout.len() ==> ((#[trigger] layout[k]).flags as u32) & COMP_MASK
            == 0 && layout[k].compressed_size == layout[k].uncompressed_size,
        spec_block_csize_total(layout) == data.len() - pos,
    ensures
        spec_layout_compress(data, pos, layout) == Ok::<(Seq<u8>, Seq<BlockInfo>), BundleError>(
            (data.skip(pos), layout),
        ),
    decreases layout.len(),
{
    if layout.len() == 0 {
        assert(data.skip(pos) =~= Seq::<u8>::empty());
        assert(layout =~= Seq::<BlockInfo>::empty());
    } else {
        let b = layout[0];
        let n = b.uncompressed_size as int;
        crate::bundle::lemma_block_total_bound(layout.skip(1));
        assert(pos + n <= data.len());
        let chunk = data.subrange(pos, pos + n);
        assert(spec_layout_one(chunk, b) == Ok::<(Seq<u8>, BlockInfo), BundleError>((chunk, b)));
        assert forall|k: int| 0 <= k < layout.skip(1).len() implies ((#[trigger] layout.skip(
            1,
        )[k]).flags as u32) & COMP_MASK == 0 && layout.skip(1)[k].compressed_size == layout.skip(
            1,
        )[k].uncompressed_size by {
            assert(layout.skip(1)[k] == layout[k + 1]);
        }
        lemma_layout_stored(data, pos + n, layout.skip(1));
        assert(chunk + data.skip(pos + n) =~= data.skip(pos));
        assert(seq![b] + layout.skip(1) =~= layout);
    }
}


/// A bundle file assembled from the given parts with the block-info
/// blob stored uncompressed.
pub open spec fn spec_assembled_stored(
    version: u32,
    player: Seq<u8>,
    engine: Seq<u8>,
    bs: Seq<BlockInfo>,
    es: Seq<DirectoryEntryV>,
    data_flags: u32,
    uba: bool,
    data: Seq<u8>,
) -> Seq<u8> {
    let blob = spec_block_info_blob(bs, es);
    spec_assemble(
        spec_sig_unityfs(),
        version,
        player,
        engine,
        blob,
        blob.len() as u32,
        data_flags,
        uba,
        data,
    )
}


/// A header followed by an arbitrary body: the three strings and the
/// version, then the total-size, blob-size and flag fields.
pub open spec fn spec_header_then(
    version: u32,
    player: Seq<u8>,
    engine: Seq<u8>,
    total: u64,
    cis32: u32,
    uis32: u32,
    flagsw: u32,
    body: Seq<u8>,
) -> Seq<u8> {
    spec_sig_unityfs() + seq![0u8] + crate::bytes::u32_be_bytes(version) + player + seq![0u8]
        + engine + seq![0u8] + crate::bytes::u64_be_bytes(total) + crate::bytes::u32_be_bytes(cis32)
        + crate::bytes::u32_be_bytes(uis32) + crate::bytes::u32_be_bytes(flagsw) + body
}

/// Where each header field of [`spec_header_then`] lies, and what reading
/// it back returns.
#[verifier::rlimit(100)]
#[verifier::spinoff_prover]
pub proof fn lemma_header_fields(
    version: u32,
    player: Seq<u8>,
    engine: Seq<u8>,
    total: u64,
    cis32: u32,
    uis32: u32,
    flagsw: u32,
    body: Seq<u8>,
)
    requires
        zero_free(player),
        zero_free(engine),
    ensures
        ({
            let out = spec_header_then(version, player, engine, total, cis32, uis32, flagsw, body);
            let lp = player.len() as int;
            let le = engine.len() as int;
            let p3 = 14 + lp + le;
            let base = p3 + 20;
            &&& out.len() == base + body.len()
            &&& find_null(out, 0) == 7
            &&& out.subrange(0, 7) == spec_sig_unityfs()
            &&& crate::bytes::u32_at(out, 8) == version
            &&& find_null(out, 12) == 12 + lp
            &&& out.subrange(12, 12 + lp) == player
            &&& find_null(out, 13 + lp) == 13 + lp + le
            &&& out.subrange(13 + lp, 13 + lp + le) == engine
            &&& crate::bytes::u32_at(out, p3 + 8) == cis32
            &&& crate::bytes::u32_at(out, p3 + 12) == uis32
            &&& crate::bytes::u32_at(out, p3 + 16) == flagsw
            &&& forall|i: int| base <= i < out.len() ==> out[i] == body[i - base]
        }),
{
    let sig = spec_sig_unityfs();
    let out = spec_header_then(version, player, engine, total, cis32, uis32, flagsw, body);
    let lp = player.len() as int;
    let le = engine.len() as int;
    let p3 = 14 + lp + le;
    let base = p3 + 20;
    let pre = sig + seq![0u8] + crate::bytes::u32_be_bytes(version) + player + seq![0u8] + engine
        + seq![0u8];
    assert(pre.len() == p3);
    assert(out.len() == base + body.len());
    assert forall|i: int| 0 <= i < 7 implies out[i] == sig[i] by {
        assert(pre[i] == sig[i]);
        assert(out[i] == pre[i]);
    }
    assert(out[7] == 0) by {
        assert(pre[7] == (sig + seq![0u8])[7]);
        assert(out[7] == pre[7]);
    }
    assert(sig[0] != 0 && sig[1] != 0 && sig[2] != 0 && sig[3] != 0 && sig[4] != 0 && sig[5] != 0
        && sig[6] != 0);
    crate::bytes::lemma_find_null_is(out, 0, 7);
    assert(out.subrange(0, 7) =~= sig);
    assert forall|i: int| 8 <= i < 12 implies out[i] == crate::bytes::u32_be_bytes(version)[i
        - 8] by {
        assert(pre[i] == crate::bytes::u32_be_bytes(version)[i - 8]);
        assert(out[i] == pre[i]);
    }
    assert(out.subrange(8, 12) =~= crate::bytes::u32_be_bytes(version));
    crate::bytes::lemma_u32_be_read(out, 8, version);
    assert forall|i: int| 12 <= i < 12 + lp implies out[i] == player[i - 12] by {
        assert(pre[i] == player[i - 12]);
        assert(out[i] == pre[i]);
    }
    assert(out[12 + lp] == 0) by {
        assert(pre[12 + lp] == 0);
        assert(out[12 + lp] == pre[12 + lp]);
    }
    crate::bytes::lemma_find_null_is(out, 12, 12 + lp);
    assert(out.subrange(12, 12 + lp) =~= player);
    let pe0 = 13 + lp;
    assert forall|i: int| pe0 <= i < pe0 + le implies out[i] == engine[i - pe0] by {
        assert(pre[i] == engine[i - pe0]);
        assert(out[i] == pre[i]);
    }
    assert(out[pe0 + le] == 0) by {
        assert(pre[pe0 + le] == 0);
        assert(out[pe0 + le] == pre[pe0 + le]);
    }
    crate::bytes::lemma_find_null_is(out, pe0, pe0 + le);
    assert(out.subrange(pe0, pe0 + le) =~= engine);
    assert forall|i: int| p3 + 8 <= i < p3 + 12 implies out[i] == crate::bytes::u32_be_bytes(cis32)[
        i - p3 - 8] by {
        assert((pre + crate::bytes::u64_be_bytes(total) + crate::bytes::u32_be_bytes(cis32))[i]
            == crate::bytes::u32_be_bytes(cis32)[i - p3 - 8]);
    }
    assert(out.subrange(p3 + 8, p3 + 12) =~= crate::bytes::u32_be_bytes(cis32));
    crate::bytes::lemma_u32_be_read(out, p3 + 8, cis32);
    assert forall|i: int| p3 + 12 <= i < p3 + 16 implies out[i] == crate::bytes::u32_be_bytes(
        uis32,
    )[i - p3 - 12] by {
        assert((pre + crate::bytes::u64_be_bytes(total) + crate::bytes::u32_be_bytes(cis32)
            + crate::bytes::u32_be_bytes(uis32))[i] == crate::bytes::u32_be_bytes(uis32)[i - p3
            - 12]);
    }
    assert(out.subrange(p3 + 12, p3 + 16) =~= crate::bytes::u32_be_bytes(uis32));
    crate::bytes::lemma_u32_be_read(out, p3 + 12, uis32);
    assert forall|i: int| p3 + 16 <= i < p3 + 20 implies out[i] == crate::bytes::u32_be_bytes(
        flagsw,
    )[i - p3 - 16] by {
        assert((pre + crate::bytes::u64_be_bytes(total) + crate::bytes::u32_be_bytes(cis32)
            + crate::bytes::u32_be_bytes(uis32) + crate::bytes::u32_be_bytes(flagsw))[i]
            == crate::bytes::u32_be_bytes(flagsw)[i - p3 - 16]);
    }
    assert(out.subrange(p3 + 16, p3 + 20) =~= crate::bytes::u32_be_bytes(flagsw));
    crate::bytes::lemma_u32_be_read(out, p3 + 16, flagsw);
}


/// Evaluate the reader on a file about which only the field-position
/// facts are known: where the strings end, what the size and flag fields
/// hold, how the alignment step comes out, and that the blob region
/// holds the stored blob of the given lists.
#[verifier::rlimit(100)]
#[verifier::spinoff_prover]
pub proof fn lemma_read_eval(
    out: Seq<u8>,
    version: u32,
    player: Seq<u8>,
    engine: Seq<u8>,
    bs: Seq<BlockInfo>,
    es: Seq<DirectoryEntryV>,
    data_flags: u32,
    p5: int,
    uba2: bool,
)
    requires
        ({
            let lp = player.len() as int;
            let le = engine.len() as int;
            let p3 = 14 + lp + le;
            let blob = spec_block_info_blob(bs, es);
            let cis = blob.len() as int;
            let at_end = data_flags & FLAG_BLOCKS_INFO_AT_END != 0;
            &&& blob.len() <= u32::MAX
            &&& find_null(out, 0) == 7
            &&& 7 < out.len()
            &&& out.subrange(0, 7) == spec_sig_unityfs()
            &&& crate::bytes::u32_at(out, 8) == version
            &&& find_null(out, 12) == 12 + lp
            &&& 12 + lp < out.len()
            &&& out.subrange(12, 12 + lp) == player
            &&& find_null(out, 13 + lp) == 13 + lp + le
            &&& 13 + lp + le < out.len()
            &&& out.subrange(13 + lp, 13 + lp + le) == engine
            &&& p3 + 20 <= out.len()
            &&& crate::bytes::u32_at(out, p3 + 8) == blob.len() as u32
            &&& crate::bytes::u32_at(out, p3 + 12) == blob.len() as u32
            &&& crate::bytes::u32_at(out, p3 + 16) == data_flags
            &&& data_flags & spec_encryption_flag(engine) == 0
            &&& spec_align_step(out, p3 + 20, version, engine) == Ok::<(int, bool), BundleError>(
                (p5, uba2),
            )
            &&& data_flags & COMP_MASK == 0
            &&& (if at_end {
                cis <= out.len() && out.subrange(out.len() - cis, out.len() as int) == blob
            } else {
                0 <= p5 && p5 + cis <= out.len() && out.subrange(p5, p5 + cis) == blob
            })
            &&& spec_parse_block_info(blob) == Ok::<
                (Seq<BlockInfo>, Seq<DirectoryEntryV>),
                BundleError,
            >((bs, es))
            &&& (data_flags & FLAG_BLOCK_INFO_NEED_PADDING != 0 ==> spec_new_flags_regime(engine))
        }),
    ensures
        ({
            let lp = player.len() as int;
            let le = engine.len() as int;
            let blob = spec_block_info_blob(bs, es);
            let cis = blob.len() as int;
            let at_end = data_flags & FLAG_BLOCKS_INFO_AT_END != 0;
            let next = if at_end {
                p5
            } else {
                p5 + cis
            };
            let need_pad = data_flags & FLAG_BLOCK_INFO_NEED_PADDING != 0;
            let data_start = if need_pad {
                next + spec_padding(next, 16)
            } else {
                next
            };
            spec_read(out) == Ok::<BundleV, BundleError>(
                BundleV {
                    signature: spec_sig_unityfs(),
                    version,
                    version_player: player,
                    version_engine: engine,
                    flags: data_flags,
                    uses_block_alignment: uba2,
                    data_start,
                    block_info_flags: if bs.len() > 0 {
                        bs[0].flags
                    } else {
                        0u16
                    },
                    blocks: bs,
                    entries: es,
                },
            )
        }),
{
    let lp = player.len() as int;
    let le = engine.len() as int;
    let p3 = 14 + lp + le;
    let blob = spec_block_info_blob(bs, es);
    assert(out.subrange(0, find_null(out, 0)) == spec_sig_unityfs());
    assert(crate::codec::spec_decompress_block_info(blob, blob.len() as u32, data_flags) == Ok::<
        Seq<u8>,
        BundleError,
    >(blob));
    if data_flags & FLAG_BLOCK_INFO_NEED_PADDING != 0 {
        assert(spec_new_flags_regime(engine));
    }
}


/// Where the padding, blob and data lie inside an assembled body, given
/// only that the file equals the body from `base` on.
pub proof fn lemma_body_positions(
    out: Seq<u8>,
    base: int,
    body: Seq<u8>,
    pad1: int,
    pad2: int,
    at_end: bool,
    blob: Seq<u8>,
    data: Seq<u8>,
)
    requires
        0 <= base,
        0 <= pad1,
        0 <= pad2,
        out.len() == base + body.len(),
        forall|i: int| base <= i < out.len() ==> out[i] == body[i - base],
        body == (if at_end {
            zero_bytes(pad1) + zero_bytes(pad2) + data + blob
        } else {
            zero_bytes(pad1) + blob + zero_bytes(pad2) + data
        }),
    ensures
        forall|i: int| base <= i < base + pad1 ==> out[i] == 0,
        at_end ==> out.subrange(out.len() - blob.len(), out.len() as int) == blob,
        at_end ==> out.subrange(base + pad1 + pad2, base + pad1 + pad2 + data.len()) == data,
        !at_end ==> out.subrange(base + pad1, base + pad1 + blob.len()) == blob,
        !at_end ==> out.subrange(
            base + pad1 + blob.len() + pad2,
            base + pad1 + blob.len() + pad2 + data.len(),
        ) == data,
{
    assert forall|i: int| base <= i < base + pad1 implies out[i] == 0 by {
        assert(body[i - base] == zero_bytes(pad1)[i - base]);
    }
    if at_end {
        let dstart = base + pad1 + pad2;
        assert forall|i: int| 0 <= i < data.len() implies out[dstart + i] == data[i] by {
            assert(body[dstart + i - base] == data[i]);
        }
        assert(out.subrange(dstart, dstart + data.len()) =~= data);
        let bstart = out.len() - blob.len();
        assert forall|i: int| 0 <= i < blob.len() implies out[bstart + i] == blob[i] by {
            assert(body[bstart + i - base] == blob[i]);
        }
        assert(out.subrange(bstart, out.len() as int) =~= blob);
    } else {
        let bstart = base + pad1;
        assert forall|i: int| 0 <= i < blob.len() implies out[bstart + i] == blob[i] by {
            assert(body[bstart + i - base] == blob[i]);
        }
        assert(out.subrange(bstart, bstart + blob.len()) =~= blob);
        let dstart = base + pad1 + blob.len() + pad2;
        assert forall|i: int| 0 <= i < data.len() implies out[dstart + i] == data[i] by {
            assert(body[dstart + i - base] == data[i]);
        }
        assert(out.subrange(dstart, dstart + data.len()) =~= data);
    }
}

/// Reading back an assembled bundle with a stored blob returns the parts
/// it was assembled from, with the data region found at the parsed data
/// start. The alignment premise ties the assembler's padding choice to
/// the rule the reader applies: padding is written exactly when the
/// format version or the engine version calls for it.
#[verifier::rlimit(100)]
#[verifier::spinoff_prover]
pub proof fn lemma_read_of_assembled(
    version: u32,
    player: Seq<u8>,
    engine: Seq<u8>,
    bs: Seq<BlockInfo>,
    es: Seq<DirectoryEntryV>,
    data_flags: u32,
    uba: bool,
    data: Seq<u8>,
)
    requires
        zero_free(player),
        zero_free(engine),
        bs.len() < 0x8000_0000,
        es.len() < 0x8000_0000,
        forall|k: int| 0 <= k < es.len() ==> zero_free(#[trigger] es[k].path),
        data_flags & COMP_MASK == 0,
        data_flags & spec_encryption_flag(engine) == 0,
        uba == (version >= 7 || spec_probe_eligible(engine)),
        spec_block_info_blob(bs, es).len() <= u32::MAX,
    ensures
        ({
            let out = spec_assembled_stored(version, player, engine, bs, es, data_flags, uba, data);
            match spec_read(out) {
                Ok(b2) => {
                    &&& b2.signature == spec_sig_unityfs()
                    &&& b2.version == version
                    &&& b2.version_player == player
                    &&& b2.version_engine == engine
                    &&& b2.flags == data_flags
                    &&& b2.blocks == bs
                    &&& b2.entries == es
                    &&& b2.block_info_flags == (if bs.len() > 0 {
                        bs[0].flags
                    } else {
                        0u16
                    })
                    &&& 0 <= b2.data_start
                    &&& b2.data_start + data.len() <= out.len()
                    &&& out.subrange(b2.data_start, b2.data_start + data.len()) == data
                    &&& (b2.uses_block_alignment == uba || spec_padding(
                        34 + player.len() as int + engine.len() as int,
                        16,
                    ) == 0)
                },
                Err(_) => false,
            }
        }),
{
    let sig = spec_sig_unityfs();
    let blob = spec_block_info_blob(bs, es);
    let out = spec_assembled_stored(version, player, engine, bs, es, data_flags, uba, data);
    let lp = player.len() as int;
    let le = engine.len() as int;
    let p3 = 14 + lp + le;
    let base = p3 + 20;
    let pad1: int = if uba {
        spec_padding(base, 16)
    } else {
        0
    };
    let at_end = data_flags & FLAG_BLOCKS_INFO_AT_END != 0;
    let need_pad = data_flags & FLAG_BLOCK_INFO_NEED_PADDING != 0;
    let pad2: int = if at_end {
        if need_pad {
            spec_padding(base + pad1, 16)
        } else {
            0
        }
    } else {
        if need_pad {
            spec_padding(base + pad1 + blob.len(), 16)
        } else {
            0
        }
    };
    let body = if at_end {
        zero_bytes(pad1) + zero_bytes(pad2) + data + blob
    } else {
        zero_bytes(pad1) + blob + zero_bytes(pad2) + data
    };
    let total = (base + body.len()) as u64;
    let cis32 = blob.len() as u32;
    assert(out == spec_header_then(version, player, engine, total, cis32, cis32, data_flags, body));
    lemma_header_fields(version, player, engine, total, cis32, cis32, data_flags, body);
    let cis = blob.len() as int;
    assert(cis32 as int == cis);
    assert(pad1 < 16 && pad1 >= 0 && pad2 >= 0) by {
        if uba {
            assert(0 <= base % 16 < 16);
        }
        if need_pad {
            if at_end {
                assert(0 <= (base + pad1) % 16 < 16);
            } else {
                assert(0 <= (base + pad1 + blob.len()) % 16 < 16);
            }
        }
    }
    lemma_body_positions(out, base, body, pad1, pad2, at_end, blob, data);
    // Alignment step agreement.
    let p5 = base + pad1;
    let astep = spec_align_step(out, base, version, engine);
    assert(astep == Ok::<(int, bool), BundleError>((p5, uba)) || (pad1 == 0 && astep == Ok::<
        (int, bool),
        BundleError,
    >((p5, false)))) by {
        if version >= 7 {
            assert(uba);
        } else if spec_probe_eligible(engine) {
            assert(uba);
            let pad = spec_padding(base, 16);
            assert(pad == pad1);
            if pad > 0 {
                assert(base + pad <= out.len());
                assert(out.subrange(base, base + pad) =~= zero_bytes(pad));
            }
        } else {
            assert(!uba);
        }
    }
    // The stored blob parses back to the lists.
    crate::blob::lemma_parse_block_info_of_blob(bs, es);
    // The pre-data padding bit is honored only under the new regime; under
    // the old one it would have been the encryption bit.
    if need_pad && !spec_new_flags_regime(engine) {
        assert(spec_encryption_flag(engine) == FLAG_BLOCK_INFO_NEED_PADDING);
        assert(data_flags & FLAG_BLOCK_INFO_NEED_PADDING == 0);
    }
    let next = if at_end {
        p5
    } else {
        p5 + cis
    };
    assert(pad2 == if need_pad {
        spec_padding(next, 16)
    } else {
        0
    });
    let data_start = next + pad2;
    match astep {
        Ok((pp, uu)) => {
            lemma_read_eval(out, version, player, engine, bs, es, data_flags, p5, uu);
        },
        Err(_) => {
            assert(false);
        },
    }
    assert(data_start + data.len() <= out.len());
}


/// Law: round-trip identity. Writing a bundle with a reused stored block
/// layout and reading it back returns the same entry list and block
/// table, and the data region expands to the bytes that were written.
/// Stated for layouts whose blocks are stored and a stored top-level
/// compression; compressed forms pass through the outside codecs, whose
/// output this specification does not model byte by byte.
pub proof fn lemma_write_with_layout_round_trip(
    b: BundleV,
    data: Seq<u8>,
    es: Seq<DirectoryEntryV>,
    data_flags: u32,
    layout: Seq<BlockInfo>,
)
    requires
        b.signature == spec_sig_unityfs(),
        zero_free(b.version_player),
        zero_free(b.version_engine),
        layout.len() < 0x8000_0000,
        es.len() < 0x8000_0000,
        forall|k: int| 0 <= k < es.len() ==> zero_free(#[trigger] es[k].path),
        forall|k: int| 0 <= k < layout.len() ==> ((#[trigger] layout[k]).flags as u32) & COMP_MASK
            == 0 && layout[k].compressed_size == layout[k].uncompressed_size,
        spec_block_csize_total(layout) == data.len(),
        data_flags & COMP_MASK == 0,
        data_flags & FLAG_BLOCKS_AND_DIR != 0,
        data_flags & spec_encryption_flag(b.version_engine) == 0,
        b.uses_block_alignment == (b.version >= 7 || spec_probe_eligible(b.version_engine)),
        spec_block_info_blob(layout, es).len() <= u32::MAX,
    ensures
        ({
            match crate::bundle::spec_write_bundle_with_layout(b, data, es, data_flags, layout) {
                Ok(out) => match spec_read(out) {
                    Ok(b2) => {
                        &&& b2.entries == es
                        &&& b2.blocks == layout
                        &&& b2.flags == data_flags
                        &&& b2.version == b.version
                        &&& b2.version_player == b.version_player
                        &&& b2.version_engine == b.version_engine
                        &&& spec_decompress_blocks(out, b2.data_start, b2.blocks) == Ok::<
                            Seq<u8>,
                            BundleError,
                        >(data)
                    },
                    Err(_) => false,
                },
                Err(_) => false,
            }
        }),
{
    lemma_layout_stored(data, 0, layout);
    assert(data.skip(0) =~= data);
    let blob = spec_block_info_blob(layout, es);
    assert(crate::codec::spec_compress_block_info(blob, data_flags & COMP_MASK) == Ok::<
        Seq<u8>,
        BundleError,
    >(blob));
    let out = spec_assembled_stored(
        b.version,
        b.version_player,
        b.version_engine,
        layout,
        es,
        data_flags,
        b.uses_block_alignment,
        data,
    );
    assert(crate::bundle::spec_write_bundle_with_layout(b, data, es, data_flags, layout) == Ok::<
        Seq<u8>,
        BundleError,
    >(out));
    lemma_read_of_assembled(
        b.version,
        b.version_player,
        b.version_engine,
        layout,
        es,
        data_flags,
        b.uses_block_alignment,
        data,
    );
    match spec_read(out) {
        Ok(b2) => {
            lemma_decompress_stored(out, b2.data_start, layout, data);
        },
        Err(_) => {},
    }
}

/// Law: block-size discipline of the LZ4 chunking policy. Every block
/// but the last expands to exactly the chunk size, the last to at most
/// that and at least one byte, no block's on-disk size exceeds its
/// expanded size, and the table accounts for the whole stream on both
/// sides.
pub proof fn lemma_lz4_block_size_discipline(data: Seq<u8>, block_info_flags: u16)
    ensures
        ({
            match crate::codec::spec_lz4_chunks(data, block_info_flags) {
                Ok((cdata, bs)) => {
                    &&& forall|i: int|
                        0 <= i < bs.len() - 1 ==> (#[trigger] bs[i]).uncompressed_size
                            == crate::codec::LZ4_CHUNK_SIZE
                    &&& bs.len() > 0 ==> 0 < bs.last().uncompressed_size
                        <= crate::codec::LZ4_CHUNK_SIZE
                    &&& forall|i: int|
                        0 <= i < bs.len() ==> (#[trigger] bs[i]).compressed_size
                            <= bs[i].uncompressed_size
                    &&& crate::bundle::spec_block_total(bs) == data.len()
                    &&& spec_block_csize_total(bs) == cdata.len()
                },
                Err(_) => true,
            }
        }),
    decreases data.len(),
{
    if data.len() > 0 {
        let n = if data.len() < crate::codec::LZ4_CHUNK_SIZE as int {
            data.len() as int
        } else {
            crate::codec::LZ4_CHUNK_SIZE as int
        };
        let chunk = data.take(n);
        match crate::codec::lz4_pack(chunk) {
            None => {},
            Some(c) => {
                lemma_lz4_block_size_discipline(data.skip(n), block_info_flags);
                match crate::codec::spec_lz4_chunks(data.skip(n), block_info_flags) {
                    Ok((rd, rb)) => {
                        let blk = if c.len() > chunk.len() {
                            BlockInfo {
                                uncompressed_size: n as u32,
                                compressed_size: n as u32,
                                flags: spec_clear_compression(block_info_flags),
                            }
                        } else {
                            BlockInfo {
                                uncompressed_size: n as u32,
                                compressed_size: c.len() as u32,
                                flags: block_info_flags,
                            }
                        };
                        let bs = seq![blk] + rb;
                        assert(bs.skip(1) =~= rb);
                        assert forall|i: int|
                            0 <= i < bs.len() - 1 implies (#[trigger] bs[i]).uncompressed_size
                            == crate::codec::LZ4_CHUNK_SIZE by {
                            if i > 0 {
                                assert(bs[i] == rb[i - 1]);
                            } else {
                                assert(rb.len() > 0);
                                assert(data.skip(n).len() > 0);
                            }
                        }
                        assert forall|i: int|
                            0 <= i < bs.len() implies (#[trigger] bs[i]).compressed_size
                            <= bs[i].uncompressed_size by {
                            if i > 0 {
                                assert(bs[i] == rb[i - 1]);
                            }
                        }
                        if rb.len() > 0 {
                            assert(bs.last() == rb.last());
                        }
                    },
                    Err(_) => {},
                }
            },
        }
    }
}

/// Law: alignment. On any parsed bundle whose format version is at least
/// seven, the data region starts at a multiple of sixteen whenever the
/// block-info blob sits at the end of the file or the pre-data padding
/// bit is honored.
pub proof fn lemma_reader_alignment(bytes: Seq<u8>, b: BundleV)
    requires
        spec_read(bytes) == Ok::<BundleV, BundleError>(b),
        b.version >= 7,
        (b.flags & FLAG_BLOCKS_INFO_AT_END != 0) || (spec_new_flags_regime(b.version_engine)
            && b.flags & FLAG_BLOCK_INFO_NEED_PADDING != 0),
    ensures
        b.data_start % 16 == 0,
{
    let sig_end = find_null(bytes, 0);
    crate::bytes::lemma_find_null_bounds(bytes, 0);
    let p0 = sig_end + 1;
    let pe = find_null(bytes, p0 + 4);
    crate::bytes::lemma_find_null_bounds(bytes, p0 + 4);
    let ee = find_null(bytes, pe + 1);
    crate::bytes::lemma_find_null_bounds(bytes, pe + 1);
    let engine = bytes.subrange(pe + 1, ee);
    let p3 = ee + 1;
    let p4 = p3 + 20;
    lemma_padding_aligns(p4);
    let p5 = p4 + spec_padding(p4, 16);
    let cis = crate::bytes::u32_at(bytes, p3 + 8);
    let at_end = b.flags & FLAG_BLOCKS_INFO_AT_END != 0;
    if at_end {
        if spec_new_flags_regime(engine) && b.flags & FLAG_BLOCK_INFO_NEED_PADDING != 0 {
            lemma_padding_aligns(p5);
        }
    } else {
        lemma_padding_aligns(p5 + cis);
    }
}

/// Advancing a non-negative position by its padding lands on a multiple
/// of sixteen.
pub proof fn lemma_padding_aligns(p: int)
    requires
        p >= 0,
    ensures
        (p + spec_padding(p, 16)) % 16 == 0,
{
    assert((p + spec_padding(p, 16)) % 16 == 0) by (nonlinear_arith)
        requires
            p >= 0,
    ;
}


/// The first `i` pieces of a rebuilt stream occupy exactly the first
/// `i` post-replacement sizes.
pub proof fn lemma_rebuilt_data_len(
    data: Seq<u8>,
    es: Seq<DirectoryEntryV>,
    idx: int,
    patched: Seq<u8>,
    i: int,
)
    requires
        0 <= i <= es.len(),
        forall|k: int| 0 <= k < es.len() && k != idx ==> (#[trigger] es[k]).offset + es[k].size
            <= data.len(),
    ensures
        crate::bundle::spec_rebuilt_data(data, es, idx, patched, i).len()
            == crate::writer::spec_sum_new_sizes(es, idx, patched.len() as int, i),
    decreases i,
{
    if i > 0 {
        lemma_rebuilt_data_len(data, es, idx, patched, i - 1);
    }
}

/// Each piece of a rebuilt stream can be sliced back out at its new
/// offset.
pub proof fn lemma_rebuilt_slice(
    data: Seq<u8>,
    es: Seq<DirectoryEntryV>,
    idx: int,
    patched: Seq<u8>,
    i: int,
    j: int,
)
    requires
        0 <= i < j <= es.len(),
        forall|k: int| 0 <= k < es.len() && k != idx ==> (#[trigger] es[k]).offset + es[k].size
            <= data.len(),
    ensures
        ({
            let plen = patched.len() as int;
            let off = crate::writer::spec_sum_new_sizes(es, idx, plen, i);
            let piece = crate::bundle::spec_piece(data, es, idx, patched, i);
            crate::bundle::spec_rebuilt_data(data, es, idx, patched, j).subrange(
                off,
                off + piece.len(),
            ) == piece
        }),
    decreases j,
{
    let plen = patched.len() as int;
    let off = crate::writer::spec_sum_new_sizes(es, idx, plen, i);
    let piece = crate::bundle::spec_piece(data, es, idx, patched, i);
    if j == i + 1 {
        lemma_rebuilt_data_len(data, es, idx, patched, i);
        let prefix = crate::bundle::spec_rebuilt_data(data, es, idx, patched, i);
        assert(crate::bundle::spec_rebuilt_data(data, es, idx, patched, j) == prefix + piece);
        assert((prefix + piece).subrange(off, off + piece.len()) =~= piece);
    } else {
        lemma_rebuilt_slice(data, es, idx, patched, i, j - 1);
        lemma_rebuilt_data_len(data, es, idx, patched, j - 1);
        crate::writer::lemma_sum_new_sizes_monotone(es, idx, plen, i + 1, j - 1);
        lemma_rebuilt_data_len(data, es, idx, patched, i);
        let prev = crate::bundle::spec_rebuilt_data(data, es, idx, patched, j - 1);
        let last = crate::bundle::spec_piece(data, es, idx, patched, j - 1);
        assert(crate::bundle::spec_rebuilt_data(data, es, idx, patched, j) == prev + last);
        lemma_rebuilt_data_len(data, es, idx, patched, i + 1);
        assert(off + piece.len() <= prev.len());
        assert((prev + last).subrange(off, off + piece.len()) =~= prev.subrange(
            off,
            off + piece.len(),
        ));
    }
}

/// Law: patch composition, the codec's share. After the data stream is
/// rebuilt around a patched entry, slicing any entry back out of the
/// rebuilt stream at its recomputed offset returns the patched bytes for
/// the target and each original entry's bytes for the rest.
pub proof fn lemma_rebuild_extract(
    data: Seq<u8>,
    es: Seq<DirectoryEntryV>,
    idx: int,
    patched: Seq<u8>,
    nd: Seq<u8>,
    nes: Seq<DirectoryEntryV>,
    i: int,
)
    requires
        0 <= idx < es.len(),
        0 <= i < es.len(),
        forall|k: int| 0 <= k < es.len() && k != idx ==> (#[trigger] es[k]).offset + es[k].size
            <= data.len(),
        crate::writer::spec_sum_new_sizes(es, idx, patched.len() as int, es.len() as int)
            <= u64::MAX,
        nes.len() == es.len(),
        forall|k: int| 0 <= k < es.len() ==> {
            &&& (#[trigger] nes[k]).size == crate::writer::spec_new_entry_size(
                es,
                idx,
                patched.len() as int,
                k,
            )
            &&& nes[k].offset == crate::writer::spec_sum_new_sizes(
                es,
                idx,
                patched.len() as int,
                k,
            )
        },
        nd == crate::bundle::spec_rebuilt_data(data, es, idx, patched, es.len() as int),
    ensures
        crate::bundle::spec_extract_entry(nd, nes, i) == Ok::<Seq<u8>, BundleError>(
            crate::bundle::spec_piece(data, es, idx, patched, i),
        ),
{
    let plen = patched.len() as int;
    lemma_rebuilt_data_len(data, es, idx, patched, es.len() as int);
    lemma_rebuilt_slice(data, es, idx, patched, i, es.len() as int);
    crate::writer::lemma_sum_new_sizes_monotone(es, idx, plen, i + 1, es.len() as int);
    crate::writer::lemma_sum_new_sizes_monotone(es, idx, plen, 0, i);
    let piece = crate::bundle::spec_piece(data, es, idx, patched, i);
    assert(nes[i].offset + nes[i].size <= nd.len());
}


/// Properties of the stored form of a block list: each block is stored
/// with its on-disk size equal to its expanded size, the on-disk total
/// equals the original expanded total, and taking the stored form twice
/// changes nothing.
pub proof fn lemma_uncompressed_props(bs: Seq<BlockInfo>)
    ensures
        spec_uncompressed_blocks(bs).len() == bs.len(),
        forall|k: int| 0 <= k < bs.len() ==> ((#[trigger] spec_uncompressed_blocks(
            bs,
        )[k]).flags as u32) & COMP_MASK == 0 && spec_uncompressed_blocks(bs)[k].compressed_size
            == spec_uncompressed_blocks(bs)[k].uncompressed_size,
        spec_block_csize_total(spec_uncompressed_blocks(bs)) == crate::bundle::spec_block_total(bs),
        spec_uncompressed_blocks(spec_uncompressed_blocks(bs)) == spec_uncompressed_blocks(bs),
    decreases bs.len(),
{
    let ub = spec_uncompressed_blocks(bs);
    assert forall|k: int| 0 <= k < bs.len() implies ((#[trigger] ub[k]).flags as u32) & COMP_MASK
        == 0 && ub[k].compressed_size == ub[k].uncompressed_size by {
        let f = bs[k].flags;
        assert(((f & !(0x3Fu16)) as u32) & 0x3Fu32 == 0) by (bit_vector);
    }
    if bs.len() > 0 {
        lemma_uncompressed_props(bs.skip(1));
        assert(ub.skip(1) =~= spec_uncompressed_blocks(bs.skip(1)));
    }
    assert(spec_uncompressed_blocks(ub) =~= ub) by {
        assert forall|k: int| 0 <= k < ub.len() implies spec_uncompressed_blocks(ub)[k]
            == ub[k] by {
            let f = bs[k].flags;
            assert((f & !(0x3Fu16)) & !(0x3Fu16) == f & !(0x3Fu16)) by (bit_vector);
        }
    }
}

/// Law: unpack idempotence. The uncompressed rewrite of a parsed bundle
/// parses back, and rewriting the result again reproduces it byte for
/// byte. Stated for bundles whose expanded stream has the length the
/// block table declares, and excluding the one probe corner: a bundle
/// below format version seven whose engine version calls for the
/// alignment probe but which was stored unaligned.
#[verifier::rlimit(100)]
#[verifier::spinoff_prover]
pub proof fn lemma_unpack_idempotent(file: Seq<u8>, b: BundleV, data0: Seq<u8>)
    requires
        spec_read(file) == Ok::<BundleV, BundleError>(b),
        b.uses_block_alignment || !spec_probe_eligible(b.version_engine),
        spec_decompress_blocks(file, b.data_start, b.blocks) == Ok::<Seq<u8>, BundleError>(data0),
        data0.len() == crate::bundle::spec_block_total(b.blocks),
        spec_block_info_blob(spec_uncompressed_blocks(b.blocks), b.entries).len() <= u32::MAX,
    ensures
        ({
            match spec_unpack(b, file) {
                Ok(u) => match spec_read(u) {
                    Ok(b2) => {
                        &&& b2.entries == b.entries
                        &&& b2.blocks == spec_uncompressed_blocks(b.blocks)
                        &&& spec_unpack(b2, u) == Ok::<Seq<u8>, BundleError>(u)
                    },
                    Err(_) => false,
                },
                Err(_) => false,
            }
        }),
{
    lemma_read_wf(file, b);
    let ub = spec_uncompressed_blocks(b.blocks);
    lemma_uncompressed_props(b.blocks);
    let blob = spec_block_info_blob(ub, b.entries);
    let f = b.flags;
    let fu = (f & !COMP_MASK) | FLAG_BLOCKS_AND_DIR;
    assert(fu & COMP_MASK == 0 && fu & FLAG_BLOCKS_AND_DIR != 0 && (fu & !COMP_MASK)
        | FLAG_BLOCKS_AND_DIR == fu) by (bit_vector)
        requires
            fu == (f & !0x3Fu32) | 0x40u32,
    ;
    if spec_new_flags_regime(b.version_engine) {
        assert(spec_encryption_flag(b.version_engine) == 0x1400u32);
        assert(f & 0x1400u32 == 0 ==> fu & 0x1400u32 == 0) by (bit_vector)
            requires
                fu == (f & !0x3Fu32) | 0x40u32,
        ;
    } else {
        assert(spec_encryption_flag(b.version_engine) == 0x200u32);
        assert(f & 0x200u32 == 0 ==> fu & 0x200u32 == 0) by (bit_vector)
            requires
                fu == (f & !0x3Fu32) | 0x40u32,
        ;
    }
    let uba = b.uses_block_alignment;
    assert(uba == (b.version >= 7 || spec_probe_eligible(b.version_engine)));
    lemma_read_of_assembled(
        b.version,
        b.version_player,
        b.version_engine,
        ub,
        b.entries,
        fu,
        uba,
        data0,
    );
    let u = spec_assembled_stored(
        b.version,
        b.version_player,
        b.version_engine,
        ub,
        b.entries,
        fu,
        uba,
        data0,
    );
    assert(spec_unpack(b, file) == Ok::<Seq<u8>, BundleError>(u));
    match spec_read(u) {
        Ok(b2) => {
            assert(b2.blocks == ub && b2.entries == b.entries && b2.flags == fu);
            let fu2 = (fu & !COMP_MASK) | FLAG_BLOCKS_AND_DIR;
            assert(fu2 == fu);
            lemma_decompress_stored(u, b2.data_start, ub, data0);
            let u2 = spec_assembled_stored(
                b.version,
                b.version_player,
                b.version_engine,
                ub,
                b.entries,
                fu,
                b2.uses_block_alignment,
                data0,
            );
            assert(spec_unpack(b2, u) == Ok::<Seq<u8>, BundleError>(u2)) by {
                assert(spec_uncompressed_blocks(b2.blocks) == ub);
                assert(spec_block_info_blob(spec_uncompressed_blocks(b2.blocks), b2.entries)
                    == blob);
            }
            if b2.uses_block_alignment != uba {
                assert(spec_padding(
                    34 + b.version_player.len() as int + b.version_engine.len() as int,
                    16,
                ) == 0);
                assert(u2 == u);
            } else {
                assert(u2 == u);
            }
        },
        Err(_) => {
            assert(false);
        },
    }
}

} // verus!
