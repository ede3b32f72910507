//! The block-info blob: a sixteen-byte hash slot, the block list, and the
//! directory-entry list, serialized back to back. The blob itself travels
//! compressed under the bundle's top-level compression code; this module
//! handles only its plain form.

use vstd::prelude::*;

use crate::bytes::{
    find_null, read_string_to_null, read_u16_be, read_u32_be, read_u64_be, u16_at, u16_be_bytes,
    u32_at, u32_be_bytes, u64_at, u64_be_bytes, write_string_to_null, write_u16_be, write_u32_be,
    write_u64_be, zero_bytes, zero_free,
};
use crate::error::BundleError;

verus! {

/// One compressed block of the data region.
#[derive(Clone, Copy, Debug, PartialEq, Eq, Structural)]
pub struct BlockInfo {
    /// Byte count of the expanded block.
    pub uncompressed_size: u32,
    /// Byte count on disk.
    pub compressed_size: u32,
    /// Low six bits: compression code; the rest is preserved verbatim.
    pub flags: u16,
}

/// One logical file inside the bundle.
#[derive(Clone, Debug)]
pub struct DirectoryEntry {
    /// Position in the concatenated uncompressed block stream.
    pub offset: u64,
    /// Byte length in that stream.
    pub size: u64,
    /// Preserved verbatim.
    pub flags: u32,
    /// Entry path, the bytes of a null-terminated string.
    pub path: Vec<u8>,
}

/// Mathematical image of a [`DirectoryEntry`].
pub ghost struct DirectoryEntryV {
    /// Position in the concatenated uncompressed block stream.
    pub offset: u64,
    /// Byte length in that stream.
    pub size: u64,
    /// Preserved verbatim.
    pub flags: u32,
    /// Entry path bytes.
    pub path: Seq<u8>,
}

impl View for DirectoryEntry {
    type V = DirectoryEntryV;

    open spec fn view(&self) -> DirectoryEntryV {
        DirectoryEntryV {
            offset: self.offset,
            size: self.size,
            flags: self.flags,
            path: self.path@,
        }
    }
}

/// The images of a sequence of entries.
pub open spec fn entries_view(es: Seq<DirectoryEntry>) -> Seq<DirectoryEntryV> {
    es.map_values(|e: DirectoryEntry| e@)
}

// ---------------------------------------------------------------------------
// Specification encoding
// ---------------------------------------------------------------------------

/// Ten-byte encoding of one block record.
pub open spec fn spec_block_bytes(b: BlockInfo) -> Seq<u8> {
    u32_be_bytes(b.uncompressed_size) + u32_be_bytes(b.compressed_size) + u16_be_bytes(b.flags)
}

/// Concatenated encodings of a block list.
pub open spec fn spec_blocks_bytes(bs: Seq<BlockInfo>) -> Seq<u8>
    decreases bs.len(),
{
    if bs.len() == 0 {
        Seq::empty()
    } else {
        spec_block_bytes(bs[0]) + spec_blocks_bytes(bs.skip(1))
    }
}

/// Encoding of one directory entry: offset, size, flags, then the
/// null-terminated path.
pub open spec fn spec_entry_bytes(e: DirectoryEntryV) -> Seq<u8> {
    u64_be_bytes(e.offset) + u64_be_bytes(e.size) + u32_be_bytes(e.flags) + e.path + seq![0u8]
}

/// Concatenated encodings of an entry list.
pub open spec fn spec_entries_bytes(es: Seq<DirectoryEntryV>) -> Seq<u8>
    decreases es.len(),
{
    if es.len() == 0 {
        Seq::empty()
    } else {
        spec_entry_bytes(es[0]) + spec_entries_bytes(es.skip(1))
    }
}

/// The whole blob: hash slot, block count and list, entry count and list.
pub open spec fn spec_block_info_blob(bs: Seq<BlockInfo>, es: Seq<DirectoryEntryV>) -> Seq<u8> {
    zero_bytes(16) + u32_be_bytes(bs.len() as u32) + spec_blocks_bytes(bs) + u32_be_bytes(
        es.len() as u32,
    ) + spec_entries_bytes(es)
}

/// Block-list encodings grow one record at a time.
pub proof fn lemma_blocks_bytes_snoc(bs: Seq<BlockInfo>)
    requires
        bs.len() > 0,
    ensures
        spec_blocks_bytes(bs) == spec_blocks_bytes(bs.drop_last()) + spec_block_bytes(bs.last()),
    decreases bs.len(),
{
    if bs.len() == 1 {
        assert(bs.drop_last() =~= Seq::<BlockInfo>::empty());
        assert(bs.skip(1) =~= Seq::<BlockInfo>::empty());
        assert(spec_blocks_bytes(Seq::<BlockInfo>::empty()) == Seq::<u8>::empty());
        assert(spec_blocks_bytes(bs) =~= spec_block_bytes(bs[0]) + Seq::<u8>::empty());
        assert(spec_blocks_bytes(bs) =~= spec_blocks_bytes(bs.drop_last()) + spec_block_bytes(
            bs.last(),
        ));
    } else {
        lemma_blocks_bytes_snoc(bs.skip(1));
        assert(bs.skip(1).drop_last() =~= bs.drop_last().skip(1));
        assert(bs.skip(1).last() == bs.last());
        assert(bs.drop_last()[0] == bs[0]);
        assert(spec_blocks_bytes(bs) =~= spec_blocks_bytes(bs.drop_last()) + spec_block_bytes(
            bs.last(),
        ));
    }
}

/// Entry-list encodings grow one record at a time.
pub proof fn lemma_entries_bytes_snoc(es: Seq<DirectoryEntryV>)
    requires
        es.len() > 0,
    ensures
        spec_entries_bytes(es) == spec_entries_bytes(es.drop_last()) + spec_entry_bytes(es.last()),
    decreases es.len(),
{
    if es.len() == 1 {
        assert(es.drop_last() =~= Seq::<DirectoryEntryV>::empty());
        assert(es.skip(1) =~= Seq::<DirectoryEntryV>::empty());
        assert(spec_entries_bytes(Seq::<DirectoryEntryV>::empty()) == Seq::<u8>::empty());
        assert(spec_entries_bytes(es) =~= spec_entry_bytes(es[0]) + Seq::<u8>::empty());
        assert(spec_entries_bytes(es) =~= spec_entries_bytes(es.drop_last()) + spec_entry_bytes(
            es.last(),
        ));
    } else {
        lemma_entries_bytes_snoc(es.skip(1));
        assert(es.skip(1).drop_last() =~= es.drop_last().skip(1));
        assert(es.skip(1).last() == es.last());
        assert(es.drop_last()[0] == es[0]);
        assert(spec_entries_bytes(es) =~= spec_entries_bytes(es.drop_last()) + spec_entry_bytes(
            es.last(),
        ));
    }
}

// ---------------------------------------------------------------------------
// Specification parser
// ---------------------------------------------------------------------------

/// Prefix the block list of a parse result.
pub open spec fn prepend_blocks(pre: Seq<BlockInfo>, r: Option<(Seq<BlockInfo>, int)>) -> Option<
    (Seq<BlockInfo>, int),
> {
    match r {
        Some(p) => Some((pre + p.0, p.1)),
        None => None,
    }
}

/// Prefix the entry list of a parse result.
pub open spec fn prepend_entries(pre: Seq<DirectoryEntryV>, r: Option<(Seq<DirectoryEntryV>, int)>)
    -> Option<(Seq<DirectoryEntryV>, int)> {
    match r {
        Some(p) => Some((pre + p.0, p.1)),
        None => None,
    }
}

/// Parse `n` block records starting at `pos`.
pub open spec fn spec_parse_blocks(b: Seq<u8>, pos: int, n: nat) -> Option<(Seq<BlockInfo>, int)>
    decreases n,
{
    if n == 0 {
        Some((Seq::empty(), pos))
    } else if 0 <= pos && pos + 10 <= b.len() {
        let blk = BlockInfo {
            uncompressed_size: u32_at(b, pos),
            compressed_size: u32_at(b, pos + 4),
            flags: u16_at(b, pos + 8),
        };
        prepend_blocks(seq![blk], spec_parse_blocks(b, pos + 10, (n - 1) as nat))
    } else {
        None
    }
}

/// Parse `n` entry records starting at `pos`.
pub open spec fn spec_parse_entries(b: Seq<u8>, pos: int, n: nat) -> Option<
    (Seq<DirectoryEntryV>, int),
>
    decreases n,
{
    if n == 0 {
        Some((Seq::empty(), pos))
    } else if 0 <= pos && pos + 20 <= b.len() {
        let nul = find_null(b, pos + 20);
        if nul >= b.len() {
            None
        } else {
            let e = DirectoryEntryV {
                offset: u64_at(b, pos),
                size: u64_at(b, pos + 8),
                flags: u32_at(b, pos + 16),
                path: b.subrange(pos + 20, nul),
            };
            prepend_entries(seq![e], spec_parse_entries(b, nul + 1, (n - 1) as nat))
        }
    } else {
        None
    }
}

/// Parse a plain block-info blob: block list and entry list. The sixteen
/// hash bytes are skipped without validation; trailing bytes are ignored.
pub open spec fn spec_parse_block_info(blob: Seq<u8>) -> Result<
    (Seq<BlockInfo>, Seq<DirectoryEntryV>),
    BundleError,
> {
    if blob.len() < 20 {
        Err(BundleError::Truncated)
    } else {
        let nb = u32_at(blob, 16);
        if nb >= 0x8000_0000 {
            Err(BundleError::NegativeCount)
        } else {
            match spec_parse_blocks(blob, 20, nb as nat) {
                None => Err(BundleError::Truncated),
                Some((bs, p1)) => if p1 + 4 > blob.len() {
                    Err(BundleError::Truncated)
                } else {
                    let ne = u32_at(blob, p1);
                    if ne >= 0x8000_0000 {
                        Err(BundleError::NegativeCount)
                    } else {
                        match spec_parse_entries(blob, p1 + 4, ne as nat) {
                            None => Err(BundleError::Truncated),
                            Some((es, _)) => Ok((bs, es)),
                        }
                    }
                },
            }
        }
    }
}

// ---------------------------------------------------------------------------
// Executable serializer
// ---------------------------------------------------------------------------

/// Serialize the block-info blob. Counts that cannot be carried by the
/// signed 32-bit count fields are rejected.
pub fn build_block_info_bytes(blocks: &Vec<BlockInfo>, entries: &Vec<DirectoryEntry>) -> (r: Result<
    Vec<u8>,
    BundleError,
>)
    ensures
        match r {
            Ok(v) => blocks@.len() < 0x8000_0000 && entries@.len() < 0x8000_0000 && v@
                == spec_block_info_blob(blocks@, entries_view(entries@)),
            Err(e) => e == BundleError::SizeOverflow && (blocks@.len() >= 0x8000_0000
                || entries@.len() >= 0x8000_0000),
        },
{
    if blocks.len() >= 0x8000_0000 || entries.len() >= 0x8000_0000 {
        return Err(BundleError::SizeOverflow);
    }
    let mut out: Vec<u8> = Vec::new();
    let mut k: usize = 0;
    while k < 16
        invariant
            k <= 16,
            out@ == zero_bytes(k as int),
        decreases 16 - k,
    {
        out.push(0u8);
        assert(out@ =~= zero_bytes(k + 1));
        k = k + 1;
    }
    write_u32_be(&mut out, blocks.len() as u32);
    let ghost base: Seq<u8> = out@;
    let mut i: usize = 0;
    while i < blocks.len()
        invariant
            i <= blocks@.len(),
            out@ == base + spec_blocks_bytes(blocks@.take(i as int)),
        decreases blocks@.len() - i,
    {
        let b = blocks[i];
        write_u32_be(&mut out, b.uncompressed_size);
        write_u32_be(&mut out, b.compressed_size);
        write_u16_be(&mut out, b.flags);
        proof {
            let t = blocks@.take(i + 1);
            lemma_blocks_bytes_snoc(t);
            assert(t.drop_last() =~= blocks@.take(i as int));
            assert(t.last() == blocks@[i as int]);
            assert(out@ =~= base + spec_blocks_bytes(blocks@.take(i + 1)));
        }
        i = i + 1;
    }
    proof {
        assert(blocks@.take(blocks@.len() as int) =~= blocks@);
    }
    write_u32_be(&mut out, entries.len() as u32);
    let ghost base2: Seq<u8> = out@;
    let mut j: usize = 0;
    while j < entries.len()
        invariant
            j <= entries@.len(),
            out@ == base2 + spec_entries_bytes(entries_view(entries@).take(j as int)),
        decreases entries@.len() - j,
    {
        let e = &entries[j];
        write_u64_be(&mut out, e.offset);
        write_u64_be(&mut out, e.size);
        write_u32_be(&mut out, e.flags);
        write_string_to_null(&mut out, &e.path);
        proof {
            let ev = entries_view(entries@);
            let t = ev.take(j + 1);
            lemma_entries_bytes_snoc(t);
            assert(t.drop_last() =~= ev.take(j as int));
            assert(t.last() == ev[j as int]);
            assert(spec_entry_bytes(ev[j as int]) =~= u64_be_bytes(entries@[j as int].offset)
                + u64_be_bytes(entries@[j as int].size) + u32_be_bytes(entries@[j as int].flags)
                + entries@[j as int].path@ + seq![0u8]);
            assert(out@ =~= base2 + spec_entries_bytes(ev.take(j + 1)));
        }
        j = j + 1;
    }
    proof {
        let ev = entries_view(entries@);
        assert(ev.take(ev.len() as int) =~= ev);
        assert(out@ =~= spec_block_info_blob(blocks@, ev));
    }
    Ok(out)
}

// ---------------------------------------------------------------------------
// Executable parser
// ---------------------------------------------------------------------------

/// Parse a plain block-info blob into its block and entry lists.
pub fn parse_block_info(blob: &Vec<u8>) -> (r: Result<
    (Vec<BlockInfo>, Vec<DirectoryEntry>),
    BundleError,
>)
    ensures
        match r {
            Ok(p) => spec_parse_block_info(blob@) == Ok::<_, BundleError>(
                (p.0@, entries_view(p.1@)),
            ) && p.0@.len() < 0x8000_0000 && p.1@.len() < 0x8000_0000,
            Err(e) => spec_parse_block_info(blob@) == Err::<
                (Seq<BlockInfo>, Seq<DirectoryEntryV>),
                _,
            >(e),
        },
{
    if blob.len() < 20 {
        return Err(BundleError::Truncated);
    }
    let mut pos: usize = 16;
    let nb = match read_u32_be(blob, &mut pos) {
        Some(v) => v,
        None => {
            return Err(BundleError::Truncated);
        },
    };
    if nb >= 0x8000_0000 {
        return Err(BundleError::NegativeCount);
    }
    let mut blocks: Vec<BlockInfo> = Vec::new();
    let mut i: u32 = 0;
    while i < nb
        invariant
            i <= nb,
            nb < 0x8000_0000,
            blob@.len() >= 20,
            nb == u32_at(blob@, 16),
            pos <= blob@.len(),
            blocks@.len() == i,
            spec_parse_blocks(blob@, 20, nb as nat) == prepend_blocks(
                blocks@,
                spec_parse_blocks(blob@, pos as int, (nb - i) as nat),
            ),
        decreases nb - i,
    {
        let ghost pos0 = pos as int;
        let u = match read_u32_be(blob, &mut pos) {
            Some(v) => v,
            None => {
                proof {
                    assert(spec_parse_blocks(blob@, pos0, (nb - i) as nat) is None);
                }
                return Err(BundleError::Truncated);
            },
        };
        let c = match read_u32_be(blob, &mut pos) {
            Some(v) => v,
            None => {
                proof {
                    assert(spec_parse_blocks(blob@, pos0, (nb - i) as nat) is None);
                }
                return Err(BundleError::Truncated);
            },
        };
        let f = match read_u16_be(blob, &mut pos) {
            Some(v) => v,
            None => {
                proof {
                    assert(spec_parse_blocks(blob@, pos0, (nb - i) as nat) is None);
                }
                return Err(BundleError::Truncated);
            },
        };
        let blk = BlockInfo { uncompressed_size: u, compressed_size: c, flags: f };
        blocks.push(blk);
        proof {
            assert(spec_parse_blocks(blob@, pos0, (nb - i) as nat) == prepend_blocks(
                seq![blk],
                spec_parse_blocks(blob@, pos0 + 10, (nb - i - 1) as nat),
            ));
            assert(blocks@ =~= blocks@.drop_last() + seq![blk]);
            match spec_parse_blocks(blob@, pos0 + 10, (nb - i - 1) as nat) {
                Some(p) => {
                    assert(blocks@.drop_last() + (seq![blk] + p.0) =~= blocks@ + p.0);
                },
                None => {},
            }
        }
        i = i + 1;
    }
    let ghost mid = pos as int;
    proof {
        assert(spec_parse_blocks(blob@, mid, 0) == Some((Seq::<BlockInfo>::empty(), mid)));
        assert(blocks@ + Seq::<BlockInfo>::empty() =~= blocks@);
        assert(spec_parse_blocks(blob@, 20, nb as nat) == Some((blocks@, mid)));
    }
    let ne = match read_u32_be(blob, &mut pos) {
        Some(v) => v,
        None => {
            return Err(BundleError::Truncated);
        },
    };
    if ne >= 0x8000_0000 {
        return Err(BundleError::NegativeCount);
    }
    let mut entries: Vec<DirectoryEntry> = Vec::new();
    let mut j: u32 = 0;
    while j < ne
        invariant
            j <= ne,
            ne < 0x8000_0000,
            blob@.len() >= 20,
            nb == u32_at(blob@, 16),
            nb < 0x8000_0000,
            spec_parse_blocks(blob@, 20, nb as nat) == Some((blocks@, mid)),
            mid + 4 <= blob@.len(),
            ne == u32_at(blob@, mid),
            pos <= blob@.len(),
            entries@.len() == j,
            spec_parse_entries(blob@, mid + 4, ne as nat) == prepend_entries(
                entries_view(entries@),
                spec_parse_entries(blob@, pos as int, (ne - j) as nat),
            ),
        decreases ne - j,
    {
        let ghost pos0 = pos as int;
        let off = match read_u64_be(blob, &mut pos) {
            Some(v) => v,
            None => {
                proof {
                    assert(spec_parse_entries(blob@, pos0, (ne - j) as nat) is None);
                }
                return Err(BundleError::Truncated);
            },
        };
        let sz = match read_u64_be(blob, &mut pos) {
            Some(v) => v,
            None => {
                proof {
                    assert(spec_parse_entries(blob@, pos0, (ne - j) as nat) is None);
                }
                return Err(BundleError::Truncated);
            },
        };
        let fl = match read_u32_be(blob, &mut pos) {
            Some(v) => v,
            None => {
                proof {
                    assert(spec_parse_entries(blob@, pos0, (ne - j) as nat) is None);
                }
                return Err(BundleError::Truncated);
            },
        };
        let path = match read_string_to_null(blob, &mut pos) {
            Some(v) => v,
            None => {
                proof {
                    assert(find_null(blob@, pos0 + 20) == blob@.len());
                    assert(spec_parse_entries(blob@, pos0, (ne - j) as nat) is None);
                }
                return Err(BundleError::Truncated);
            },
        };
        let entry = DirectoryEntry { offset: off, size: sz, flags: fl, path };
        proof {
            crate::bytes::lemma_find_null_bounds(blob@, pos0 + 20);
            assert(find_null(blob@, pos0 + 20) < blob@.len());
            assert(entry@ == DirectoryEntryV {
                offset: u64_at(blob@, pos0),
                size: u64_at(blob@, pos0 + 8),
                flags: u32_at(blob@, pos0 + 16),
                path: blob@.subrange(pos0 + 20, find_null(blob@, pos0 + 20)),
            });
        }
        entries.push(entry);
        proof {
            let ev = entries_view(entries@);
            assert(ev =~= entries_view(entries@.drop_last()) + seq![entry@]);
            assert(spec_parse_entries(blob@, pos0, (ne - j) as nat) == prepend_entries(
                seq![entry@],
                spec_parse_entries(blob@, pos as int, (ne - j - 1) as nat),
            ));
            match spec_parse_entries(blob@, pos as int, (ne - j - 1) as nat) {
                Some(p) => {
                    assert(entries_view(entries@.drop_last()) + (seq![entry@] + p.0) =~= ev + p.0);
                },
                None => {},
            }
        }
        j = j + 1;
    }
    proof {
        let ev = entries_view(entries@);
        assert(spec_parse_entries(blob@, pos as int, 0) == Some((
            Seq::<DirectoryEntryV>::empty(),
            pos as int,
        )));
        assert(ev + Seq::<DirectoryEntryV>::empty() =~= ev);
        assert(spec_parse_entries(blob@, mid + 4, ne as nat) == Some((ev, pos as int)));
    }
    Ok((blocks, entries))
}


// ---------------------------------------------------------------------------
// Round trip: parsing a serialized blob
// ---------------------------------------------------------------------------

/// A block list encodes to ten bytes per record.
pub proof fn lemma_blocks_bytes_len(bs: Seq<BlockInfo>)
    ensures
        spec_blocks_bytes(bs).len() == 10 * bs.len(),
    decreases bs.len(),
{
    if bs.len() > 0 {
        lemma_blocks_bytes_len(bs.skip(1));
    }
}

/// An entry record encodes to twenty-one bytes plus its path.
pub proof fn lemma_entry_bytes_len(e: DirectoryEntryV)
    ensures
        spec_entry_bytes(e).len() == 21 + e.path.len(),
{
}

/// Parsing block records out of their own encoding returns the records.
pub proof fn lemma_parse_blocks_of_bytes(b: Seq<u8>, pos: int, bs: Seq<BlockInfo>)
    requires
        0 <= pos,
        pos + 10 * bs.len() <= b.len(),
        b.subrange(pos, pos + 10 * bs.len()) == spec_blocks_bytes(bs),
    ensures
        spec_parse_blocks(b, pos, bs.len() as nat) == Some((bs, pos + 10 * bs.len())),
    decreases bs.len(),
{
    lemma_blocks_bytes_len(bs);
    if bs.len() == 0 {
        assert(bs =~= Seq::<BlockInfo>::empty());
    } else {
        let first = bs[0];
        let enc = spec_blocks_bytes(bs);
        assert(enc == spec_block_bytes(first) + spec_blocks_bytes(bs.skip(1)));
        lemma_blocks_bytes_len(bs.skip(1));
        assert forall|k: int| pos <= k < pos + 10 implies b[k] == spec_block_bytes(first)[k
            - pos] by {
            assert(b.subrange(pos, pos + 10 * bs.len())[k - pos] == b[k]);
            assert(enc[k - pos] == spec_block_bytes(first)[k - pos]);
        }
        assert(b.subrange(pos, pos + 4) =~= u32_be_bytes(first.uncompressed_size));
        assert(b.subrange(pos + 4, pos + 8) =~= u32_be_bytes(first.compressed_size));
        assert(b.subrange(pos + 8, pos + 10) =~= u16_be_bytes(first.flags));
        crate::bytes::lemma_u32_be_read(b, pos, first.uncompressed_size);
        crate::bytes::lemma_u32_be_read(b, pos + 4, first.compressed_size);
        crate::bytes::lemma_u16_be_read(b, pos + 8, first.flags);
        let rest = bs.skip(1);
        assert(b.subrange(pos + 10, pos + 10 + 10 * rest.len()) =~= spec_blocks_bytes(rest)) by {
            assert forall|k: int| pos + 10 <= k < pos + 10 + 10 * rest.len() implies b[k]
                == spec_blocks_bytes(rest)[k - pos - 10] by {
                assert(b.subrange(pos, pos + 10 * bs.len())[k - pos] == b[k]);
                assert(enc[k - pos] == spec_blocks_bytes(rest)[k - pos - 10]);
            }
        }
        lemma_parse_blocks_of_bytes(b, pos + 10, rest);
        assert(seq![first] + rest =~= bs);
    }
}

/// Parsing entry records out of their own encoding returns the records,
/// provided no path holds a zero byte.
pub proof fn lemma_parse_entries_of_bytes(b: Seq<u8>, pos: int, es: Seq<DirectoryEntryV>)
    requires
        0 <= pos,
        pos + spec_entries_bytes(es).len() <= b.len(),
        b.subrange(pos, pos + spec_entries_bytes(es).len()) == spec_entries_bytes(es),
        forall|k: int| 0 <= k < es.len() ==> zero_free(#[trigger] es[k].path),
    ensures
        spec_parse_entries(b, pos, es.len() as nat) == Some(
            (es, pos + spec_entries_bytes(es).len()),
        ),
    decreases es.len(),
{
    if es.len() == 0 {
        assert(es =~= Seq::<DirectoryEntryV>::empty());
    } else {
        let first = es[0];
        let enc = spec_entries_bytes(es);
        let flen = spec_entry_bytes(first).len();
        assert(enc == spec_entry_bytes(first) + spec_entries_bytes(es.skip(1)));
        lemma_entry_bytes_len(first);
        assert forall|k: int| pos <= k < pos + flen implies b[k] == spec_entry_bytes(first)[k
            - pos] by {
            assert(b.subrange(pos, pos + enc.len())[k - pos] == b[k]);
            assert(enc[k - pos] == spec_entry_bytes(first)[k - pos]);
        }
        assert(b.subrange(pos, pos + 8) =~= u64_be_bytes(first.offset));
        assert(b.subrange(pos + 8, pos + 16) =~= u64_be_bytes(first.size));
        assert(b.subrange(pos + 16, pos + 20) =~= u32_be_bytes(first.flags));
        crate::bytes::lemma_u64_be_read(b, pos, first.offset);
        crate::bytes::lemma_u64_be_read(b, pos + 8, first.size);
        crate::bytes::lemma_u32_be_read(b, pos + 16, first.flags);
        let plen = first.path.len() as int;
        assert forall|k: int| pos + 20 <= k < pos + 20 + plen implies b[k] != 0 by {
            assert(b[k] == spec_entry_bytes(first)[k - pos]);
            assert(spec_entry_bytes(first)[k - pos] == first.path[k - pos - 20]);
            assert(zero_free(first.path));
        }
        assert(b[pos + 20 + plen] == 0) by {
            assert(spec_entry_bytes(first)[20 + plen] == 0);
        }
        crate::bytes::lemma_find_null_is(b, pos + 20, pos + 20 + plen);
        assert(b.subrange(pos + 20, pos + 20 + plen) =~= first.path) by {
            assert forall|k: int| 0 <= k < plen implies b.subrange(pos + 20, pos + 20 + plen)[k]
                == first.path[k] by {
                assert(b[pos + 20 + k] == spec_entry_bytes(first)[20 + k]);
            }
        }
        let rest = es.skip(1);
        let rpos = pos + flen;
        assert(b.subrange(rpos, rpos + spec_entries_bytes(rest).len()) =~= spec_entries_bytes(
            rest,
        )) by {
            assert forall|k: int| rpos <= k < rpos + spec_entries_bytes(rest).len() implies b[k]
                == spec_entries_bytes(rest)[k - rpos] by {
                assert(b.subrange(pos, pos + enc.len())[k - pos] == b[k]);
                assert(enc[k - pos] == spec_entries_bytes(rest)[k - rpos]);
            }
        }
        lemma_parse_entries_of_bytes(b, rpos, rest);
        assert(seq![first] + rest =~= es);
    }
}

/// Parsing a serialized block-info blob returns the lists that built it,
/// provided the counts fit their fields and no path holds a zero byte.
pub proof fn lemma_parse_block_info_of_blob(bs: Seq<BlockInfo>, es: Seq<DirectoryEntryV>)
    requires
        bs.len() < 0x8000_0000,
        es.len() < 0x8000_0000,
        forall|k: int| 0 <= k < es.len() ==> zero_free(#[trigger] es[k].path),
    ensures
        spec_parse_block_info(spec_block_info_blob(bs, es)) == Ok::<_, BundleError>((bs, es)),
{
    let blob = spec_block_info_blob(bs, es);
    lemma_blocks_bytes_len(bs);
    let nb = bs.len() as int;
    let ne = es.len() as int;
    let le = spec_entries_bytes(es).len() as int;
    assert(blob.len() == 20 + 10 * nb + 4 + le);
    assert(blob.subrange(16, 20) =~= u32_be_bytes(bs.len() as u32));
    crate::bytes::lemma_u32_be_read(blob, 16, bs.len() as u32);
    assert(blob.subrange(20, 20 + 10 * nb) =~= spec_blocks_bytes(bs));
    lemma_parse_blocks_of_bytes(blob, 20, bs);
    let p1 = 20 + 10 * nb;
    assert(blob.subrange(p1, p1 + 4) =~= u32_be_bytes(es.len() as u32));
    crate::bytes::lemma_u32_be_read(blob, p1, es.len() as u32);
    assert(blob.subrange(p1 + 4, p1 + 4 + le) =~= spec_entries_bytes(es));
    lemma_parse_entries_of_bytes(blob, p1 + 4, es);
}

} // verus!
