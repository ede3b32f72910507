//! Flag bits and compression codes of the bundle format.

use vstd::prelude::*;

verus! {

/// Low six bits of a flag word: the compression code.
pub const COMP_MASK: u32 = 0x3F;

/// Compression code: stored, no compression.
pub const COMP_NONE: u32 = 0;

/// Compression code: LZMA.
pub const COMP_LZMA: u32 = 1;

/// Compression code: LZ4.
pub const COMP_LZ4: u32 = 2;

/// Compression code: LZ4 high-compression.
pub const COMP_LZ4HC: u32 = 3;

/// Compression code: LZHAM (recognized, never supported).
pub const COMP_LZHAM: u32 = 4;

/// Blocks and directory info are combined; required on every written bundle.
pub const FLAG_BLOCKS_AND_DIR: u32 = 0x40;

/// The block-info blob sits at the end of the file instead of inline.
pub const FLAG_BLOCKS_INFO_AT_END: u32 = 0x80;

/// Padding precedes the data region (new-flags regime only).
pub const FLAG_BLOCK_INFO_NEED_PADDING: u32 = 0x200;

/// Encryption indicator under the old-flags regime.
pub const FLAG_ENCRYPTION_OLD: u32 = 0x200;

/// Encryption indicator under the new-flags regime.
pub const FLAG_ENCRYPTION_NEW: u32 = 0x1400;

/// A block flag word with its compression code cleared.
pub open spec fn spec_clear_compression(flags: u16) -> u16 {
    flags & !(COMP_MASK as u16)
}

/// Clear the compression code of a block flag word.
pub fn clear_compression_flags(flags: u16) -> (r: u16)
    ensures
        r == spec_clear_compression(flags),
{
    flags & !(COMP_MASK as u16)
}

} // verus!
