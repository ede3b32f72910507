use vstd::prelude::*;

verus! {

/// Errors reported by the bundle codec.
///
/// `Truncated` covers every read past the end of a buffer; the remaining
/// variants mirror the format-invalid and unsupported conditions of the
/// container format.
#[derive(Clone, Copy, Debug, PartialEq, Eq, Structural)]
pub enum BundleError {
    /// A field or region extends past the end of the input.
    Truncated,
    /// The file does not begin with the `UnityFS` signature.
    BadSignature,
    /// The encryption bit is set under the version-appropriate mask.
    Encrypted,
    /// LZHAM compression was requested or encountered.
    UnsupportedLzham,
    /// A compression code outside the recognized set.
    UnknownCompression,
    /// A block or entry count in the block-info blob is negative.
    NegativeCount,
    /// An LZMA region is too short to hold its five-byte properties header.
    LzmaHeaderTooShort,
    /// The underlying compression library rejected the data.
    CodecFailed,
    /// A size or offset does not fit the field that must carry it.
    SizeOverflow,
    /// A single-block codec was asked to compress more than `u32::MAX` bytes.
    TooLargeForSingleBlock,
    /// The bundle flags lack the required blocks-and-directory-combined bit.
    MissingBlocksAndDirFlag,
    /// The data region is shorter than the directory requires.
    DataTooShort,
    /// No entry matched the selector.
    EntryNotFound,
    /// More than one entry matched the selector.
    EntryAmbiguous,
    /// The bundle holds no entries at all.
    NoEntries,
    /// Several entries exist but no selector was given.
    MultipleEntries,
    /// An entry index is outside the directory.
    EntryIndexOutOfRange,
    /// A provided block layout does not cover the data stream exactly.
    LayoutMismatch,
}

} // verus!
