//! Codec for the UnityFS asset-bundle container format, together with the
//! pure parts of a delta-patching pipeline built on top of it: parsing the
//! version-sensitive header, decoding the nested block-info blob, expanding
//! the block-compressed data region, splicing a replacement entry into the
//! data stream, and assembling a well-formed output bundle.
//!
//! All functions here operate on in-memory byte vectors; reading and writing
//! files, running the external delta engine, and the command line are left to
//! the surrounding application.

pub mod blob;
pub mod bundle;
pub mod bytes;
pub mod codec;
pub mod error;
pub mod flags;
pub mod laws;
pub mod select;
pub mod version;
pub mod writer;
