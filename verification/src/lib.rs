//! Embossed build metadata: a compact binary layout of key-value string
//! pairs meant to live in a named section of a compiled binary, together
//! with a strict decoder, an encoder, and read-only lookup views.
//!
//! The wire format is
//! `[magic, 4 bytes][count, 1 byte][key]\0[value]\0 ...`
//! where the magic number is the little-endian `u32` `0x1A77B055` and every
//! key and value is a null-terminated UTF-8 string. The superseded textual
//! `key=value\0` format is kept in [`legacy`].

pub mod common;
pub mod encode;
pub mod error;
pub mod extract;
pub mod format;
pub mod legacy;
pub mod props;

pub use common::DEFAULT_SECTION_NAME;
pub use legacy::extract_metadata;
pub use legacy::EmbossError;

use vstd::prelude::*;

verus! {

/// The little-endian `u32` every well-formed buffer must begin with.
pub const LEADING_MAGIC_BYTES: u32 = 0x1A77B055;

} // verus!
