//! Codec and tooling logic for PCF pattern files.
//!
//! A pattern file is a fixed-layout hybrid of 10-byte, space-padded ASCII
//! text fields and a raw binary matrix whose width is derived from a header
//! field.  The codec decodes such a byte stream into a [`PatternFileData`]
//! record and encodes a record back into the exact on-disk byte layout.

pub mod cli;
pub mod laws;
pub mod num;
pub mod pattern;
pub mod text;
pub mod tui;
pub mod utils;

pub use num::parse_i32_or_zero;
pub use pattern::parse_pcf_bytes;
pub use pattern::write_pcf_bytes;
pub use pattern::PatternFileData;

use vstd::prelude::*;

verus! {

/// The ways a codec call can fail.
///
/// Decoding fails only when the byte source is too short for the layout it
/// declares; malformed numeric text is absorbed as a zero default instead.
/// Encoding fails when the record breaks one of its shape preconditions.
#[derive(Debug, Clone, Copy, PartialEq, Eq)]
pub enum PcfError {
    /// The byte source ended before a fixed field or a matrix byte.
    Truncated,
    /// `clk_sources` does not hold exactly 65 entries.
    ClkSourcesLen,
    /// The pattern matrix is not 18 rows of `pattern_file_length + 20` bytes.
    MatrixShape,
}

} // verus!
