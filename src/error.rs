use vstd::prelude::*;

verus! {

/// Why a decode failed. Every failure aborts the whole decode.
#[derive(Debug, Clone, Copy, PartialEq, Eq, Structural)]
pub enum VdfrError {
    /// The leading magic number is not one of the two recognized revisions.
    UnsupportedVersion(u32),
    /// A tag byte is not one of the format's value, tree or sentinel tags.
    InvalidType(u8),
    /// The input ended before a value, a string terminator or a header was complete.
    ReadError,
    /// The string table declares `declared` strings but holds `found`.
    StringTableMismatch { declared: u32, found: usize },
    /// A key refers to a string-table index past the end of the table.
    StringIndexOutOfRange(u32),
    /// Trees nest deeper than the decoder allows.
    TooDeep,
}

} // verus!
