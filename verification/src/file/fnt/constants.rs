//! Layout constants of font files.

use vstd::prelude::*;

verus! {

/// Size of the font file header in bytes.
pub const HEADER_SIZE: usize = 4;

/// Size of the offset table in bytes (14848 entries of 2 bytes).
pub const OFFSET_TABLE_SIZE: usize = 0x7400;

/// Number of entries of the offset table.
pub const OFFSET_TABLE_ENTRIES: usize = 0x3A00;

/// Offset of the bitmap data in bytes.
pub const BITMAP_DATA_OFFSET: usize = 0x7404;

} // verus!
