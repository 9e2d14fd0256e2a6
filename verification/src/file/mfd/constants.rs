//! Layout constants of cursor animation files.

use vstd::prelude::*;

verus! {

/// Offset of the bitmap data.
pub const BITMAP_DATA_START: usize = 0x10;

/// Size of the header.
pub const HEADER_SIZE: usize = 16;

/// Size of an animation sequence start entry.
pub const ANIM_SEQ_ENTRY_SIZE: usize = 4;

/// Size of a glyph table entry.
pub const GLYPH_ENTRY_SIZE: usize = 12;

/// Size of an animation index table entry.
pub const ANIM_ENTRY_SIZE: usize = 8;

/// Offset of the metadata offset field in the header.
pub const METADATA_OFFSET_FIELD: usize = 0x00;

/// Offset of the animation count field in the header.
pub const ANIMATION_COUNT_FIELD: usize = 0x04;

/// Offset of the frame count field in the header.
pub const FRAME_COUNT_OFFSET: usize = 0x08;

/// Offset of the animation table entry count field in the header.
pub const ANIM_TABLE_ENTRY_COUNT_FIELD: usize = 0x0C;

/// Frame index value that marks a loop in the animation index table.
pub const LOOP_MARKER: u32 = 0xFFFFFFFF;

} // verus!
