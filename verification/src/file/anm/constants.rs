//! Layout constants and marker values of animation scripts.

use vstd::prelude::*;

verus! {

/// Size of the file header.
pub const HEADER_SIZE: usize = 32;

/// Size of the index table (256 entries of 2 bytes).
pub const INDEX_TABLE_SIZE: usize = 512;

/// Number of animation slots.
pub const ANIMATION_SLOT_COUNT: usize = 256;

/// Offset of the index table.
pub const INDEX_TABLE_OFFSET: usize = 0x20;

/// Offset of the animation data.
pub const ANIMATION_DATA_OFFSET: usize = 0x220;

/// Size of a frame descriptor.
pub const FRAME_DESCRIPTOR_SIZE: usize = 4;

/// End (hold) marker: ends a sequence.
pub const END_MARKER: u16 = 0xFFFF;

/// Jump marker: continues at the target descriptor.
pub const JUMP_MARKER: u16 = 0xFFFE;

/// Sound marker: plays a sound effect.
pub const SOUND_MARKER: u16 = 0xFFFD;

/// Event marker: signals a game event.
pub const EVENT_MARKER: u16 = 0xFFFC;

/// Index table value of an empty slot.
pub const NO_ANIMATION: u16 = 0xFFFF;

/// Size of the SPR file name field at the start of the header.
pub const SPR_FILENAME_FIELD_LEN: usize = 12;

/// Longest SPR file name that leaves room for its terminating zero.
pub const SPR_FILENAME_MAX_LEN: usize = 11;

/// Offset of the header padding.
pub const HEADER_PADDING_OFFSET: usize = 0x0C;

/// Size of the header padding.
pub const HEADER_PADDING_SIZE: usize = 20;

} // verus!
