//! Layout constants of sprite files.

use vstd::prelude::*;

verus! {

/// Size of the file header (frame count and reserved bytes).
pub const HEADER_SIZE: usize = 16;

/// Size of each frame descriptor.
pub const FRAME_DESCRIPTOR_SIZE: usize = 24;

/// Offset of the frame count in the header.
pub const FRAME_COUNT_OFFSET: usize = 0;

/// Size of the reserved bytes of the header.
pub const RESERVED_SIZE: usize = 12;

} // verus!
