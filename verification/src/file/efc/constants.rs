//! Layout constants of sound effect banks.

use vstd::prelude::*;

verus! {

/// Maximum number of effects in a bank.
pub const MAX_EFFECTS: usize = 256;

/// Size of the index table in bytes (256 entries of 4 bytes).
pub const INDEX_TABLE_SIZE: usize = 1024;

/// Size of the sound data header in bytes.
pub const SOUND_HEADER_SIZE: usize = 4;

/// Size of the ADPCM data header in bytes.
pub const ADPCM_HEADER_SIZE: usize = 0xC0;

/// Offset of the sample count within the ADPCM header.
pub const SAMPLE_COUNT_OFFSET: usize = 0xBC;

/// Number of entries of the IMA ADPCM step table.
pub const STEP_TABLE_ENTRIES: usize = 89;

} // verus!
