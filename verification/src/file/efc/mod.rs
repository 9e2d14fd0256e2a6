//! Sound effect banks: an index table of 256 offsets, each pointing at a
//! sound effect made of a small header, an ADPCM header with its step table,
//! and IMA ADPCM encoded samples.

pub mod builder;
pub mod constants;
pub mod decoder;
pub mod encoder;
pub mod file;
pub mod iterator;
pub mod types;

pub use self::constants::{
    ADPCM_HEADER_SIZE, INDEX_TABLE_SIZE, MAX_EFFECTS, SAMPLE_COUNT_OFFSET, SOUND_HEADER_SIZE,
    STEP_TABLE_ENTRIES,
};
pub use self::types::{AdpcmDataHeader, DecodedSound, EffectInfo, SoundDataHeader};
pub use self::file::File;
pub use self::iterator::{DecodedSoundIter, EffectInfoIter};
pub use self::builder::FileBuilder;
