//! Animation scripts: a header naming the sprite file, an index table of
//! 256 slots, and the frame descriptor sequences of the animations.

pub mod constants;
pub mod file;
pub mod frame;
pub mod parse_config;
pub mod sequence;

pub use self::frame::FrameDescriptor;
pub use self::parse_config::ParseConfig;
pub use self::sequence::{AnimationSequence, SequenceParseStats};
pub use self::file::{compute_slot_windows, File, SlotDataWindow};
