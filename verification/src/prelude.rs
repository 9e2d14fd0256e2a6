//! Commonly used types of the crate.

pub use crate::file::{
    DskError, DskFile, Entry, FntError, FntFile, ItemEntry, ItemError, ItemFile, ItemRaw,
    PftFile, PftHeader, StartupIni, StartupOpeningMode, StartupRenderMode, StartupVgaMode,
    BLOCK_SIZE,
};

pub use crate::file::fnt::{FontSize, GlyphIter};

pub use crate::file::fnt::glyph::{Glyph, GlyphBitmap, GlyphBitmapLineIterator};

pub use crate::file::{DvFileError, FileType};

pub use crate::file;
