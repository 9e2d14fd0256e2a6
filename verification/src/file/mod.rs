//! File formats of the `D+VINE[LUV]` engine.

pub mod error;
pub mod le;
pub mod reader;
pub mod text;

pub mod anm;
pub mod dsk;
pub mod efc;
pub mod fnt;
pub mod item;
pub mod kg;
pub mod mfd;
pub mod pft;
pub mod spr;
pub mod show;
pub mod startup_ini;

use vstd::prelude::*;

pub use error::{DskError, DvFileError, FileType, FntError, ItemError, StartupIniError};
pub use dsk::File as DskFile;
pub use efc::{
    AdpcmDataHeader, DecodedSound, EffectInfo, File as EfcFile, FileBuilder as EfcFileBuilder,
    SoundDataHeader,
};
pub use fnt::{
    glyph::Glyph, glyph::GlyphBitmap, glyph::GlyphBitmapLineIterator, File as FntFile, FontSize,
    GlyphIter,
};
pub use kg::{Compression as KgCompressionType, File as KgFile, Header as KgHeader};
pub use item::{entry::ItemEntry, File as ItemFile, ItemRaw};
pub use pft::{Entry, File as PftFile, Header as PftHeader};
pub use startup_ini::{
    OpeningMode as StartupOpeningMode, RenderMode as StartupRenderMode, StartupIni,
    VgaMode as StartupVgaMode,
};

verus! {

/// Block size of DSK files (2048 bytes).
pub const DSK_BLOCK_SIZE: usize = 0x0800;

/// Block size of DSK files (2048 bytes).
pub const BLOCK_SIZE: usize = 0x0800;

} // verus!
