//! Core data types and file formats of the `D+VINE[LUV]` engine: block
//! containers (DSK/PFT), fonts, item tables, startup settings, KG images,
//! EFC sound banks, SPR sprites, MFD cursors and ANM animations.

pub mod file;

/// `use dvine_types::prelude::*;` brings the commonly used items into scope.
pub mod prelude;
