# dvine_types

Readers and writers for the data files of the game: PFT archive indexes and
DSK block containers, EFC sound banks (IMA ADPCM), FNT fonts, ITEM data,
KG images, MFD cursor animations, SPR sprites and palettes, ANM animation
scripts and the `startup.ini` settings record.

The library in `src/` is verified with Verus. Each format is described by
spec functions over byte sequences; parsers state exactly which result or
error they give for every input, and serialisers state the bytes they
produce. Round trips (writing then reading back) are stated and proved as
public proof functions next to each format, among them:

- `anm::file::lemma_file_roundtrip` (for both readers),
  `anm::file::lemma_index_table_formula`, `anm::sequence::lemma_raw_roundtrip`,
  `anm::sequence::lemma_simulate_straight`
- `efc::encoder::lemma_decode_encode`, `efc::builder::lemma_built_bank_read_back`
- `fnt::lemma_font_bytes_roundtrip`, `fnt::lemma_insert_then_lookup`
- `item::lemma_item_file_roundtrip`, `item::lemma_encryption_bijective`
- `kg::encode::lemma_kg_roundtrip`, `kg::encode::lemma_compress_succeeds`
- `mfd::layout::lemma_mfd_roundtrip`, `mfd::layout::lemma_built_roundtrip`
- `pft::lemma_file_roundtrip`, `spr::lemma_spr_roundtrip`,
  `spr::lemma_add_roundtrip`, `spr::lemma_add_keeps_frames`,
  `startup_ini::lemma_startup_ini_roundtrip`

`app/` holds what works with the file system and outside crates: opening
and saving files, WAV export of decoded sounds (hound), the error type with
its messages (thiserror) and serde support for animation table entries.
