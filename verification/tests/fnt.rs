use dvine_types::file::fnt::glyph::{Glyph, GlyphBitmap};
use dvine_types::file::fnt::{File, FontSize};
use dvine_types::file::FntError;

#[test]
fn test_code_to_index_ascii() {
    assert_eq!(File::code_to_index(0x0020), Some(0x0020));
    assert_eq!(File::code_to_index(0x0041), Some(0x0041));
    assert_eq!(File::code_to_index(0x007A), Some(0x007A));
}

#[test]
fn test_code_to_index_half_width_katakana() {
    assert_eq!(File::code_to_index(0x00A0), Some(0x00A0));
    assert_eq!(File::code_to_index(0x00DF), Some(0x00DF));
}

#[test]
fn test_code_to_index_below_0x8100() {
    assert_eq!(File::code_to_index(0x0080), Some(0x0080));
    assert_eq!(File::code_to_index(0x00FF), Some(0x00FF));
    assert_eq!(File::code_to_index(0x1000), Some(0x1000));
}

#[test]
fn test_code_to_index_double_byte_wraparound() {
    assert_eq!(File::code_to_index(0x8100), Some(0x0100));
    assert_eq!(File::code_to_index(0x82A0), Some(0x02A0));
    assert_eq!(File::code_to_index(0x8140), Some(0x0140));
    assert_eq!(File::code_to_index(0x889F), Some(0x089F));
}

#[test]
fn test_code_to_index_high_range() {
    assert_eq!(File::code_to_index(0xE000), None);
    assert_eq!(File::code_to_index(0xFFFF), None);
    assert_eq!(File::code_to_index(0xE040), None);

    let code = 0xE000u16;
    let mut index = code as usize;
    if code >= 0xE000 {
        index = index.wrapping_add(0x4000);
    }
    if code >= 0x8100 {
        index = index.wrapping_add(0x8000);
    }
    index &= 0xFFFF;
    assert_eq!(index, 0xA000);
}

#[test]
fn test_code_to_index_boundary_conditions() {
    assert_eq!(File::code_to_index(0x80FF), None);
    assert_eq!(File::code_to_index(0x8100), Some(0x0100));
    assert_eq!(File::code_to_index(0xDFFF), None);
    assert_eq!(File::code_to_index(0xE000), None);
    assert_eq!(File::code_to_index(0x0000), Some(0x0000));
    assert_eq!(File::code_to_index(0x3000), Some(0x3000));
    assert_eq!(File::code_to_index(0x39FF), Some(0x39FF));
}

#[test]
fn test_code_to_index_out_of_range() {
    assert_eq!(File::code_to_index(0x3A00), None);
    assert_eq!(File::code_to_index(0x4000), None);
    assert_eq!(File::code_to_index(0x7FFF), None);
    assert_eq!(File::code_to_index(0x8100), Some(0x0100));
    assert_eq!(File::code_to_index(0xBA00), None);
}

#[test]
fn test_bytes_per_glyph() {
    let font_8 = File::new(FontSize::FS8x8);
    assert_eq!(font_8.bytes_per_glyph(), 8);

    let font_16 = File::new(FontSize::FS16x16);
    assert_eq!(font_16.bytes_per_glyph(), 32);

    let font_24 = File::new(FontSize::FS24x24);
    assert_eq!(font_24.bytes_per_glyph(), 72);
}

#[test]
fn test_glyph_insert_and_lookup() {
    let mut font = File::new(FontSize::FS16x16);
    let data = vec![0u8; 32];
    let glyph = Glyph::new(FontSize::FS16x16, 0x0041, data);

    assert!(font.insert(&glyph, false).is_ok());

    let retrieved = font.lookup(0x0041);
    assert!(retrieved.is_some());
    assert_eq!(retrieved.unwrap().code(), 0x0041);
}

#[test]
fn test_glyph_overwrite() {
    let mut font = File::new(FontSize::FS16x16);

    let data1 = vec![1u8; 32];
    let glyph1 = Glyph::new(FontSize::FS16x16, 0x0041, data1);
    font.insert(&glyph1, false).unwrap();

    let data2 = vec![2u8; 32];
    let glyph2 = Glyph::new(FontSize::FS16x16, 0x0041, data2.clone());
    assert!(font.insert(&glyph2, false).is_err());

    assert!(font.insert(&glyph2, true).is_ok());

    let retrieved = font.lookup(0x0041).unwrap();
    assert_eq!(retrieved.data(), &data2[..]);
}

#[test]
fn test_serialization_roundtrip() {
    let mut font = File::new(FontSize::FS16x16);

    let data = vec![0xAA; 32];
    let glyph = Glyph::new(FontSize::FS16x16, 0x0041, data);
    font.insert(&glyph, false).unwrap();

    let bytes = font.to_bytes();
    let loaded = File::from_bytes(&bytes).unwrap();

    assert_eq!(loaded.font_size(), font.font_size());
    assert_eq!(loaded.num_of_glyphs(), font.num_of_glyphs());

    let retrieved = loaded.lookup(0x0041);
    assert!(retrieved.is_some());
    assert_eq!(retrieved.unwrap().code(), 0x0041);
}

#[test]
fn test_iterator() {
    let mut font = File::new(FontSize::FS8x8);

    let codes = [0x0041, 0x0042, 0x0043];
    for &code in &codes {
        let data = vec![0u8; 8];
        let glyph = Glyph::new(FontSize::FS8x8, code, data);
        font.insert(&glyph, false).unwrap();
    }

    let mut collected: Vec<u16> = Vec::new();
    let mut it = font.iter();
    while let Some(g) = it.next() {
        collected.push(g.code());
    }

    assert_eq!(collected.len(), 3);
    assert!(collected.contains(&0x0041));
    assert!(collected.contains(&0x0042));
    assert!(collected.contains(&0x0043));
}

// A glyph inserted is found again by its code, with its data.
#[test]
fn fnt_insert_then_lookup_gives_data() {
    let mut font = File::new(FontSize::FS8x8);
    let data: Vec<u8> = (1..=8).collect();
    font.insert(&Glyph::new(FontSize::FS8x8, 0x8140, data.clone()), false).unwrap();
    let g = font.lookup(0x8140).unwrap();
    assert_eq!(g.data(), &data[..]);
    assert_eq!(g.font_size(), FontSize::FS8x8);
    assert!(font.lookup(0x8141).is_none());
}

#[test]
fn fnt_insert_errors() {
    let mut font = File::new(FontSize::FS8x8);
    let wrong_size = Glyph::new(FontSize::FS16x16, 0x41, vec![0u8; 32]);
    assert!(matches!(font.insert(&wrong_size, false), Err(FntError::InvalidFontSize(16))));
    let out_of_range = Glyph::new(FontSize::FS8x8, 0x4000, vec![0u8; 8]);
    assert!(matches!(font.insert(&out_of_range, false), Err(FntError::CodeOutOfRange { .. })));
    let short = Glyph::new(FontSize::FS8x8, 0x41, vec![0u8; 3]);
    assert!(matches!(
        font.insert(&short, false),
        Err(FntError::InsufficientData { expected: 8, actual: 3 })
    ));
}

#[test]
fn fnt_from_bytes_rejects_bad_size() {
    let mut data = vec![0u8; 4];
    data[0] = 12;
    assert!(File::from_bytes(&data).is_err());
}

#[test]
fn fnt_glyph_pixels_and_bitmap() {
    let mut g = Glyph::blank(0x41, FontSize::FS8x8);
    g.put_pixel(0, 0, true);
    g.put_pixel(7, 7, true);
    assert!(g.get_pixel(0, 0));
    assert!(g.get_pixel(7, 7));
    assert!(!g.get_pixel(1, 0));
    assert_eq!(g.data()[0], 0x80);
    assert_eq!(g.data()[7], 0x01);
    let bitmap = GlyphBitmap::from_glyph(&g);
    assert_eq!(bitmap.pixels().len(), 64);
    let back = Glyph::from_bitmap(&bitmap);
    assert_eq!(back.data(), g.data());
}

#[test]
fn fnt_font_size_names() {
    assert_eq!(FontSize::from_side(16), Some(FontSize::FS16x16));
    assert_eq!(FontSize::from_side(10), None);
    assert_eq!(FontSize::FS24x24.bytes_per_row(), 3);
}
