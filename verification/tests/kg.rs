use dvine_types::file::kg::{compress, decompress, BitWriter, Compression, Header, MAGIC_G, MAGIC_K};
use dvine_types::file::DvFileError;

#[test]
fn test_bit_writer() {
    let mut writer = BitWriter::new();

    writer.write_bits(0b101, 3);
    writer.write_bits(0b1100, 4);
    writer.write_bits(0b1, 1);

    let data = writer.into_data();
    assert_eq!(data[0], 0b10111001);
}

#[test]
fn test_variable_length_encoding() {
    let mut writer = BitWriter::new();
    writer.write_variable_length(2);
    let data = writer.into_data();
    assert!(!data.is_empty());

    let mut writer = BitWriter::new();
    writer.write_variable_length(10);
    let data = writer.into_data();
    assert!(!data.is_empty());
}

#[test]
fn test_simple_compression() {
    let rgb_data = vec![
        255, 0, 0, // Red
        0, 255, 0, // Green
        0, 0, 255, // Blue
        255, 255, 0, // Yellow
    ];

    let result = compress(&rgb_data, 2, 2);
    assert!(result.is_ok());

    let compressed = result.unwrap();
    assert!(compressed.len() > Header::SIZE);

    let header = Header::from_bytes(&compressed).unwrap();
    assert_eq!(header.width(), 2);
    assert_eq!(header.height(), 2);
    assert_eq!(header.compression_type(), Compression::BPP3);
}

#[test]
fn encode_test_encode_decode_roundtrip() {
    let width = 8;
    let height = 8;
    let mut rgb_data = Vec::with_capacity(width * height * 3);
    for y in 0..height {
        for x in 0..width {
            let r = ((x * 255) / width) as u8;
            let g = ((y * 255) / height) as u8;
            let b = 128u8;
            rgb_data.push(r);
            rgb_data.push(g);
            rgb_data.push(b);
        }
    }

    let compressed = compress(&rgb_data, width as u16, height as u16).unwrap();
    let decompressed = decompress(&compressed).unwrap();

    assert_eq!(decompressed.header().width(), width as u16);
    assert_eq!(decompressed.header().height(), height as u16);
    assert_eq!(decompressed.pixels(), &rgb_data[..]);
}

#[test]
fn test_encode_solid_color() {
    let width = 16;
    let height = 16;
    let mut rgb_data = Vec::new();
    for _ in 0..(width * height) {
        rgb_data.extend_from_slice(&[255, 0, 0]);
    }

    let compressed = compress(&rgb_data, width as u16, height as u16).unwrap();
    let decompressed = decompress(&compressed).unwrap();

    assert_eq!(decompressed.pixels(), &rgb_data[..]);
}

#[test]
fn test_encode_repeating_pattern() {
    let width = 4;
    let height = 4;
    let mut rgb_data = Vec::new();
    for y in 0..height {
        for x in 0..width {
            if (x + y) % 2 == 0 {
                rgb_data.extend_from_slice(&[255, 255, 255]);
            } else {
                rgb_data.extend_from_slice(&[0, 0, 0]);
            }
        }
    }

    let compressed = compress(&rgb_data, width as u16, height as u16).unwrap();
    let decompressed = decompress(&compressed).unwrap();

    assert_eq!(decompressed.pixels(), &rgb_data[..]);
}

#[test]
fn test_encode_too_many_colors() {
    let width = 32;
    let height = 32;
    let mut rgb_data = Vec::new();
    for i in 0..(width * height) {
        let r = (i % 256) as u8;
        let g = ((i / 256) % 256) as u8;
        let b = ((i / 65536) % 256) as u8;
        rgb_data.extend_from_slice(&[r, g, b]);
    }

    let result = compress(&rgb_data, width as u16, height as u16);
    assert!(result.is_err());
    match result.unwrap_err() {
        DvFileError::CompressionError { .. } => {}
        _ => panic!("Expected CompressionError"),
    }
}

#[test]
fn test_encode_invalid_dimensions() {
    let rgb_data = vec![255, 0, 0, 0, 255, 0];
    let result = compress(&rgb_data, 4, 4);

    assert!(result.is_err());
    match result.unwrap_err() {
        DvFileError::CompressionError { .. } => {}
        _ => panic!("Expected CompressionError"),
    }
}

// The compressed stream starts with the magic, the version and the 3 bpp
// compression byte, and record the total file size.
#[test]
fn compressed_header_fields() {
    let rgb = vec![1u8, 2, 3, 4, 5, 6, 1, 2, 3, 4, 5, 6];
    let out = compress(&rgb, 2, 2).unwrap();
    assert_eq!(out[0], MAGIC_K);
    assert_eq!(out[1], MAGIC_G);
    let header = Header::from_bytes(&out).unwrap();
    assert_eq!(header.file_size() as usize, out.len());
    assert_eq!(header.palette_offset(), 48);
    assert_eq!(header.data_offset(), 48 + 1024);
    assert!(header.has_padding());
    assert_eq!(header.padding_size(), Some(16));
}

// Round trip of a two-pixel image with two colours.
#[test]
fn roundtrip_two_pixels() {
    let rgb = vec![9u8, 8, 7, 6, 5, 4];
    let out = compress(&rgb, 2, 1).unwrap();
    let file = decompress(&out).unwrap();
    assert_eq!(file.pixels(), &rgb[..]);
}

// A stream shorter than the header is refused.
#[test]
fn decompress_rejects_short_input() {
    let result = decompress(&[0x4B, 0x47, 0x02]);
    assert!(matches!(result, Err(DvFileError::InsufficientData { .. })));
}

// A header with another magic is refused.
#[test]
fn header_rejects_bad_magic() {
    let mut bytes = vec![0u8; 32];
    bytes[0] = b'X';
    bytes[1] = b'Y';
    assert!(matches!(Header::from_bytes(&bytes), Err(DvFileError::InvalidMagic { .. })));
}

// A header with an unknown compression byte is refused.
#[test]
fn header_rejects_unknown_compression() {
    let mut bytes = vec![0u8; 32];
    bytes[0] = MAGIC_K;
    bytes[1] = MAGIC_G;
    bytes[3] = 9;
    assert!(matches!(
        Header::from_bytes(&bytes),
        Err(DvFileError::UnsupportedCompressionType { compression_type: 9, .. })
    ));
}

// Writing the header gives back the bytes it was read from.
#[test]
fn header_bytes_roundtrip() {
    let rgb = vec![10u8, 20, 30, 40, 50, 60];
    let out = compress(&rgb, 1, 2).unwrap();
    let header = Header::from_bytes(&out).unwrap();
    assert_eq!(&header.to_bytes()[..], &out[..32]);
}

// Empty input of zero pixels is refused by the compressor.
#[test]
fn compress_rejects_wrong_length() {
    let result = compress(&[1, 2, 3, 4], 1, 1);
    assert!(matches!(result, Err(DvFileError::CompressionError { .. })));
}

// Padding exists only when the palette starts after the 32-byte header.
#[test]
fn header_padding_for_any_palette_offset() {
    let mut bytes = vec![0u8; 32];
    bytes[0] = MAGIC_K;
    bytes[1] = MAGIC_G;
    bytes[3] = 1;
    for (po, expected) in [(0u32, None), (10, None), (32, None), (48, Some(16usize))] {
        bytes[12..16].copy_from_slice(&po.to_le_bytes());
        let header = Header::from_bytes(&bytes).unwrap();
        assert_eq!(header.padding_size(), expected);
        assert_eq!(header.has_padding(), expected.is_some());
    }
}

// Writing a header keeps every field, the file size included.
#[test]
fn header_to_bytes_keeps_file_size() {
    let mut bytes = vec![0u8; 32];
    bytes[0] = MAGIC_K;
    bytes[1] = MAGIC_G;
    bytes[3] = 1;
    bytes[20..24].copy_from_slice(&123456u32.to_le_bytes());
    bytes[28] = 7;
    let header = Header::from_bytes(&bytes).unwrap();
    assert_eq!(&header.to_bytes()[..], &bytes[..]);
}

// A solid 2x2 image: the first two indices as bytes, then one copy of the
// previous pixel for the last two pixels (bits 10, length bits 10).
#[test]
fn compress_solid_square_bitstream() {
    let rgb = vec![9u8, 8, 7, 9, 8, 7, 9, 8, 7, 9, 8, 7];
    let out = compress(&rgb, 2, 2).unwrap();
    assert_eq!(&out[1072..], &[0x00, 0x00, 0xA0]);
}

// A 1x3 image A, B, B: the third pixel is a colour lookup that finds its
// colour at place 1 of the cache row of B (bits 0, 0, 001).
#[test]
fn compress_lookup_bitstream() {
    let rgb = vec![1u8, 1, 1, 2, 2, 2, 2, 2, 2];
    let out = compress(&rgb, 1, 3).unwrap();
    assert_eq!(&out[1072..], &[0x00, 0x01, 0x08]);
}
