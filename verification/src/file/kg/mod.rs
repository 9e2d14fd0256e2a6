//! KG images: a 32-byte header, optional padding, a palette of 256 colours
//! and the pixels compressed into a bit stream of copy operations and
//! colour lookups. Images are read into RGB pixels and written back from
//! them.

pub mod bits;
pub mod decode;
pub mod encode;
pub mod replay;

pub use decode::decompress;
pub use encode::{compress, compress_file, BitWriter};



use vstd::prelude::*;
use vstd::string::StringExecFns;

use super::error::{DvFileError, FileType};
use super::le::{push_u32, read_u16, read_u32, u16_at, u16_bytes, u32_at, u32_bytes};
use super::reader::ByteReader;
use super::show::{append_decimal, hex_list, hex_list_string};
use super::text::decimal;

verus! {

/// First magic byte of KG files (`K`).
pub const MAGIC_K: u8 = 0x4B;

/// Second magic byte of KG files (`G`).
pub const MAGIC_G: u8 = 0x47;

/// Size of the header of KG files.
pub const HEADER_SIZE: usize = 32;

/// Operation code of a colour lookup.
pub const OP_DICT_LOOKUP: u8 = 0;

/// Operation code of a copy of the previous pixel.
pub const OP_COPY_PREV_PIXEL: u8 = 2;

/// Operation code of a copy from one line up.
pub const OP_COPY_PREV_LINE: u8 = 12;

/// Operation code of a copy from one line up and one pixel right.
pub const OP_COPY_DIAGONAL_1: u8 = 13;

/// Operation code of a copy from one line up and one pixel left.
pub const OP_COPY_DIAGONAL_2: u8 = 14;

/// Operation code of a copy from two pixels back.
pub const OP_COPY_DOUBLE_BPP: u8 = 15;

/// Compression of the pixel data.
#[derive(Debug, Clone, Copy, PartialEq, Eq, Structural, Hash)]
pub enum Compression {
    /// Stored without a supported compression
    Unsupported,
    /// Colour lookups through a most-recently-used cache and copies
    BPP3,
}

/// The byte that stores a compression.
pub open spec fn compression_code(c: Compression) -> u8 {
    match c {
        Compression::Unsupported => 0,
        Compression::BPP3 => 1,
    }
}

/// The display name of a compression.
pub open spec fn compression_name(c: Compression) -> Seq<char> {
    match c {
        Compression::Unsupported => "Unsupported"@,
        Compression::BPP3 => "BPP3"@,
    }
}

/// The description of a header: magic, version, compression, size,
/// offsets and file size, one per line.
pub open spec fn header_text(h: Header) -> Seq<char> {
    ".KG File Header:\n- Magic: "@ + hex_list(h.spec_magic()) + "\n- Version: "@ + decimal(h.spec_version() as nat)
        + "\n- Compression Type: "@ + compression_name(h.spec_compression()) + "\n- Width: "@ + decimal(
        h.spec_width() as nat,
    ) + " pixels\n- Height: "@ + decimal(h.spec_height() as nat) + " pixels\n- Palette Offset: "@ + decimal(
        h.spec_palette_offset() as nat,
    ) + " bytes\n- Image Data Offset: "@ + decimal(h.spec_data_offset() as nat) + " bytes\n- File Size: "@
        + decimal(h.spec_file_size() as nat) + " bytes\n"@
}

impl Compression {
    /// The display name, "Unsupported" or "BPP3".
    pub fn to_string(&self) -> (r: String)
        ensures
            r@ == compression_name(*self),
    {
        match self {
            Compression::Unsupported => String::from_str("Unsupported"),
            Compression::BPP3 => String::from_str("BPP3"),
        }
    }

    /// The byte that stores the compression.
    fn code(&self) -> (r: u8)
        ensures
            r == compression_code(*self),
    {
        match self {
            Compression::Unsupported => 0,
            Compression::BPP3 => 1,
        }
    }
}

/// The header of a KG file.
#[derive(Debug, Clone, Copy, PartialEq, Eq, Hash)]
pub struct Header {
    magic: [u8; 2],
    version: u8,
    compression_type: Compression,
    width: u16,
    height: u16,
    reserved_1: [u8; 4],
    palette_offset: u32,
    data_offset: u32,
    file_size: u32,
    reserved_2: [u32; 2],
}

/// The 32 bytes of a header.
pub open spec fn header_bytes(h: Header) -> Seq<u8> {
    h.spec_magic() + seq![h.spec_version(), compression_code(h.spec_compression())] + u16_bytes(
        h.spec_width(),
    ) + u16_bytes(h.spec_height()) + h.spec_reserved_1() + u32_bytes(h.spec_palette_offset())
        + u32_bytes(h.spec_data_offset()) + u32_bytes(h.spec_file_size()) + u32_bytes(
        h.spec_reserved_2()[0],
    ) + u32_bytes(h.spec_reserved_2()[1])
}

/// Whether `data` starts with a header that can be read: 32 bytes, the
/// magic `KG` and compression 1.
pub open spec fn header_ok(data: Seq<u8>) -> bool {
    &&& data.len() >= HEADER_SIZE
    &&& data[0] == MAGIC_K
    &&& data[1] == MAGIC_G
    &&& data[3] == 1
}

/// Whether `e` is the error for the header at the start of `data`: too
/// short, a wrong magic, or an unsupported compression.
pub open spec fn header_failure(data: Seq<u8>, e: DvFileError) -> bool {
    if data.len() < HEADER_SIZE {
        e == DvFileError::InsufficientData {
            file_type: FileType::Kg,
            expected: HEADER_SIZE,
            actual: data.len() as usize,
        }
    } else if data[0] != MAGIC_K || data[1] != MAGIC_G {
        e matches DvFileError::InvalidMagic { file_type, expected, actual } && file_type
            == FileType::Kg && expected@ == seq![MAGIC_K, MAGIC_G] && actual@ == data.subrange(0, 2)
    } else {
        e == DvFileError::UnsupportedCompressionType {
            file_type: FileType::Kg,
            compression_type: data[3],
        }
    }
}

/// The bytes of the default padding: 0, the width, the height and 0, as
/// 32-bit values.
pub open spec fn default_padding(width: u16, height: u16) -> Seq<u8> {
    u32_bytes(0) + u32_bytes(width as u32) + u32_bytes(height as u32) + u32_bytes(0)
}

impl Header {
    /// Size of the header in bytes.
    pub const SIZE: usize = 32;

    /// The magic bytes.
    pub closed spec fn spec_magic(&self) -> Seq<u8> {
        self.magic@
    }

    /// The version.
    pub closed spec fn spec_version(&self) -> u8 {
        self.version
    }

    /// The compression.
    pub closed spec fn spec_compression(&self) -> Compression {
        self.compression_type
    }

    /// The width in pixels.
    pub closed spec fn spec_width(&self) -> u16 {
        self.width
    }

    /// The height in pixels.
    pub closed spec fn spec_height(&self) -> u16 {
        self.height
    }

    /// The four reserved bytes after the size.
    pub closed spec fn spec_reserved_1(&self) -> Seq<u8> {
        self.reserved_1@
    }

    /// The offset of the palette.
    pub closed spec fn spec_palette_offset(&self) -> u32 {
        self.palette_offset
    }

    /// The offset of the compressed pixels.
    pub closed spec fn spec_data_offset(&self) -> u32 {
        self.data_offset
    }

    /// The size of the file.
    pub closed spec fn spec_file_size(&self) -> u32 {
        self.file_size
    }

    /// The two reserved 32-bit values at the end.
    pub closed spec fn spec_reserved_2(&self) -> Seq<u32> {
        self.reserved_2@
    }

    /// Whether this is the header stored at the start of `data`.
    pub open spec fn is_header_of(&self, data: Seq<u8>) -> bool {
        &&& self.spec_magic() == data.subrange(0, 2)
        &&& self.spec_version() == data[2]
        &&& self.spec_compression() == Compression::BPP3
        &&& self.spec_width() == u16_at(data, 4)
        &&& self.spec_height() == u16_at(data, 6)
        &&& self.spec_reserved_1() == data.subrange(8, 12)
        &&& self.spec_palette_offset() == u32_at(data, 12)
        &&& self.spec_data_offset() == u32_at(data, 16)
        &&& self.spec_file_size() == u32_at(data, 20)
        &&& self.spec_reserved_2() == seq![u32_at(data, 24), u32_at(data, 28)]
    }

    /// The default header: magic `KG`, version 2, the supported compression
    /// and every other field zero.
    pub fn new() -> (r: Self)
        ensures
            r.spec_magic() == seq![MAGIC_K, MAGIC_G],
            r.spec_version() == 2,
            r.spec_compression() == Compression::BPP3,
            r.spec_width() == 0,
            r.spec_height() == 0,
            r.spec_reserved_1() == seq![0u8, 0u8, 0u8, 0u8],
            r.spec_palette_offset() == 0,
            r.spec_data_offset() == 0,
            r.spec_file_size() == 0,
            r.spec_reserved_2() == seq![0u32, 0u32],
    {
        let r = Header {
            magic: [MAGIC_K, MAGIC_G],
            version: 0x02,
            compression_type: Compression::BPP3,
            width: 0,
            height: 0,
            reserved_1: [0u8; 4],
            palette_offset: 0,
            data_offset: 0,
            file_size: 0,
            reserved_2: [0u32; 2],
        };
        assert(r.spec_magic() =~= seq![MAGIC_K, MAGIC_G]);
        assert(r.spec_reserved_1() =~= seq![0u8, 0u8, 0u8, 0u8]);
        assert(r.spec_reserved_2() =~= seq![0u32, 0u32]);
        r
    }

    /// The version.
    pub fn version(&self) -> (r: u8)
        ensures
            r == self.spec_version(),
    {
        self.version
    }

    /// The compression.
    pub fn compression_type(&self) -> (r: Compression)
        ensures
            r == self.spec_compression(),
    {
        self.compression_type
    }

    /// The size of the file.
    pub fn file_size(&self) -> (r: u32)
        ensures
            r == self.spec_file_size(),
    {
        self.file_size
    }

    /// The number of padding bytes between the header and the palette, if
    /// the palette starts after the header.
    pub fn padding_size(&self) -> (r: Option<usize>)
        ensures
            r == if self.spec_palette_offset() > HEADER_SIZE {
                Some((self.spec_palette_offset() - HEADER_SIZE) as usize)
            } else {
                None::<usize>
            },
    {
        if self.palette_offset > HEADER_SIZE as u32 {
            Some((self.palette_offset - HEADER_SIZE as u32) as usize)
        } else {
            None
        }
    }

    /// Whether there is padding between the header and the palette.
    pub fn has_padding(&self) -> (r: bool)
        ensures
            r == (self.spec_palette_offset() > HEADER_SIZE),
    {
        self.padding_size().is_some()
    }

    /// The default padding for the image: 0, the width, the height and 0,
    /// as 32-bit little-endian values.
    pub fn create_default_padding(&self) -> (r: Vec<u8>)
        ensures
            r@ == default_padding(self.spec_width(), self.spec_height()),
    {
        let mut bytes: Vec<u8> = Vec::new();
        push_u32(&mut bytes, 0);
        push_u32(&mut bytes, self.width as u32);
        push_u32(&mut bytes, self.height as u32);
        push_u32(&mut bytes, 0);
        assert(bytes@ =~= default_padding(self.spec_width(), self.spec_height()));
        bytes
    }

    /// The width in pixels.
    pub fn width(&self) -> (r: u16)
        ensures
            r == self.spec_width(),
    {
        self.width
    }

    /// The height in pixels.
    pub fn height(&self) -> (r: u16)
        ensures
            r == self.spec_height(),
    {
        self.height
    }

    /// The offset of the palette.
    pub fn palette_offset(&self) -> (r: u32)
        ensures
            r == self.spec_palette_offset(),
    {
        self.palette_offset
    }

    /// The offset of the compressed pixels.
    pub fn data_offset(&self) -> (r: u32)
        ensures
            r == self.spec_data_offset(),
    {
        self.data_offset
    }

    /// Reads the header at the start of `data`.
    pub fn from_bytes(data: &[u8]) -> (r: Result<Header, DvFileError>)
        ensures
            header_ok(data@) ==> (r matches Ok(h) && h.is_header_of(data@)),
            !header_ok(data@) ==> (r matches Err(e) && header_failure(data@, e)),
    {
        if data.len() < HEADER_SIZE {
            return Err(DvFileError::insufficient_data(FileType::Kg, HEADER_SIZE, data.len()));
        }
        let magic = [data[0], data[1]];
        if data[0] != MAGIC_K || data[1] != MAGIC_G {
            let expected = [MAGIC_K, MAGIC_G];
            let e = DvFileError::invalid_magic(FileType::Kg, expected.as_slice(), magic.as_slice());
            assert(expected@ =~= seq![MAGIC_K, MAGIC_G]);
            assert(magic@ =~= data@.subrange(0, 2));
            return Err(e);
        }
        let version = data[2];
        let compression_type = if data[3] == 1 {
            Compression::BPP3
        } else {
            return Err(
                DvFileError::UnsupportedCompressionType {
                    file_type: FileType::Kg,
                    compression_type: data[3],
                },
            );
        };
        let width = read_u16(data, 4);
        let height = read_u16(data, 6);
        let reserved_1 = [data[8], data[9], data[10], data[11]];
        let palette_offset = read_u32(data, 12);
        let data_offset = read_u32(data, 16);
        let file_size = read_u32(data, 20);
        let reserved_2 = [read_u32(data, 24), read_u32(data, 28)];
        let h = Header {
            magic,
            version,
            compression_type,
            width,
            height,
            reserved_1,
            palette_offset,
            data_offset,
            file_size,
            reserved_2,
        };
        assert(h.spec_magic() =~= data@.subrange(0, 2));
        assert(h.spec_reserved_1() =~= data@.subrange(8, 12));
        assert(h.spec_reserved_2() =~= seq![u32_at(data@, 24), u32_at(data@, 28)]);
        Ok(h)
    }

    /// Reads the header from the next 32 bytes of a reader.
    pub fn from_reader(reader: &mut ByteReader) -> (r: Result<Header, DvFileError>)
        ensures
            final(reader).spec_data() == old(reader).spec_data(),
            old(reader).can_read(HEADER_SIZE as int) ==> ({
                let b = old(reader).spec_data().subrange(
                    old(reader).spec_pos() as int,
                    old(reader).spec_pos() + HEADER_SIZE,
                );
                &&& header_ok(b) ==> (r matches Ok(h) && h.is_header_of(b))
                &&& !header_ok(b) ==> (r matches Err(e) && header_failure(b, e))
            }),
            !old(reader).can_read(HEADER_SIZE as int) ==> r == Err::<Header, DvFileError>(
                DvFileError::InsufficientData {
                    file_type: FileType::Kg,
                    expected: HEADER_SIZE,
                    actual: old(reader).spec_remaining() as usize,
                },
            ),
    {
        let left = reader.remaining();
        match reader.read_exact(HEADER_SIZE) {
            Some(b) => Header::from_bytes(b.as_slice()),
            None => Err(
                DvFileError::InsufficientData {
                    file_type: FileType::Kg,
                    expected: HEADER_SIZE,
                    actual: left,
                },
            ),
        }
    }

    /// A description of the header, one field per line.
    pub fn to_string(&self) -> (r: String)
        ensures
            r@ == header_text(*self),
    {
        let mut s = String::from_str(".KG File Header:\n- Magic: ");
        s.append(hex_list_string(self.magic.as_slice()).as_str());
        s.append("\n- Version: ");
        append_decimal(&mut s, self.version as u64);
        s.append("\n- Compression Type: ");
        s.append(self.compression_type.to_string().as_str());
        s.append("\n- Width: ");
        append_decimal(&mut s, self.width as u64);
        s.append(" pixels\n- Height: ");
        append_decimal(&mut s, self.height as u64);
        s.append(" pixels\n- Palette Offset: ");
        append_decimal(&mut s, self.palette_offset as u64);
        s.append(" bytes\n- Image Data Offset: ");
        append_decimal(&mut s, self.data_offset as u64);
        s.append(" bytes\n- File Size: ");
        append_decimal(&mut s, self.file_size as u64);
        s.append(" bytes\n");
        s
    }

    /// The header bytes: magic, version, compression, width, height, the
    /// reserved bytes, the two offsets, the file size and the two reserved
    /// values.
    pub fn to_bytes(&self) -> (r: [u8; HEADER_SIZE])
        ensures
            r@ == header_bytes(*self),
    {
        let mut bytes = [0u8; HEADER_SIZE];
        bytes[0] = self.magic[0];
        bytes[1] = self.magic[1];
        bytes[2] = self.version;
        bytes[3] = self.compression_type.code();
        bytes[4] = (self.width % 256) as u8;
        bytes[5] = (self.width / 256) as u8;
        bytes[6] = (self.height % 256) as u8;
        bytes[7] = (self.height / 256) as u8;
        bytes[8] = self.reserved_1[0];
        bytes[9] = self.reserved_1[1];
        bytes[10] = self.reserved_1[2];
        bytes[11] = self.reserved_1[3];
        let po = self.palette_offset;
        bytes[12] = (po % 256) as u8;
        bytes[13] = ((po / 256) % 256) as u8;
        bytes[14] = ((po / 65536) % 256) as u8;
        bytes[15] = (po / 16777216) as u8;
        let d = self.data_offset;
        bytes[16] = (d % 256) as u8;
        bytes[17] = ((d / 256) % 256) as u8;
        bytes[18] = ((d / 65536) % 256) as u8;
        bytes[19] = (d / 16777216) as u8;
        let f = self.file_size;
        bytes[20] = (f % 256) as u8;
        bytes[21] = ((f / 256) % 256) as u8;
        bytes[22] = ((f / 65536) % 256) as u8;
        bytes[23] = (f / 16777216) as u8;
        let a = self.reserved_2[0];
        bytes[24] = (a % 256) as u8;
        bytes[25] = ((a / 256) % 256) as u8;
        bytes[26] = ((a / 65536) % 256) as u8;
        bytes[27] = (a / 16777216) as u8;
        let b = self.reserved_2[1];
        bytes[28] = (b % 256) as u8;
        bytes[29] = ((b / 256) % 256) as u8;
        bytes[30] = ((b / 65536) % 256) as u8;
        bytes[31] = (b / 16777216) as u8;
        assert(bytes@ =~= header_bytes(*self));
        bytes
    }
}

impl Default for Header {
    fn default() -> (r: Self)
        ensures
            r.spec_magic() == seq![MAGIC_K, MAGIC_G],
            r.spec_version() == 2,
            r.spec_compression() == Compression::BPP3,
            r.spec_width() == 0,
            r.spec_height() == 0,
            r.spec_reserved_1() == seq![0u8, 0u8, 0u8, 0u8],
            r.spec_palette_offset() == 0,
            r.spec_data_offset() == 0,
            r.spec_file_size() == 0,
            r.spec_reserved_2() == seq![0u32, 0u32],
    {
        Header::new()
    }
}

/// A decoded KG image: the header, the padding and palette as stored, and
/// the pixels as RGB triples.
#[derive(Debug)]
pub struct File {
    header: Header,
    padding: Option<Vec<u8>>,
    palette: Option<[[u8; 4]; 256]>,
    pixels: Vec<u8>,
}

/// The colours of a palette, each as its four bytes.
pub open spec fn palette_view(p: Seq<[u8; 4]>) -> Seq<Seq<u8>> {
    p.map_values(|c: [u8; 4]| c@)
}

impl File {
    /// The header.
    pub closed spec fn spec_header(&self) -> Header {
        self.header
    }

    /// The padding between header and palette, if any.
    pub closed spec fn spec_padding(&self) -> Option<Seq<u8>> {
        match self.padding {
            Some(p) => Some(p@),
            None => None,
        }
    }

    /// The palette (red, green, blue, 0 per colour), if any.
    pub closed spec fn spec_palette(&self) -> Option<Seq<Seq<u8>>> {
        match self.palette {
            Some(p) => Some(palette_view(p@)),
            None => None,
        }
    }

    /// The pixels as RGB triples.
    pub closed spec fn spec_pixels(&self) -> Seq<u8> {
        self.pixels@
    }

    /// The header.
    pub fn header(&self) -> (r: &Header)
        ensures
            *r == self.spec_header(),
    {
        &self.header
    }

    /// The padding between header and palette, if any.
    pub fn padding(&self) -> (r: Option<&Vec<u8>>)
        ensures
            match self.spec_padding() {
                Some(p) => r matches Some(v) && v@ == p,
                None => r is None,
            },
    {
        match &self.padding {
            Some(v) => Some(v),
            None => None,
        }
    }

    /// The palette, if any.
    pub fn palette(&self) -> (r: Option<&[[u8; 4]; 256]>)
        ensures
            match self.spec_palette() {
                Some(p) => r matches Some(q) && palette_view(q@) == p,
                None => r is None,
            },
    {
        match &self.palette {
            Some(p) => Some(p),
            None => None,
        }
    }

    /// The pixels as RGB triples.
    pub fn pixels(&self) -> (r: &[u8])
        ensures
            r@ == self.spec_pixels(),
    {
        self.pixels.as_slice()
    }

    /// Reads an image from the rest of a reader.
    pub fn from_reader(reader: &mut ByteReader) -> (r: Result<File, DvFileError>)
        ensures
            final(reader).spec_data() == old(reader).spec_data(),
            decode::decompressed(old(reader).rest(), r),
    {
        let data = reader.read_to_end();
        decompress(data.as_slice())
    }

    /// Compresses the image back into KG bytes (see `compress`).
    pub fn to_bytes(&self) -> (r: Result<Vec<u8>, DvFileError>)
        ensures
            encode::compressed(
                self.spec_pixels(),
                self.spec_header().spec_width(),
                self.spec_header().spec_height(),
                r,
            ),
    {
        compress_file(self)
    }
}

} // verus!
