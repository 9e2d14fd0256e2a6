//! Error types for file format parsing and manipulation.

use vstd::prelude::*;
use vstd::string::StringExecFns;

verus! {

/// File type identifier.
#[derive(Debug, Clone, Copy, PartialEq, Eq, Hash)]
pub enum FileType {
    /// PFT archive index
    Pft,
    /// DSK data container
    Dsk,
    /// EFC sound effect bank
    Efc,
    /// Startup configuration
    StartupIni,
    /// Font file
    Fnt,
    /// Item data file
    Item,
    /// KG image file
    Kg,
    /// MFD mouse cursor animation file
    Mfd,
    /// SPR sprite animation file
    Spr,
    /// ANM animation script file
    Anm,
}

/// The display name of a file type.
pub open spec fn file_type_name(t: FileType) -> Seq<char> {
    match t {
        FileType::Pft => "PFT"@,
        FileType::Dsk => "DSK"@,
        FileType::Efc => "EFC"@,
        FileType::StartupIni => "Startup.ini"@,
        FileType::Fnt => "FNT"@,
        FileType::Item => "ITEM"@,
        FileType::Kg => "KG"@,
        FileType::Mfd => "MFD"@,
        FileType::Spr => "SPR"@,
        FileType::Anm => "ANM"@,
    }
}

impl FileType {
    /// The display name, such as "PFT" or "Startup.ini".
    pub fn to_string(&self) -> (r: String)
        ensures
            r@ == file_type_name(*self),
    {
        match self {
            FileType::Pft => String::from_str("PFT"),
            FileType::Dsk => String::from_str("DSK"),
            FileType::Efc => String::from_str("EFC"),
            FileType::StartupIni => String::from_str("Startup.ini"),
            FileType::Fnt => String::from_str("FNT"),
            FileType::Item => String::from_str("ITEM"),
            FileType::Kg => String::from_str("KG"),
            FileType::Mfd => String::from_str("MFD"),
            FileType::Spr => String::from_str("SPR"),
            FileType::Anm => String::from_str("ANM"),
        }
    }

    /// The typical file extension for this file type.
    pub fn extension(&self) -> (r: &'static str)
        ensures
            r@ == spec_extension(*self),
    {
        match self {
            FileType::Pft => "PFT",
            FileType::Dsk => "DSK",
            FileType::Efc => "EFC",
            FileType::StartupIni => "ini",
            FileType::Fnt => "FNT",
            FileType::Item => "dat",
            FileType::Kg => "",
            FileType::Mfd => "MFD",
            FileType::Spr => "SPR",
            FileType::Anm => "ANM",
        }
    }

    /// A human-readable description of this file type.
    pub fn description(&self) -> (r: &'static str)
        ensures
            r@ == spec_description(*self),
    {
        match self {
            FileType::Pft => "Archive index file",
            FileType::Dsk => "Archive data file",
            FileType::StartupIni => "Startup configuration",
            FileType::Fnt => "Font file",
            FileType::Item => "Item database",
            FileType::Kg => "Compressed image file",
            FileType::Efc => "Sound effect file",
            FileType::Mfd => "Mouse cursor animation file",
            FileType::Spr => "Sprite animation file",
            FileType::Anm => "Animation script file",
        }
    }

    /// The short display name of this file type.
    pub fn name(&self) -> (r: &'static str)
        ensures
            r@ == spec_name(*self),
    {
        match self {
            FileType::Pft => "PFT",
            FileType::Dsk => "DSK",
            FileType::Efc => "EFC",
            FileType::StartupIni => "Startup.ini",
            FileType::Fnt => "FNT",
            FileType::Item => "ITEM",
            FileType::Kg => "KG",
            FileType::Mfd => "MFD",
            FileType::Spr => "SPR",
            FileType::Anm => "ANM",
        }
    }
}

/// The extension of each file type.
pub open spec fn spec_extension(t: FileType) -> Seq<char> {
    match t {
        FileType::Pft => "PFT"@,
        FileType::Dsk => "DSK"@,
        FileType::Efc => "EFC"@,
        FileType::StartupIni => "ini"@,
        FileType::Fnt => "FNT"@,
        FileType::Item => "dat"@,
        FileType::Kg => ""@,
        FileType::Mfd => "MFD"@,
        FileType::Spr => "SPR"@,
        FileType::Anm => "ANM"@,
    }
}

/// The description of each file type.
pub open spec fn spec_description(t: FileType) -> Seq<char> {
    match t {
        FileType::Pft => "Archive index file"@,
        FileType::Dsk => "Archive data file"@,
        FileType::StartupIni => "Startup configuration"@,
        FileType::Fnt => "Font file"@,
        FileType::Item => "Item database"@,
        FileType::Kg => "Compressed image file"@,
        FileType::Efc => "Sound effect file"@,
        FileType::Mfd => "Mouse cursor animation file"@,
        FileType::Spr => "Sprite animation file"@,
        FileType::Anm => "Animation script file"@,
    }
}

/// The display name of each file type.
pub open spec fn spec_name(t: FileType) -> Seq<char> {
    match t {
        FileType::Pft => "PFT"@,
        FileType::Dsk => "DSK"@,
        FileType::Efc => "EFC"@,
        FileType::StartupIni => "Startup.ini"@,
        FileType::Fnt => "FNT"@,
        FileType::Item => "ITEM"@,
        FileType::Kg => "KG"@,
        FileType::Mfd => "MFD"@,
        FileType::Spr => "SPR"@,
        FileType::Anm => "ANM"@,
    }
}

/// Unified error type for all file format operations.
#[derive(Debug)]
pub enum DvFileError {
    /// Not enough data to parse
    InsufficientData { file_type: FileType, expected: usize, actual: usize },
    /// Invalid magic number
    InvalidMagic { file_type: FileType, expected: Vec<u8>, actual: Vec<u8> },
    /// Unsupported compression type (KG files)
    UnsupportedCompressionType { file_type: FileType, compression_type: u8 },
    /// Entry count mismatch (PFT files)
    EntryCountMismatch { file_type: FileType, expected: u32, actual: usize },
    /// Block index out of range
    BlockOutOfRange { file_type: FileType, index: u32, total: usize },
    /// Invalid extraction
    InvalidExtraction { file_type: FileType, required: usize, available: usize },
    /// File too large
    FileTooLarge {
        file_type: FileType,
        size: usize,
        blocks_needed: usize,
        blocks_available: usize,
    },
    /// Character code out of range (FNT files)
    CodeOutOfRange { file_type: FileType, code: u16, max_code: u16 },
    /// Buffer underflow during decompression (KG files)
    UnderflowError { file_type: FileType, message: String },
    /// Decompression error (KG files)
    DecompressionError { file_type: FileType, message: String },
    /// Compression error (KG files)
    CompressionError { file_type: FileType, message: String },
    /// Entry not found
    EntryNotFound { file_type: FileType, message: String },
    /// Text field with a bad encoding
    BadEncoding { file_type: FileType, message: String },
}

impl DvFileError {
    /// The file type associated with this error.
    pub fn file_type(&self) -> (r: Option<FileType>)
        ensures
            r == Some(self.spec_file_type()),
    {
        match self {
            DvFileError::InsufficientData { file_type, .. } => Some(*file_type),
            DvFileError::InvalidMagic { file_type, .. } => Some(*file_type),
            DvFileError::UnsupportedCompressionType { file_type, .. } => Some(*file_type),
            DvFileError::EntryCountMismatch { file_type, .. } => Some(*file_type),
            DvFileError::BlockOutOfRange { file_type, .. } => Some(*file_type),
            DvFileError::InvalidExtraction { file_type, .. } => Some(*file_type),
            DvFileError::FileTooLarge { file_type, .. } => Some(*file_type),
            DvFileError::CodeOutOfRange { file_type, .. } => Some(*file_type),
            DvFileError::UnderflowError { file_type, .. } => Some(*file_type),
            DvFileError::DecompressionError { file_type, .. } => Some(*file_type),
            DvFileError::CompressionError { file_type, .. } => Some(*file_type),
            DvFileError::EntryNotFound { file_type, .. } => Some(*file_type),
            DvFileError::BadEncoding { file_type, .. } => Some(*file_type),
        }
    }

    /// The file type field of each variant.
    pub open spec fn spec_file_type(&self) -> FileType {
        match self {
            DvFileError::InsufficientData { file_type, .. } => *file_type,
            DvFileError::InvalidMagic { file_type, .. } => *file_type,
            DvFileError::UnsupportedCompressionType { file_type, .. } => *file_type,
            DvFileError::EntryCountMismatch { file_type, .. } => *file_type,
            DvFileError::BlockOutOfRange { file_type, .. } => *file_type,
            DvFileError::InvalidExtraction { file_type, .. } => *file_type,
            DvFileError::FileTooLarge { file_type, .. } => *file_type,
            DvFileError::CodeOutOfRange { file_type, .. } => *file_type,
            DvFileError::UnderflowError { file_type, .. } => *file_type,
            DvFileError::DecompressionError { file_type, .. } => *file_type,
            DvFileError::CompressionError { file_type, .. } => *file_type,
            DvFileError::EntryNotFound { file_type, .. } => *file_type,
            DvFileError::BadEncoding { file_type, .. } => *file_type,
        }
    }

    /// Whether this is an insufficient data error.
    pub fn is_insufficient_data(&self) -> (r: bool)
        ensures
            r == (self is InsufficientData),
    {
        match self {
            DvFileError::InsufficientData { .. } => true,
            _ => false,
        }
    }

    /// Whether this is an invalid magic error.
    pub fn is_invalid_magic(&self) -> (r: bool)
        ensures
            r == (self is InvalidMagic),
    {
        match self {
            DvFileError::InvalidMagic { .. } => true,
            _ => false,
        }
    }

    /// Whether this is a decompression-related error.
    pub fn is_decompression_error(&self) -> (r: bool)
        ensures
            r == (self is UnsupportedCompressionType || self is UnderflowError
                || self is DecompressionError),
    {
        match self {
            DvFileError::UnsupportedCompressionType { .. } => true,
            DvFileError::UnderflowError { .. } => true,
            DvFileError::DecompressionError { .. } => true,
            _ => false,
        }
    }

    /// Creates an insufficient data error.
    pub fn insufficient_data(file_type: FileType, expected: usize, actual: usize) -> (r: Self)
        ensures
            r == (DvFileError::InsufficientData { file_type, expected, actual }),
    {
        DvFileError::InsufficientData { file_type, expected, actual }
    }

    /// Creates an invalid magic error.
    pub fn invalid_magic(file_type: FileType, expected: &[u8], actual: &[u8]) -> (r: Self)
        ensures
            r matches DvFileError::InvalidMagic { file_type: t, expected: e, actual: a } && t
                == file_type && e@ == expected@ && a@ == actual@,
    {
        DvFileError::InvalidMagic {
            file_type,
            expected: crate::file::le::copy_range(expected, 0, expected.len()),
            actual: crate::file::le::copy_range(actual, 0, actual.len()),
        }
    }
}

/// Errors of the ITEM data file.
#[derive(Debug)]
pub enum ItemError {
    /// Not enough data to parse
    InsufficientData { expected: usize, actual: usize },
    /// The stored checksum does not match the decrypted data
    ChecksumMismatch { expected: u32, actual: u32 },
    /// The data section is not a whole number of records
    InvalidRecordCount { total_bytes: usize, record_size: usize },
}

/// Errors of the font file.
#[derive(Debug)]
pub enum FntError {
    /// Not enough data to parse
    InsufficientData { expected: usize, actual: usize },
    /// Invalid font size value
    InvalidFontSize(u32),
    /// Character code out of range of the offset table
    CodeOutOfRange { code: u16, max_code: u16 },
    /// Glyph for the character code already exists
    GlyphAlreadyExists { code: u16 },
}

/// Errors of the startup settings file.
#[derive(Debug)]
pub enum StartupIniError {
    /// Not enough data to parse
    InsufficientData { expected: usize, actual: usize },
    /// Invalid opening mode value
    InvalidOpeningMode(u8),
    /// Invalid VGA mode value
    InvalidVgaMode(u8),
    /// Invalid render mode value
    InvalidRenderMode(u32),
}

/// Errors of the DSK block container.
#[derive(Debug)]
pub enum DskError {
    /// Block index out of range
    BlockOutOfRange { index: u32, total: usize },
    /// The entry asks for more bytes than its blocks hold
    InvalidExtraction { required: usize, available: usize },
    /// An entry does not fit into the container
    FileTooLarge { size: usize, blocks_needed: usize, blocks_available: usize },
    /// No entry of the given name
    NotFound { name: String },
    /// A read runs past the end of the container data
    UnexpectedEnd { offset: u64, needed: usize, available: usize },
}

} // verus!
