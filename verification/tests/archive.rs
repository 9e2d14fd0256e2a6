use dvine_types::file::dsk::File as DskFile;
use dvine_types::file::pft::{Entry, File as PftFile, Header};
use dvine_types::file::startup_ini::{OpeningMode, RenderMode, StartupIni, VgaMode};
use dvine_types::file::{DskError, DvFileError};

fn sample_archive() -> (Vec<u8>, PftFile) {
    let mut data = vec![0u8; 2048 * 3];
    for (i, b) in data.iter_mut().enumerate() {
        *b = (i % 251) as u8;
    }
    let entries = vec![Entry::new("ONE.BIN", 0, 10), Entry::new("TWO.BIN", 1, 3000)];
    (data, PftFile::new(entries))
}

// An entry's bytes are cut from its first block, as long as it says.
#[test]
fn dsk_extract_by_name() {
    let (data, pft) = sample_archive();
    let mut dsk = DskFile::from_bytes(data.clone(), pft);
    let one = dsk.extract_by_name("ONE.BIN").unwrap();
    assert_eq!(one, data[..10].to_vec());
    let two = dsk.extract_by_index(1).unwrap();
    assert_eq!(two, data[2048..2048 + 3000].to_vec());
    assert_eq!(dsk.num_files(), 2);
    assert!(dsk.contains("TWO.BIN"));
    assert!(!dsk.contains("NONE"));
}

// A missing name, an index past the entries and an entry past the data are
// all refused.
#[test]
fn dsk_extract_errors() {
    let (data, _) = sample_archive();
    let pft = PftFile::new(vec![Entry::new("BIG", 2, 5000)]);
    let mut dsk = DskFile::from_bytes(data, pft);
    assert!(matches!(dsk.extract_by_name("X"), Err(DskError::NotFound { .. })));
    assert!(dsk.extract_by_index(3).is_err());
    assert!(dsk.extract_by_index(0).is_err());
    assert!(dsk.validate().is_err());
}

// The iterator hands out each entry with its data.
#[test]
fn dsk_iterates_entries() {
    let (data, pft) = sample_archive();
    let mut dsk = DskFile::from_bytes(data, pft);
    assert_eq!(dsk.num_blocks(), 3);
    let mut it = dsk.iter();
    let (e, bytes) = it.next().unwrap().unwrap();
    assert_eq!(e.name(), "ONE.BIN");
    assert_eq!(bytes.len(), 10);
    let (_, bytes) = it.next().unwrap().unwrap();
    assert_eq!(bytes.len(), 3000);
    assert!(it.next().is_none());
}

// A PFT file read back from its bytes has the same entries.
#[test]
fn pft_roundtrip() {
    let (_, pft) = sample_archive();
    let bytes = pft.to_bytes();
    assert_eq!(bytes.len(), 16 + 2 * 16);
    let loaded = PftFile::from_bytes(&bytes).unwrap();
    assert_eq!(loaded.num_entries(), 2);
    assert_eq!(loaded.get_entry(1).unwrap().name(), "TWO.BIN");
    assert_eq!(loaded.find_entry("ONE.BIN").unwrap().actual_size, 10);
    assert_eq!(loaded.entries()[1].blocks_needed(), 2);
}

// A PFT header of fewer than 16 bytes is refused.
#[test]
fn pft_header_too_short() {
    assert!(matches!(Header::from_bytes(&[0u8; 4]), Err(DvFileError::InsufficientData { .. })));
}

// Entry names keep at most eight bytes.
#[test]
fn pft_entry_name_truncated() {
    let e = Entry::new("ABCDEFGHIJ", 0, 1);
    assert_eq!(e.name(), "ABCDEFGH");
    assert_eq!(Entry::new("X", 0, 2049).blocks_needed(), 2);
}

// Settings written are read back.
#[test]
fn startup_ini_roundtrip() {
    let mut ini = StartupIni::default();
    ini.set_opening_mode(OpeningMode::from_u8(1).unwrap());
    ini.set_window_rect([1, 2, 3, 4]);
    let bytes = ini.to_bytes();
    assert_eq!(bytes.len(), StartupIni::size());
    let loaded = StartupIni::from_bytes(&bytes).unwrap();
    assert_eq!(loaded.window_rect(), [1, 2, 3, 4]);
    assert_eq!(loaded.opening_mode().to_u8(), 1);
    assert_eq!(loaded.vga_mode().to_u8(), ini.vga_mode().to_u8());
    assert_eq!(loaded.render_mode().to_u32(), ini.render_mode().to_u32());
}

// Out-of-range setting values are refused.
#[test]
fn startup_ini_rejects_bad_values() {
    assert!(OpeningMode::from_u8(200).is_err());
    assert!(VgaMode::from_u8(200).is_err());
    assert!(RenderMode::from_u32(200).is_err());
    assert!(StartupIni::from_bytes(&[0u8; 3]).is_err());
}
