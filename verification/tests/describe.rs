use dvine_types::file::anm::{File as AnmFile, FrameDescriptor};
use dvine_types::file::efc::{AdpcmDataHeader, SoundDataHeader};
use dvine_types::file::fnt::glyph::Glyph;
use dvine_types::file::fnt::FontSize;
use dvine_types::file::kg::Compression;
use dvine_types::file::mfd::Frame as MfdFrame;
use dvine_types::file::pft::{Entry, File as PftFile};
use dvine_types::file::spr::{Frame as SprFrame, FrameEntry};
use dvine_types::file::startup_ini::StartupIni;
use dvine_types::file::FileType;

#[test]
fn describe_file_types() {
    assert_eq!(FileType::StartupIni.to_string(), "Startup.ini");
    assert_eq!(FileType::Pft.to_string(), "PFT");
    assert_eq!(Compression::BPP3.to_string(), "BPP3");
    assert_eq!(FontSize::FS16x16.to_string(), "16x16");
}

#[test]
fn describe_descriptors() {
    assert_eq!(FrameDescriptor::frame(12, 345).to_string(), "Frame(id=12, dur=345)");
    assert_eq!(FrameDescriptor::End.to_string(), "End");
    assert_eq!(FrameDescriptor::Jump { target: 0 }.to_string(), "Jump(→0)");
    assert_eq!(FrameDescriptor::Sound { sound_id: 7 }.to_string(), "Sound(7)");
    assert_eq!(AnmFile::new().to_string(), "ANM File (0 sequences)");
}

#[test]
fn describe_glyph_in_hex() {
    let glyph = Glyph::blank(0x82A0, FontSize::FS24x24);
    assert_eq!(glyph.to_string(), "Glyph: code=0x82A0, size=24x24");
}

#[test]
fn describe_pft() {
    let file = PftFile::new(vec![Entry::new("A.BIN", 3, 100)]);
    assert_eq!(
        file.to_string(),
        "PFT File: PFT { magic: [10, 00, 00, 08], num_entries: 1 }\nEntries:\n  Entry { name: 'A.BIN', index: 3, actual_size: 100 }\n"
    );
}

#[test]
fn describe_frames() {
    let entry = FrameEntry::new(0, 0, 3, 2, 1, 0);
    assert_eq!(entry.to_string(), "3×2 (hotspot: 1, 0)");
    let frame = SprFrame::new(entry, vec![0; 6], vec![0; 6]);
    assert_eq!(frame.to_string(), "3×2 (hotspot: 1, 0) - 6 pixels");
    let cursor = MfdFrame::blank(24, 16, -8, 4);
    assert_eq!(cursor.to_string(), "Frame: 24x16 hotspot=(-8,4)");
}

#[test]
fn describe_headers() {
    let h = SoundDataHeader { sound_type: 1, unknown_1: 0, priority: 300 };
    assert_eq!(h.to_string(), "SoundDataHeader:\n- Sound Type: 1\n- Unknown 1: 0\n- Priority: 300");
    let a = AdpcmDataHeader {
        sample_rate: 22050,
        channels: 1,
        unknown: 0,
        step_table: [0; 89],
        sample_count: 10,
    };
    assert_eq!(
        a.to_string(),
        "AdpcmDataHeader:\n- Sample Rate: 22050 Hz\n- Channels: 1\n- Unknown: 0\n- Sample Count: 10"
    );
    let ini = StartupIni::default();
    assert_eq!(
        ini.to_string(),
        "Startup INI:\n  Opening Mode: Normal\n  VGA Mode: Default\n  Render Mode: VSYNC ON\n  Window Rect: [0, 0, 0, 0]\n"
    );
}
