use dvine_types::file::mfd::{AnimationEntry, File, FileBuilder, Frame};

#[test]
fn test_frame_creation() {
    let frame = Frame::blank(8, 8, 0, 0);
    assert_eq!(frame.width(), 8);
    assert_eq!(frame.height(), 8);
    assert_eq!(frame.pixel_count(), 64);
}

#[test]
fn test_builder_basic() {
    let mut builder = FileBuilder::new();
    let frame1 = Frame::blank(24, 24, 0, 0);
    let frame2 = Frame::blank(32, 32, -16, -16);

    builder.add_frame(frame1).unwrap();
    builder.add_frame(frame2).unwrap();

    assert_eq!(builder.frame_count(), 2);
    assert_eq!(builder.bitmap_size(), 24 * 24 + 32 * 32);

    let file = builder.build().unwrap();
    assert_eq!(file.frame_count(), 2);
}

#[test]
fn test_builder_size_limit() {
    let mut builder = FileBuilder::new();
    let frame = Frame::blank(800, 800, 0, 0);

    builder.add_frame(frame.clone()).unwrap();

    let result = builder.add_frame(frame);
    assert!(result.is_err());
}

#[test]
fn test_file_roundtrip() {
    let mut builder = FileBuilder::new();
    let frame1 = Frame::blank(24, 24, 0, 0);
    let frame2 = Frame::blank(32, 32, -8, -8);

    builder.add_frame(frame1).unwrap();
    builder.add_frame(frame2).unwrap();

    let file = builder.build().unwrap();
    let bytes = file.to_bytes().unwrap();
    let loaded = File::from_bytes(&bytes).unwrap();

    assert_eq!(file.frame_count(), loaded.frame_count());
    assert_eq!(file.frames(), loaded.frames());
}

// A pixel written inside the frame reads back; one outside is refused.
#[test]
fn frame_pixel_set_and_get() {
    let mut frame = Frame::blank(4, 3, 1, -1);
    assert!(frame.set_pixel(2, 1, 2));
    assert_eq!(frame.get_pixel(2, 1), Some(2));
    assert_eq!(frame.get_pixel(0, 0), Some(0));
    assert!(!frame.set_pixel(4, 0, 1));
    assert_eq!(frame.get_pixel(4, 0), None);
    assert_eq!(frame.pixels()[4 + 2], 2);
}

// The default palette maps the three pixel values to the three colours.
#[test]
fn frame_to_rgba_uses_palette() {
    let frame = Frame::new(3, 1, 0, 0, vec![0, 1, 2]);
    let palette = [[0, 0, 0, 0], [1, 2, 3, 255], [4, 5, 6, 255]];
    let rgba = frame.to_rgba_with_palette(&palette);
    assert_eq!(rgba, vec![0, 0, 0, 0, 1, 2, 3, 255, 4, 5, 6, 255]);
}

// Text art draws one line per row.
#[test]
fn frame_ascii_art() {
    let frame = Frame::new(2, 2, 0, 0, vec![0, 1, 2, 0]);
    assert_eq!(frame.to_ascii_art('.', '#', '@'), ".#\n@.\n");
}

// A rectangle that leaves the frame is refused and nothing changes.
#[test]
fn frame_fill_rect_bounds() {
    let mut frame = Frame::blank(3, 3, 0, 0);
    assert!(frame.fill_rect(1, 1, 2, 2, 1));
    assert_eq!(frame.pixels(), &[0, 0, 0, 0, 1, 1, 0, 1, 1]);
    assert!(!frame.fill_rect(2, 2, 2, 2, 2));
    assert_eq!(frame.pixels(), &[0, 0, 0, 0, 1, 1, 0, 1, 1]);
}

// Animation tables survive writing and reading.
#[test]
fn file_roundtrip_with_animation_tables() {
    let mut builder = FileBuilder::new();
    builder.add_frame(Frame::new(2, 1, 0, 0, vec![1, 2])).unwrap();
    builder.animation_sequences(vec![0, 1]);
    builder.animation_index_table(vec![AnimationEntry::new(0, 5), AnimationEntry::loop_marker(0)]);
    let file = builder.build().unwrap();
    let loaded = File::from_bytes(&file.to_bytes().unwrap()).unwrap();
    assert_eq!(loaded.frames(), file.frames());
    assert_eq!(loaded.animation_index_table(), file.animation_index_table());
    assert!(AnimationEntry::loop_marker(0).is_loop_marker());
}

// A new file has no room for bitmap data, so adding a frame is refused.
#[test]
fn empty_file_refuses_frames() {
    let mut file = File::new();
    assert!(file.add_frame(Frame::blank(1, 1, 0, 0)).is_err());
    assert_eq!(file.frame_count(), 0);
}

// Removing a frame shifts the later ones down.
#[test]
fn file_remove_frame() {
    let mut builder = FileBuilder::new();
    builder.add_frame(Frame::blank(1, 1, 0, 0)).unwrap();
    builder.add_frame(Frame::blank(2, 1, 0, 0)).unwrap();
    let mut file = builder.build().unwrap();
    let removed = file.remove_frame(0).unwrap();
    assert_eq!(removed.width(), 1);
    assert_eq!(file.frame_count(), 1);
    assert_eq!(file.frame(0).unwrap().width(), 2);
    assert!(file.remove_frame(5).is_none());
}

// A frame changed in place, and the frames in order.
#[test]
fn frame_mut_and_iter() {
    let mut builder = FileBuilder::new();
    builder.add_frame(Frame::blank(2, 2, 0, 0)).unwrap();
    builder.add_frame(Frame::blank(3, 1, 0, 0)).unwrap();
    let mut file = builder.build().unwrap();
    assert!(file.frame_mut(0).unwrap().set_pixel(1, 1, 2));
    assert!(file.frame_mut(2).is_none());
    assert_eq!(file.frame(0).unwrap().get_pixel(1, 1), Some(2));
    let widths: Vec<u16> = file.iter().map(|f| f.width()).collect();
    assert_eq!(widths, vec![2, 3]);
}

// A rectangle whose end lies past 65535 is refused, not wrapped.
#[test]
fn frame_fill_rect_far_out_of_bounds() {
    let mut frame = Frame::blank(4, 4, 0, 0);
    assert!(!frame.fill_rect(65535, 0, 2, 1, 1));
    assert!(!frame.fill_rect(0, 65000, 1, 1000, 1));
    assert_eq!(frame.pixels(), &[0u8; 16]);
}
