use dvine_types::file::spr::{File, Frame, FrameEntry, Palette};

#[test]
fn test_new_file() {
    let file = File::new();
    assert_eq!(file.frame_count(), 0);
    assert_eq!(file.entries().len(), 0);
}

#[test]
fn test_add_frame() {
    let mut file = File::new();

    let entry = FrameEntry::new(0, 0, 2, 2, 1, 1);
    let sprite = vec![176, 177, 178, 179];
    let mask = vec![0xFF; 4];
    let frame = Frame::new(entry, sprite, mask);

    assert!(file.add_frame(frame).is_ok());
    assert_eq!(file.frame_count(), 1);

    let retrieved = file.get_frame(0).unwrap();
    assert_eq!(retrieved.width(), 2);
    assert_eq!(retrieved.height(), 2);
}

#[test]
fn test_roundtrip() {
    let mut file = File::new();

    let entry = FrameEntry::new(0, 0, 3, 3, 1, 1);
    let sprite = vec![176; 9];
    let mask = vec![0xFF; 9];
    let frame = Frame::new(entry, sprite.clone(), mask.clone());
    file.add_frame(frame).unwrap();

    let bytes = file.to_bytes();
    let loaded = File::from_bytes(&bytes).unwrap();

    assert_eq!(loaded.frame_count(), 1);
    let loaded_frame = loaded.get_frame(0).unwrap();
    assert_eq!(loaded_frame.sprite_pixels(), &sprite[..]);
    assert_eq!(loaded_frame.mask_pixels(), &mask[..]);
}

// Frames are laid out one after another: the second frame's data starts
// after the first frame's colour and mask planes.
#[test]
fn add_two_frames_then_get_both() {
    let mut file = File::new();
    file.add_frame(Frame::new(FrameEntry::new(0, 0, 1, 2, 0, 0), vec![1, 2], vec![3, 4])).unwrap();
    file.add_frame(Frame::new(FrameEntry::new(0, 0, 2, 1, 0, 0), vec![5, 6], vec![7, 8])).unwrap();
    let second = file.get_frame(1).unwrap();
    assert_eq!(second.sprite_pixels(), &[5, 6]);
    assert_eq!(second.mask_pixels(), &[7, 8]);
    assert!(file.get_frame(2).is_none());
    let loaded = File::from_bytes(&file.to_bytes()).unwrap();
    assert_eq!(loaded.get_frame(0).unwrap().sprite_pixels(), &[1, 2]);
    assert_eq!(loaded.get_frame(1).unwrap().mask_pixels(), &[7, 8]);
}

// Each new frame's descriptor points past the data already stored.
#[test]
fn add_frame_sets_offsets() {
    let mut file = File::new();
    file.add_frame(Frame::new(FrameEntry::new(9, 9, 2, 1, 0, 0), vec![1, 2], vec![3, 4])).unwrap();
    file.add_frame(Frame::new(FrameEntry::new(9, 9, 1, 1, 0, 0), vec![5], vec![6])).unwrap();
    let e0 = file.get_entry(0).unwrap();
    let e1 = file.get_entry(1).unwrap();
    assert_eq!((e0.color_offset, e0.mask_offset), (0, 2));
    assert_eq!((e1.color_offset, e1.mask_offset), (4, 5));
}

// Pixel access by coordinates, inside and outside the frame.
#[test]
fn frame_pixel_access() {
    let mut frame = Frame::new(FrameEntry::new(0, 0, 2, 2, 0, 0), vec![1, 2, 3, 4], vec![0; 4]);
    assert_eq!(frame.get_sprite_pixel(1, 1), Some(4));
    assert_eq!(frame.get_sprite_pixel(2, 0), None);
    assert!(frame.set_mask_pixel(0, 1, 9));
    assert_eq!(frame.get_mask_pixel(0, 1), Some(9));
    assert!(!frame.set_sprite_pixel(0, 2, 9));
}

// A palette entry written is read back.
#[test]
fn palette_set_get() {
    let mut palette = Palette::new();
    palette.set(7, (1, 2, 3, 4));
    assert_eq!(palette.get(7), Some((1, 2, 3, 4)));
    assert_eq!(palette.get(8), Some((0, 0, 0, 0)));
    assert_eq!(palette.get(80), None);
    assert_eq!(palette.get(255), None);
    let loaded = Palette::from_bytes(&palette.to_bytes()).unwrap();
    assert_eq!(loaded.get(7), Some((1, 2, 3, 4)));
    assert!(Palette::from_bytes(&[0u8; 10]).is_err());
}

// Stored pixel values are palette indices shifted by 0xB0.
#[test]
fn sprite_pixel_encoding() {
    assert_eq!(Frame::encode_sprite_pixel(Frame::decode_sprite_pixel(0xB5)), 0xB5);
}
