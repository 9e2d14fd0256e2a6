use dvine_types::file::anm::constants;
use dvine_types::file::anm::{
    compute_slot_windows, AnimationSequence, File, FrameDescriptor, ParseConfig, SlotDataWindow,
};
use dvine_types::file::{DvFileError, FileType};

fn empty_anm_file_bytes() -> Vec<u8> {
    let mut data = vec![0u8; constants::HEADER_SIZE + constants::INDEX_TABLE_SIZE];
    for slot in 0..constants::ANIMATION_SLOT_COUNT {
        let offset = constants::INDEX_TABLE_OFFSET + slot * 2;
        data[offset] = 0xFF;
        data[offset + 1] = 0xFF;
    }
    data
}

fn serialize_frames(frames: &[FrameDescriptor]) -> Vec<u8> {
    frames.iter().flat_map(|frame| frame.to_bytes()).collect()
}

#[test]
fn test_from_bytes_rejects_missing_null_terminator() {
    let mut data = empty_anm_file_bytes();
    let mut name = [0u8; constants::SPR_FILENAME_FIELD_LEN];
    for (i, byte) in name.iter_mut().enumerate() {
        *byte = b'A' + i as u8;
    }
    data[..constants::SPR_FILENAME_FIELD_LEN].copy_from_slice(&name);

    let err = File::from_bytes(&data).expect_err("header validation should fail");
    match err {
        DvFileError::BadEncoding { message, .. } => assert!(message.contains("null terminator")),
        _ => panic!("Unexpected error: {err:?}"),
    }
}

#[test]
fn test_from_bytes_rejects_non_zero_header_padding() {
    let mut data = empty_anm_file_bytes();
    let filename = b"agmagic.SPR\0";
    data[..filename.len()].copy_from_slice(filename);
    data[constants::HEADER_PADDING_OFFSET] = 1;

    let err = File::from_bytes(&data).expect_err("padding validation should fail");
    match err {
        DvFileError::BadEncoding { message, .. } => assert!(message.contains("Header padding")),
        _ => panic!("Unexpected error: {err:?}"),
    }
}

#[test]
fn test_spr_filename_empty_by_default() {
    let file = File::new();
    assert_eq!(file.spr_filename(), "");
}

#[test]
fn test_set_and_get_spr_filename() {
    let mut file = File::new();
    file.set_spr_filename("test.spr").unwrap();
    assert_eq!(file.spr_filename(), "test.spr");
}

#[test]
fn test_set_spr_filename_case_insensitive() {
    let mut file = File::new();
    file.set_spr_filename("AGMAGIC.SPR").unwrap();
    assert_eq!(file.spr_filename(), "AGMAGIC.SPR");

    file.set_spr_filename("agmagic.spr").unwrap();
    assert_eq!(file.spr_filename(), "agmagic.spr");
}

#[test]
fn test_set_spr_filename_rejects_long_names() {
    let mut file = File::new();
    let long_name = "a".repeat(50);
    let err = file.set_spr_filename(&long_name).expect_err("length validation should fail");
    match err {
        DvFileError::BadEncoding { message, .. } => {
            assert!(message.contains("at most 11 characters"))
        }
        _ => panic!("Unexpected error: {err:?}"),
    }
}

#[test]
fn test_set_spr_filename_rejects_non_ascii() {
    let mut file = File::new();
    let result = file.set_spr_filename("测试.spr");
    assert!(result.is_err());
}

#[test]
fn test_spr_filename_roundtrip() {
    let mut file = File::new();
    file.set_spr_filename("agmagic.SPR").unwrap();

    let bytes = file.to_bytes();
    let loaded = File::from_bytes(&bytes).unwrap();

    assert_eq!(loaded.spr_filename(), "agmagic.SPR");
}

#[test]
fn test_spr_filename_in_header() {
    let mut file = File::new();
    file.set_spr_filename("test.spr").unwrap();

    let header = file.header();
    assert_eq!(&header[0..8], b"test.spr");
    assert_eq!(header[8], 0);
    (9..constants::HEADER_SIZE).for_each(|i| {
        assert_eq!(header[i], 0);
    });
}

#[test]
fn test_index_table_uses_word_offsets() {
    let mut file = File::new();

    let mut seq1 = AnimationSequence::new();
    seq1.add_frame(FrameDescriptor::frame(1, 10));
    seq1.add_frame(FrameDescriptor::frame(2, 20));
    seq1.add_hold_marker();
    file.set_sequence(0, seq1).unwrap();

    let mut seq2 = AnimationSequence::new();
    seq2.add_frame(FrameDescriptor::frame(3, 30));
    seq2.add_hold_marker();
    file.set_sequence(1, seq2).unwrap();

    let bytes = file.to_bytes();

    let index_0 = u16::from_le_bytes([bytes[0x20], bytes[0x21]]);
    let index_1 = u16::from_le_bytes([bytes[0x22], bytes[0x23]]);

    assert_eq!(index_0, 0x0000, "First animation at WORD offset 0");
    assert_eq!(index_1, 0x0006, "Second animation at WORD offset 6 (12 bytes / 2)");

    assert_eq!(bytes[0x220], 0x01);
    assert_eq!(bytes[0x221], 0x00);

    assert_eq!(bytes[0x22C], 0x03);
    assert_eq!(bytes[0x22D], 0x00);
}

#[test]
fn test_slot_windows_split_regions() {
    let mut table = [constants::NO_ANIMATION; constants::ANIMATION_SLOT_COUNT];
    table[0] = 0;
    table[1] = 6;
    let file_len = constants::ANIMATION_DATA_OFFSET + 32;

    let windows = compute_slot_windows(&table, file_len);
    let slot0 = windows[0].expect("slot 0 window exists");
    let slot1 = windows[1].expect("slot 1 window exists");

    assert_eq!(slot0.start, constants::ANIMATION_DATA_OFFSET);
    assert_eq!(slot0.end, constants::ANIMATION_DATA_OFFSET + 12);
    assert_eq!(slot1.start, constants::ANIMATION_DATA_OFFSET + 12);
    assert_eq!(slot1.end, file_len);
}

#[test]
fn test_index_table_rebuilds_after_removal() {
    let mut file = File::new();

    let mut seq0 = AnimationSequence::new();
    seq0.add_frame(FrameDescriptor::frame(10, 5));
    seq0.add_frame(FrameDescriptor::frame(11, 5));
    seq0.add_hold_marker();
    file.set_sequence(0, seq0).unwrap();

    let mut seq5 = AnimationSequence::new();
    seq5.add_frame(FrameDescriptor::frame(20, 5));
    seq5.add_hold_marker();
    file.set_sequence(5, seq5).unwrap();

    let table = file.index_table();
    assert_eq!(table[0], 0);
    assert_eq!(table[5], 6, "Second slot should start after first sequence");

    file.remove_sequence(0);

    let updated = file.index_table();
    assert_eq!(updated[0], constants::NO_ANIMATION);
    assert_eq!(updated[5], 0, "Remaining sequence should be re-based to start of data");
}

#[test]
fn test_odd_word_offset_values_are_valid() {
    let mut file = File::new();

    let mut seq1 = AnimationSequence::new();
    seq1.add_frame(FrameDescriptor::frame(1, 1));
    seq1.add_frame(FrameDescriptor::frame(2, 1));
    seq1.add_frame(FrameDescriptor::frame(3, 1));
    seq1.add_hold_marker();
    file.set_sequence(0, seq1).unwrap();

    let mut seq_for_odd = AnimationSequence::new();
    seq_for_odd.add_frame(FrameDescriptor::frame(10, 5));
    seq_for_odd.add_frame(FrameDescriptor::frame(11, 5));
    seq_for_odd.add_frame(FrameDescriptor::frame(12, 5));
    seq_for_odd.add_frame(FrameDescriptor::frame(13, 5));
    seq_for_odd.add_hold_marker();

    let _seq_bytes = seq_for_odd.to_bytes();

    let word_offset = 9u16;
    let byte_offset = word_offset as usize * 2;
    assert_eq!(byte_offset, 18);
    assert_eq!(byte_offset % 2, 0, "Byte offset must be even");
    assert_eq!(
        byte_offset % 4,
        2,
        "Byte offset 18 is not 4-byte aligned, but that's OK for index boundaries"
    );
}

#[test]
fn test_read_original_agmagic_format() {
    let mut data = vec![0u8; 0x220 + 100];

    data[0..11].copy_from_slice(b"agmagic.SPR");

    data[0x20] = 0x00;
    data[0x21] = 0x00;
    data[0x22] = 0x09;
    data[0x23] = 0x00;
    data[0x24] = 0x12;
    data[0x25] = 0x00;
    for i in 3..256 {
        let offset = 0x20 + i * 2;
        data[offset] = 0xFF;
        data[offset + 1] = 0xFF;
    }

    data[0x220] = 0x08;
    data[0x221] = 0x00;
    data[0x222] = 0x06;
    data[0x223] = 0x00;
    data[0x224] = 0x09;
    data[0x225] = 0x00;
    data[0x226] = 0x04;
    data[0x227] = 0x00;
    data[0x228] = 0xFD;
    data[0x229] = 0xFF;
    data[0x22A] = 0xD5;
    data[0x22B] = 0x00;
    data[0x22C] = 0x0B;
    data[0x22D] = 0x00;
    data[0x22E] = 0x02;
    data[0x22F] = 0x00;
    data[0x230] = 0xFF;
    data[0x231] = 0xFF;

    data[0x232] = 0x10;
    data[0x233] = 0x00;
    data[0x234] = 0x02;
    data[0x235] = 0x00;
    data[0x236] = 0x11;
    data[0x237] = 0x00;
    data[0x238] = 0x02;
    data[0x239] = 0x00;
    data[0x23A] = 0xFF;
    data[0x23B] = 0xFF;

    let file = File::from_bytes(&data).unwrap();

    let seq0 = file.get_sequence(0).expect("Slot 0 should exist");
    assert!(seq0.frames().len() >= 3, "Slot 0 should have at least 3 frames");

    match &seq0.frames()[0] {
        FrameDescriptor::Frame { frame_id, duration } => {
            assert_eq!(*frame_id, 8);
            assert_eq!(*duration, 6);
        }
        _ => panic!("Expected Frame descriptor at position 0"),
    }

    match &seq0.frames()[1] {
        FrameDescriptor::Frame { frame_id, duration } => {
            assert_eq!(*frame_id, 9);
            assert_eq!(*duration, 4);
        }
        _ => panic!("Expected Frame descriptor at position 1"),
    }

    let seq1 = file.get_sequence(1).expect("Slot 1 should exist");
    assert!(seq1.frames().len() >= 2, "Slot 1 should have at least 2 frames");

    match &seq1.frames()[0] {
        FrameDescriptor::Frame { frame_id, duration } => {
            assert_eq!(*frame_id, 16);
            assert_eq!(*duration, 2);
        }
        _ => panic!("Expected Frame descriptor at position 0"),
    }

    match &seq1.frames()[1] {
        FrameDescriptor::Frame { frame_id, duration } => {
            assert_eq!(*frame_id, 17);
            assert_eq!(*duration, 2);
        }
        _ => panic!("Expected Frame descriptor at position 1"),
    }
}

#[test]
fn test_roundtrip_preserves_word_offsets() {
    let mut file = File::new();
    file.set_spr_filename("test.spr").unwrap();

    for slot in [0, 5, 10, 15] {
        let mut seq = AnimationSequence::new();
        for i in 0..3 {
            seq.add_frame(FrameDescriptor::frame(slot as u16 * 10 + i, 5));
        }
        seq.add_hold_marker();
        file.set_sequence(slot, seq).unwrap();
    }

    let bytes = file.to_bytes();
    let loaded = File::from_bytes(&bytes).unwrap();

    for slot in [0, 5, 10, 15] {
        let original = file.get_sequence(slot).unwrap();
        let loaded_seq = loaded.get_sequence(slot).unwrap();

        assert_eq!(original.len(), loaded_seq.len());
        for (i, (orig_frame, loaded_frame)) in
            original.frames().iter().zip(loaded_seq.frames().iter()).enumerate()
        {
            match (orig_frame, loaded_frame) {
                (
                    FrameDescriptor::Frame { frame_id: orig_id, duration: orig_dur },
                    FrameDescriptor::Frame { frame_id: loaded_id, duration: loaded_dur },
                ) => {
                    assert_eq!(orig_id, loaded_id, "Slot {} frame {} frame_id mismatch", slot, i);
                    assert_eq!(orig_dur, loaded_dur, "Slot {} frame {} duration mismatch", slot, i);
                }
                _ => {
                    assert_eq!(
                        orig_frame, loaded_frame,
                        "Slot {} frame {} descriptor mismatch",
                        slot, i
                    );
                }
            }
        }
    }
}

#[test]
fn test_word_offset_calculation() {
    let test_cases = vec![(0, 0), (2, 1), (18, 9), (36, 18), (72, 36), (512, 256)];

    for (byte_offset, expected_word_offset) in test_cases {
        let word_offset = byte_offset / 2;
        assert_eq!(
            word_offset, expected_word_offset,
            "Byte offset {} should convert to word offset {}",
            byte_offset, expected_word_offset
        );

        let reconstructed_byte_offset = word_offset * 2;
        assert_eq!(
            reconstructed_byte_offset, byte_offset,
            "Word offset {} should convert back to byte offset {}",
            word_offset, byte_offset
        );
    }
}

#[test]
fn test_raw_mode_preserves_jump_instructions() {
    let mut file = File::new();
    file.set_spr_filename("test.spr").unwrap();

    let mut seq = AnimationSequence::new();
    seq.add_frame(FrameDescriptor::frame(0, 10));
    seq.add_frame(FrameDescriptor::frame(1, 15));
    seq.add_frame(FrameDescriptor::sound(5));
    seq.add_frame(FrameDescriptor::frame(2, 20));
    seq.add_frame(FrameDescriptor::event(3));
    seq.add_frame(FrameDescriptor::jump(1));
    seq.add_hold_marker();
    file.set_sequence(0, seq).unwrap();

    let bytes = file.to_bytes();

    let default_parsed = File::from_bytes(&bytes).unwrap();
    let default_seq = default_parsed.get_sequence(0).unwrap();

    let raw_parsed = File::from_bytes_raw(&bytes).unwrap();
    let raw_seq = raw_parsed.get_sequence(0).unwrap();

    assert_eq!(raw_seq.len(), 7, "Raw mode should preserve original 7 frames");

    assert!(
        default_seq.len() > 7,
        "Default mode should expand the loop, got {} frames",
        default_seq.len()
    );

    assert!(raw_seq.frames()[5].is_jump(), "Raw mode should preserve jump instruction at position 5");
    assert!(raw_seq.frames()[6].is_hold(), "Raw mode should have hold marker at position 6");
}

#[test]
fn test_raw_mode_with_multiple_control_frames() {
    let mut file = File::new();
    file.set_spr_filename("test.spr").unwrap();

    let mut seq = AnimationSequence::new();
    seq.add_frame(FrameDescriptor::frame(0, 5));
    seq.add_frame(FrameDescriptor::sound(10));
    seq.add_frame(FrameDescriptor::event(20));
    seq.add_frame(FrameDescriptor::frame(1, 5));
    seq.add_hold_marker();
    file.set_sequence(5, seq).unwrap();

    let bytes = file.to_bytes();

    let raw_parsed = File::from_bytes_raw(&bytes).unwrap();
    let raw_seq = raw_parsed.get_sequence(5).unwrap();

    assert_eq!(raw_seq.len(), 5);

    assert!(raw_seq.frames()[0].is_frame());
    assert!(raw_seq.frames()[1].is_sound());
    assert!(raw_seq.frames()[2].is_event());
    assert!(raw_seq.frames()[3].is_frame());
    assert!(raw_seq.frames()[4].is_hold());
}

#[test]
fn from_bytes_reports_clean_termination_stats() {
    let data = serialize_frames(&[
        FrameDescriptor::frame(1, 5),
        FrameDescriptor::frame_with_duration_components(2, 3, 1),
        FrameDescriptor::end(),
    ]);

    let (sequence, stats) = AnimationSequence::from_bytes(&data).expect("sequence parses");
    assert_eq!(sequence.len(), 3);
    assert!(stats.ended_cleanly());
    assert_eq!(stats.unique_frame_positions, 3);
    assert_eq!(stats.bytes_consumed, 3 * constants::FRAME_DESCRIPTOR_SIZE);
}

#[test]
fn from_bytes_with_config_flags_loop_detection() {
    let data = serialize_frames(&[FrameDescriptor::frame(1, 10), FrameDescriptor::jump(0)]);

    let config = ParseConfig::new(10, 1);
    let (_sequence, stats) =
        AnimationSequence::from_bytes_with_config(&data, &config).expect("sequence parses");

    assert!(stats.loop_detected, "loop guard should trigger");
    assert!(!stats.terminated_by_end_marker);
    assert_eq!(stats.unique_frame_positions, 2);
    assert_eq!(stats.bytes_consumed, 2 * constants::FRAME_DESCRIPTOR_SIZE);
    assert!(!stats.ended_cleanly());
}

#[test]
fn from_bytes_raw_errors_when_frame_truncated() {
    let truncated = vec![0x01, 0x00];
    let err = AnimationSequence::from_bytes_raw(&truncated).expect_err("parse should fail");
    assert!(matches!(err, DvFileError::InsufficientData { .. }));
}

// Reading back the bytes of a script, as stored, gives its sequences back.
#[test]
fn anm_raw_roundtrip_keeps_every_slot() {
    let mut file = File::new();
    file.set_spr_filename("hero.spr").unwrap();
    for slot in [3usize, 7, 200] {
        let mut seq = AnimationSequence::new();
        seq.add_frame(FrameDescriptor::frame(slot as u16, 4));
        seq.add_frame(FrameDescriptor::sound(2));
        seq.add_frame(FrameDescriptor::jump(0));
        seq.add_hold_marker();
        file.set_sequence(slot, seq).unwrap();
    }
    let bytes = file.to_bytes();
    let loaded = File::from_bytes_raw(&bytes).unwrap();
    assert_eq!(loaded.sequences().len(), 3);
    for slot in [3usize, 7, 200] {
        assert_eq!(
            loaded.get_sequence(slot).unwrap().frames(),
            file.get_sequence(slot).unwrap().frames()
        );
    }
    assert_eq!(loaded.header(), file.header());
    assert_eq!(loaded.index_table(), file.index_table());
}

#[test]
fn anm_set_sequence_replaces_and_orders_slots() {
    let mut file = File::new();
    let mut a = AnimationSequence::new();
    a.add_frame(FrameDescriptor::frame(1, 1));
    a.add_hold_marker();
    let mut b = AnimationSequence::new();
    b.add_frame(FrameDescriptor::frame(2, 2));
    b.add_hold_marker();
    file.set_sequence(9, a.clone()).unwrap();
    file.set_sequence(2, b.clone()).unwrap();
    file.set_sequence(9, b.clone()).unwrap();
    let slots: Vec<usize> = file.sequences().iter().map(|(s, _)| *s).collect();
    assert_eq!(slots, vec![2, 9]);
    assert_eq!(file.get_sequence(9).unwrap().frames(), b.frames());
    assert_eq!(file.get_slot_offset(2), Some(0));
    assert_eq!(file.get_slot_offset(9), Some(4));
    assert_eq!(file.get_slot_offset(3), None);
    assert_eq!(file.get_slot_offset(300), None);
}

#[test]
fn anm_set_sequence_rejects_slot_out_of_range() {
    let mut file = File::new();
    let err = file.set_sequence(256, AnimationSequence::new()).unwrap_err();
    match err {
        DvFileError::EntryNotFound { file_type, message } => {
            assert_eq!(file_type, FileType::Anm);
            assert_eq!(message, "Slot index 256 out of range (max 255)");
        }
        other => panic!("Unexpected error: {other:?}"),
    }
}

#[test]
fn anm_remove_missing_slot_changes_nothing() {
    let mut file = File::new();
    assert!(file.remove_sequence(4).is_none());
    assert_eq!(file.sequences().len(), 0);
}

#[test]
fn anm_from_bytes_rejects_short_data() {
    let err = File::from_bytes(&[0u8; 100]).unwrap_err();
    match err {
        DvFileError::InsufficientData { file_type, expected, actual } => {
            assert_eq!(file_type, FileType::Anm);
            assert_eq!(expected, 544);
            assert_eq!(actual, 100);
        }
        other => panic!("Unexpected error: {other:?}"),
    }
}

#[test]
fn anm_from_bytes_rejects_high_name_bytes() {
    let mut data = empty_anm_file_bytes();
    data[0] = 0xC3;
    let err = File::from_bytes(&data).unwrap_err();
    match err {
        DvFileError::BadEncoding { message, .. } => {
            assert_eq!(message, "SPR filename must contain ASCII bytes only")
        }
        other => panic!("Unexpected error: {other:?}"),
    }
}

#[test]
fn anm_slot_windows_skip_empty_and_past_end() {
    let mut table = [constants::NO_ANIMATION; constants::ANIMATION_SLOT_COUNT];
    table[4] = 100;
    table[5] = 2;
    let windows = compute_slot_windows(&table, constants::ANIMATION_DATA_OFFSET + 10);
    assert!(windows[4].is_none());
    assert!(windows[0].is_none());
    assert_eq!(
        windows[5],
        Some(SlotDataWindow {
            start: constants::ANIMATION_DATA_OFFSET + 4,
            end: constants::ANIMATION_DATA_OFFSET + 10
        })
    );
    let w = windows[5].unwrap();
    assert_eq!(w.len(), 6);
    assert!(!w.is_empty());
    let backwards = SlotDataWindow { start: 10, end: 4 };
    assert_eq!(backwards.len(), 0);
    assert!(backwards.is_empty());
}

#[test]
fn anm_slot_count_and_default() {
    let file = File::default();
    assert_eq!(file.slot_count(), 256);
    assert!(file.index_table().iter().all(|&w| w == constants::NO_ANIMATION));
}

// A sequence changed in place is what the file then holds.
#[test]
fn get_sequence_mut_edits_in_place() {
    let mut file = File::new();
    file.set_sequence(3, AnimationSequence::from_frames(vec![FrameDescriptor::frame(1, 2)]))
        .unwrap();
    assert!(file.get_sequence_mut(4).is_none());
    file.get_sequence_mut(3).unwrap().add_frame(FrameDescriptor::End);
    assert_eq!(file.get_sequence(3).unwrap().len(), 2);
}
