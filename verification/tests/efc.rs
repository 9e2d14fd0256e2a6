use dvine_types::file::efc::decoder::decode_ima_adpcm;
use dvine_types::file::efc::encoder::encode_ima_adpcm;
use dvine_types::file::efc::{
    AdpcmDataHeader, DecodedSound, EffectInfo, File, FileBuilder, SoundDataHeader,
};
use dvine_types::file::reader::ByteReader;
use dvine_types::file::DvFileError;

fn create_test_efc() -> File {
    let mut data = Vec::new();
    data.extend_from_slice(&0x400u32.to_le_bytes());
    data.extend_from_slice(&0x500u32.to_le_bytes());
    for _ in 2..256 {
        data.extend_from_slice(&0u32.to_le_bytes());
    }
    File::from_reader(ByteReader::new(data)).unwrap()
}

fn collect_info(efc: &File) -> Vec<EffectInfo> {
    let mut it = efc.iter_info();
    let mut out = Vec::new();
    while let Some(e) = it.next() {
        out.push(e);
    }
    out
}

fn ramp_step_table() -> [i16; 89] {
    let mut step_table = [0i16; 89];
    for i in 0..89 {
        step_table[i] = 7 + i as i16 * 8;
    }
    step_table
}

fn sound(id: usize, step_table: [i16; 89], pcm_data: Vec<i16>) -> DecodedSound {
    DecodedSound {
        id,
        sound_header: SoundDataHeader { sound_type: 1, unknown_1: 2, priority: 100 },
        adpcm_header: AdpcmDataHeader {
            sample_rate: 22050,
            channels: 1,
            unknown: 0,
            step_table,
            sample_count: 10,
        },
        pcm_data,
    }
}

#[test]
fn test_decode_empty() {
    let data = vec![0, 0, 0, 0];
    let step_table = [0i16; 89];
    let result = decode_ima_adpcm(&data, &step_table, 1, 1);
    assert!(result.is_ok());
}

#[test]
fn test_decode_invalid_data() {
    let data = vec![0, 0, 0];
    let step_table = [0i16; 89];
    let result = decode_ima_adpcm(&data, &step_table, 1, 1);
    assert!(result.is_err());
}

#[test]
fn test_encode_empty() {
    let pcm_data: Vec<i16> = vec![];
    let step_table = [0i16; 89];
    let result = encode_ima_adpcm(&pcm_data, &step_table, 1);
    assert!(result.is_err());
}

#[test]
fn test_encode_single_sample() {
    let pcm_data = vec![100i16];
    let step_table = [7i16; 89];
    let result = encode_ima_adpcm(&pcm_data, &step_table, 1);
    assert!(result.is_ok());
    let adpcm = result.unwrap();
    assert_eq!(adpcm.len(), 4);
}

#[test]
fn encoder_test_encode_decode_roundtrip() {
    let step_table = ramp_step_table();
    let pcm_data: Vec<i16> = vec![0, 100, 200, 150, 50, -100, -200, -150, -50, 0];

    let encoded = encode_ima_adpcm(&pcm_data, &step_table, 1).unwrap();
    assert!(encoded.len() >= 4);

    let decoded = decode_ima_adpcm(&encoded, &step_table, 1, pcm_data.len() as u32).unwrap();
    assert_eq!(decoded.len(), pcm_data.len());
    assert_eq!(decoded[0], pcm_data[0]);

    for i in 1..pcm_data.len() {
        let diff = (decoded[i] - pcm_data[i]).abs();
        assert!(
            diff < 500,
            "Sample {} difference too large: expected {}, got {}, diff {}",
            i,
            pcm_data[i],
            decoded[i],
            diff
        );
    }
}

#[test]
fn test_encode_extremes() {
    let step_table = ramp_step_table();
    let pcm_data = vec![i16::MIN, i16::MAX, 0, i16::MIN / 2, i16::MAX / 2];
    let result = encode_ima_adpcm(&pcm_data, &step_table, 1);
    assert!(result.is_ok());

    let encoded = result.unwrap();
    let decoded = decode_ima_adpcm(&encoded, &step_table, 1, pcm_data.len() as u32).unwrap();
    assert_eq!(decoded.len(), pcm_data.len());
}

#[test]
fn test_iter_info() {
    let efc = create_test_efc();
    let effects = collect_info(&efc);

    assert_eq!(effects.len(), 2);
    assert_eq!(effects[0].id, 0);
    assert_eq!(effects[0].offset, 0x400);
    assert_eq!(effects[1].id, 1);
    assert_eq!(effects[1].offset, 0x500);
}

#[test]
fn test_iter_alias() {
    let efc = create_test_efc();
    let mut it = efc.iter();
    let mut effects = Vec::new();
    while let Some(e) = it.next() {
        effects.push(e);
    }
    assert_eq!(effects.len(), 2);
}

#[test]
fn test_effect_count() {
    let efc = create_test_efc();
    assert_eq!(efc.effect_count(), 2);
}

#[test]
fn test_has_effect() {
    let efc = create_test_efc();
    assert!(efc.has_effect(0));
    assert!(efc.has_effect(1));
    assert!(!efc.has_effect(2));
    assert!(!efc.has_effect(255));
}

#[test]
fn test_list_effects() {
    let efc = create_test_efc();
    let effects = efc.list_effects();

    assert_eq!(effects.len(), 2);
    assert_eq!(effects[0].id, 0);
    assert_eq!(effects[1].id, 1);
}

#[test]
fn test_new() {
    let builder = FileBuilder::new();
    assert_eq!(builder.effect_count(), 0);
    assert!(!builder.has_effect(0));
    assert!(!builder.has_effect(255));
}

#[test]
fn test_insert_effect() {
    let mut builder = FileBuilder::new();
    let mut s = sound(42, [7; 89], vec![0i16; 10]);
    s.sound_header.unknown_1 = 0;

    assert!(!builder.has_effect(42));
    builder.insert_effect(42, s).unwrap();
    assert!(builder.has_effect(42));
    assert_eq!(builder.effect_count(), 1);
}

#[test]
fn test_insert_effect_out_of_range() {
    let mut builder = FileBuilder::new();
    let mut s = sound(0, [7; 89], vec![0i16; 10]);
    s.sound_header.unknown_1 = 0;

    let result = builder.insert_effect(256, s);
    assert!(result.is_err());
}

#[test]
fn test_remove_effect() {
    let mut builder = FileBuilder::new();
    let mut s = sound(10, [7; 89], vec![0i16; 10]);
    s.sound_header.unknown_1 = 0;

    builder.insert_effect(10, s).unwrap();
    assert!(builder.has_effect(10));
    assert_eq!(builder.effect_count(), 1);

    builder.remove_effect(10);
    assert!(!builder.has_effect(10));
    assert_eq!(builder.effect_count(), 0);
}

#[test]
fn test_to_bytes_empty() {
    let builder = FileBuilder::new();
    let bytes = builder.to_bytes().unwrap();

    assert_eq!(bytes.len(), 256 * 4);
    for i in 0..256 {
        let offset =
            u32::from_le_bytes([bytes[i * 4], bytes[i * 4 + 1], bytes[i * 4 + 2], bytes[i * 4 + 3]]);
        assert_eq!(offset, 0);
    }
}

#[test]
fn test_to_bytes_with_effects() {
    let mut builder = FileBuilder::new();
    let s = sound(0, ramp_step_table(), vec![0, 100, 200, 150, 50, -100, -200, -150, -50, 0]);
    builder.insert_effect(0, s).unwrap();

    let bytes = builder.to_bytes().unwrap();
    assert!(bytes.len() > 256 * 4);

    let offset = u32::from_le_bytes([bytes[0], bytes[1], bytes[2], bytes[3]]);
    assert_eq!(offset, 256 * 4);
}

#[test]
fn test_decoded_sound_to_bytes() {
    let s = sound(0, ramp_step_table(), vec![0, 100, 200, 150, 50, -100, -200, -150, -50, 0]);

    let bytes = s.to_bytes().unwrap();
    assert!(bytes.len() >= 4 + 0xC0);

    assert_eq!(bytes[0], 1);
    assert_eq!(bytes[1], 2);
    assert_eq!(u16::from_le_bytes([bytes[2], bytes[3]]), 100);
}

#[test]
fn tests_test_encode_decode_roundtrip() {
    let original_sound =
        sound(5, ramp_step_table(), vec![0, 100, 200, 150, 50, -100, -200, -150, -50, 0]);

    let bytes = original_sound.to_bytes().unwrap();

    let mut cursor = ByteReader::new(bytes);
    let sound_header = SoundDataHeader::from_reader(&mut cursor).unwrap();
    let adpcm_header = AdpcmDataHeader::from_reader(&mut cursor).unwrap();

    let adpcm_data = cursor.read_to_end();

    let decoded_pcm = decode_ima_adpcm(
        &adpcm_data,
        &adpcm_header.step_table,
        adpcm_header.channels,
        adpcm_header.sample_count,
    )
    .unwrap();

    assert_eq!(sound_header.sound_type, original_sound.sound_header.sound_type);
    assert_eq!(sound_header.priority, original_sound.sound_header.priority);
    assert_eq!(adpcm_header.sample_rate, original_sound.adpcm_header.sample_rate);
    assert_eq!(adpcm_header.channels, original_sound.adpcm_header.channels);
    assert_eq!(adpcm_header.sample_count, original_sound.adpcm_header.sample_count);

    assert_eq!(decoded_pcm.len(), original_sound.pcm_data.len());
    assert_eq!(decoded_pcm[0], original_sound.pcm_data[0]);
}

#[test]
fn test_write_and_read_roundtrip() {
    let mut builder = FileBuilder::new();
    let step_table = ramp_step_table();

    let sound1 = DecodedSound {
        id: 10,
        sound_header: SoundDataHeader { sound_type: 1, unknown_1: 0, priority: 100 },
        adpcm_header: AdpcmDataHeader {
            sample_rate: 22050,
            channels: 1,
            unknown: 0,
            step_table,
            sample_count: 10,
        },
        pcm_data: vec![0, 100, 200, 150, 50, -100, -200, -150, -50, 0],
    };

    let sound2 = DecodedSound {
        id: 20,
        sound_header: SoundDataHeader { sound_type: 2, unknown_1: 1, priority: 200 },
        adpcm_header: AdpcmDataHeader {
            sample_rate: 44100,
            channels: 2,
            unknown: 1,
            step_table,
            sample_count: 10,
        },
        pcm_data: vec![1000, -1000, 500, -500, 250, -250, 125, -125, 0, 0],
    };

    builder.insert_effect(10, sound1).unwrap();
    builder.insert_effect(20, sound2).unwrap();

    let bytes = builder.to_bytes().unwrap();

    let efc2 = File::from_reader(ByteReader::new(bytes)).unwrap();

    assert_eq!(efc2.effect_count(), 2);
    assert!(efc2.has_effect(10));
    assert!(efc2.has_effect(20));

    let extracted1 = efc2.extract(10).unwrap();
    assert_eq!(extracted1.id, 10);
    assert_eq!(extracted1.sound_header.sound_type, 1);
    assert_eq!(extracted1.sound_header.priority, 100);
    assert_eq!(extracted1.adpcm_header.sample_rate, 22050);
    assert_eq!(extracted1.adpcm_header.channels, 1);

    let extracted2 = efc2.extract(20).unwrap();
    assert_eq!(extracted2.id, 20);
    assert_eq!(extracted2.sound_header.sound_type, 2);
    assert_eq!(extracted2.sound_header.priority, 200);
    assert_eq!(extracted2.adpcm_header.sample_rate, 44100);
    assert_eq!(extracted2.adpcm_header.channels, 2);
}

// Decoding what the encoder wrote gives the samples the encoder tracked;
// for a constant signal they come back exactly.
#[test]
fn efc_encode_decode_constant_signal_is_exact() {
    let step_table = ramp_step_table();
    let pcm = vec![-300i16; 16];
    let encoded = encode_ima_adpcm(&pcm, &step_table, 1).unwrap();
    assert_eq!(encoded.len(), 4 + 8);
    let decoded = decode_ima_adpcm(&encoded, &step_table, 1, 16).unwrap();
    assert_eq!(decoded, pcm);
}

#[test]
fn efc_builder_bank_reads_back_headers() {
    let mut builder = FileBuilder::new();
    let s = sound(3, ramp_step_table(), vec![5i16; 10]);
    builder.insert_effect(3, s).unwrap();
    let bytes = builder.to_bytes().unwrap();
    let efc = File::from_reader(ByteReader::new(bytes)).unwrap();
    let info = efc.list_effects();
    assert_eq!(info.len(), 1);
    assert_eq!(info[0].id, 3);
    assert_eq!(info[0].offset, 1024);
    assert_eq!(info[0].header, SoundDataHeader { sound_type: 0, unknown_1: 0, priority: 0 });
}

#[test]
fn efc_from_reader_rejects_short_index_table() {
    assert!(File::from_reader(ByteReader::new(vec![0u8; 100])).is_err());
}

#[test]
fn efc_duration_of_sound() {
    let s = sound(0, [7; 89], vec![0i16; 10]);
    let mut long = s.clone();
    long.adpcm_header.sample_count = 44100;
    long.adpcm_header.sample_rate = 22050;
    assert_eq!(long.duration_ms(), 2000);
}

// The bank size is the index table plus each effect's headers and samples.
#[test]
fn efc_builder_bank_size() {
    let mut builder = FileBuilder::new();
    assert_eq!(builder.bank_size(), 1024);
    builder.insert_effect(5, sound(5, ramp_step_table(), vec![1i16; 11])).unwrap();
    assert_eq!(builder.bank_size(), 1024 + 200 + 5);
    assert_eq!(builder.to_bytes().unwrap().len() as u128, builder.bank_size());
}

// The duration is computed for every header, however many samples.
#[test]
fn efc_duration_of_long_sound() {
    let mut s = sound(0, ramp_step_table(), vec![0i16; 2]);
    s.adpcm_header.sample_count = 4_000_000;
    s.adpcm_header.sample_rate = 22050;
    assert_eq!(s.duration_ms(), (4_000_000u64 * 1000 / 22050) as u32);
    s.adpcm_header.sample_rate = 0;
    assert_eq!(s.duration_ms(), 0);
}

// An effect shorter than its two headers is refused.
#[test]
fn efc_extract_short_effect() {
    let mut data = vec![0u8; 1024 + 300];
    data[0..4].copy_from_slice(&1024u32.to_le_bytes());
    data[4..8].copy_from_slice(&1100u32.to_le_bytes());
    let efc = File::from_reader(ByteReader::new(data)).unwrap();
    assert!(matches!(efc.extract(0), Err(DvFileError::InsufficientData { .. })));
}

// Replacing an effect keeps the count; removing an absent index changes nothing.
#[test]
fn efc_builder_replace_and_remove_absent() {
    let mut builder = FileBuilder::new();
    builder.insert_effect(3, sound(3, ramp_step_table(), vec![1i16; 4])).unwrap();
    builder.insert_effect(3, sound(3, ramp_step_table(), vec![2i16; 6])).unwrap();
    builder.insert_effect(200, sound(200, ramp_step_table(), vec![3i16; 2])).unwrap();
    assert_eq!(builder.effect_count(), 2);
    builder.remove_effect(7);
    builder.remove_effect(999);
    assert_eq!(builder.effect_count(), 2);
    assert!(builder.has_effect(3) && builder.has_effect(200) && !builder.has_effect(999));
    assert_eq!(builder.bank_size(), 1024 + 200 + 3 + 200 + 1);
}
