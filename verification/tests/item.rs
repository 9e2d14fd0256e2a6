use dvine_types::file::item::tables::{decode_byte, encode_byte};
use dvine_types::file::item::{File, ITEM_COUNT_SIZE, ITEM_SIZE};
use dvine_types::file::ItemError;

#[test]
fn test_decode_encode_table_bijection() {
    for i in 0..256 {
        let encrypted = i as u8;
        let decrypted = decode_byte(encrypted);
        let re_encrypted = encode_byte(decrypted);
        assert_eq!(
            encrypted, re_encrypted,
            "Bijection failed at encrypted={:02X}, decrypted={:02X}",
            encrypted, decrypted
        );
    }
}

#[test]
fn test_empty_file() {
    let file = File::new();
    assert_eq!(file.item_count(), 0);
    assert_eq!(file.get_item(0), None);
}

#[test]
fn test_add_remove_item() {
    let mut file = File::new();

    let item = [0xAA; ITEM_SIZE];
    file.add_item(item);

    assert_eq!(file.item_count(), 1);
    assert_eq!(file.get_item(0), Some(&item));

    let removed = file.remove_item(0);
    assert_eq!(removed, Some(item));
    assert_eq!(file.item_count(), 0);
}

#[test]
fn mod_test_serialization_roundtrip() {
    let mut file = File::new();

    let item1 = [0x01; ITEM_SIZE];
    let item2 = [0x02; ITEM_SIZE];
    file.add_item(item1);
    file.add_item(item2);

    let bytes = file.to_bytes();
    let loaded = File::from_bytes(&bytes).expect("Failed to deserialize");

    assert_eq!(loaded.item_count(), file.item_count());
    assert_eq!(loaded.get_item(0), Some(&item1));
    assert_eq!(loaded.get_item(1), Some(&item2));
}

#[test]
fn test_checksum_validation() {
    let mut file = File::new();
    let item = [0xFF; ITEM_SIZE];
    file.add_item(item);

    let mut bytes = file.to_bytes();

    // The first checksum byte sits at offset 0x00 of the checksum block.
    let checksum_offset = ITEM_COUNT_SIZE + ITEM_SIZE;
    bytes[checksum_offset + 0x00] ^= 0xFF;

    let result = File::from_bytes(&bytes);
    assert!(result.is_err());
    assert!(matches!(result, Err(ItemError::ChecksumMismatch { .. })));
}

#[test]
fn test_insufficient_data() {
    let data = vec![0u8; 10];
    let result = File::from_bytes(&data);
    assert!(result.is_err());
    assert!(matches!(result, Err(ItemError::InsufficientData { .. })));
}

#[test]
fn mod_test_iterator() {
    let mut file = File::new();
    file.add_item([0x01; ITEM_SIZE]);
    file.add_item([0x02; ITEM_SIZE]);
    file.add_item([0x03; ITEM_SIZE]);

    let items: Vec<_> = file.iter().collect();
    assert_eq!(items.len(), 3);
    assert_eq!(items[0][0], 0x01);
    assert_eq!(items[1][0], 0x02);
    assert_eq!(items[2][0], 0x03);
}

// Every item survives writing and reading, whatever its bytes.
#[test]
fn item_roundtrip_of_varied_bytes() {
    let mut file = File::new();
    let mut item = [0u8; ITEM_SIZE];
    for (i, b) in item.iter_mut().enumerate() {
        *b = (i * 37 % 256) as u8;
    }
    file.add_item(item);
    file.add_item([0u8; ITEM_SIZE]);
    let loaded = File::from_bytes(&file.to_bytes()).unwrap();
    assert_eq!(loaded.items(), file.items());
}

#[test]
fn item_remove_out_of_range_is_none() {
    let mut file = File::new();
    file.add_item([7u8; ITEM_SIZE]);
    assert_eq!(file.remove_item(3), None);
    assert_eq!(file.item_count(), 1);
}

#[test]
fn item_record_count_must_fit() {
    let mut data = vec![0u8; ITEM_COUNT_SIZE + 128 + 5];
    data[0] = 1;
    assert!(File::from_bytes(&data).is_err());
}

// A record changed in place is what the file then holds.
#[test]
fn item_get_item_mut() {
    let mut file = File::new();
    file.add_item([7u8; ITEM_SIZE]);
    file.get_item_mut(0).unwrap()[3] = 9;
    assert_eq!(file.get_item(0).unwrap()[3], 9);
    assert!(file.get_item_mut(1).is_none());
}

// Every record can be changed in place through the slice of records.
#[test]
fn item_items_mut_changes_all() {
    let mut file = File::new();
    file.add_item([1u8; ITEM_SIZE]);
    file.add_item([2u8; ITEM_SIZE]);
    for item in file.items_mut().iter_mut() {
        item[0] = 5;
    }
    assert_eq!(file.item_count(), 2);
    assert_eq!(file.get_item(0).unwrap()[0], 5);
    assert_eq!(file.get_item(1).unwrap()[0], 5);
    assert_eq!(file.get_item(1).unwrap()[1], 2);
}
