use miden_tx_core::error::{AccountError, DeserializationError};
use miden_tx_core::slot::StorageSlotType;
use miden_tx_core::storage::AccountStorage;

#[test]
fn account_storage_serialization() {
    // empty storage
    let storage = AccountStorage::new(Vec::new()).unwrap();
    let bytes = storage.to_bytes();
    assert_eq!(storage, AccountStorage::read_from_bytes(&bytes).unwrap());

    // storage with values for default types
    let storage = AccountStorage::new(vec![
        (0, (StorageSlotType::default(), [1, 1, 1, 1])),
        (2, (StorageSlotType::default(), [1, 1, 1, 0])),
    ])
    .unwrap();
    let bytes = storage.to_bytes();
    assert_eq!(storage, AccountStorage::read_from_bytes(&bytes).unwrap());

    // storage with a mix of types
    let storage = AccountStorage::new(vec![
        (0, (StorageSlotType::Value { value_arity: 1 }, [1, 1, 1, 1])),
        (1, (StorageSlotType::Value { value_arity: 0 }, [1, 1, 1, 0])),
        (2, (StorageSlotType::MapSlot { value_arity: 2 }, [1, 1, 0, 0])),
        (
            3,
            (
                StorageSlotType::Array {
                    depth: 4,
                    value_arity: 3,
                },
                [1, 0, 0, 0],
            ),
        ),
    ])
    .unwrap();
    let bytes = storage.to_bytes();
    assert_eq!(storage, AccountStorage::read_from_bytes(&bytes).unwrap());
}

#[test]
fn reserved_slot_is_rejected() {
    let result = AccountStorage::new(vec![(255, (StorageSlotType::default(), [1, 0, 0, 0]))]);
    assert_eq!(result.unwrap_err(), AccountError::StorageSlotIsReserved(255));

    // the reserved index is rejected wherever it stands in the list
    let result = AccountStorage::new(vec![
        (1, (StorageSlotType::default(), [1, 0, 0, 0])),
        (255, (StorageSlotType::default(), [2, 0, 0, 0])),
    ]);
    assert_eq!(result.unwrap_err(), AccountError::StorageSlotIsReserved(255));
}

#[test]
fn duplicate_slot_is_rejected() {
    let result = AccountStorage::new(vec![
        (5, (StorageSlotType::default(), [1, 0, 0, 0])),
        (7, (StorageSlotType::default(), [2, 0, 0, 0])),
        (5, (StorageSlotType::default(), [3, 0, 0, 0])),
    ]);
    assert_eq!(result.unwrap_err(), AccountError::DuplicateStorageItems(5));
}

#[test]
fn get_item_defaults_to_zero_word() {
    let storage = AccountStorage::new(Vec::new()).unwrap();
    assert_eq!(storage.get_item(0).as_word(), [0, 0, 0, 0]);
    assert_eq!(storage.get_item(42).as_word(), [0, 0, 0, 0]);
}

#[test]
fn set_item_returns_previous_value() {
    let mut storage =
        AccountStorage::new(vec![(9, (StorageSlotType::default(), [4, 3, 2, 1]))]).unwrap();
    assert_eq!(storage.get_item(9).as_word(), [4, 3, 2, 1]);
    let previous = storage.set_item(9, [7, 7, 7, 7]);
    assert_eq!(previous, [4, 3, 2, 1]);
    assert_eq!(storage.get_item(9).as_word(), [7, 7, 7, 7]);
    // an untouched slot reads back as zero and reports zero as previous
    let previous = storage.set_item(10, [1, 2, 3, 4]);
    assert_eq!(previous, [0, 0, 0, 0]);
}

#[test]
fn reserved_slot_always_holds_types_commitment() {
    let mut storage = AccountStorage::new(vec![
        (0, (StorageSlotType::Value { value_arity: 2 }, [1, 1, 1, 1])),
        (3, (StorageSlotType::MapSlot { value_arity: 1 }, [5, 0, 0, 0])),
    ])
    .unwrap();
    assert_eq!(
        storage.get_item(255).as_word(),
        storage.slot_types_commitment().as_word()
    );
    // the invariant survives any number of writes to other slots
    storage.set_item(0, [9, 9, 9, 9]);
    storage.set_item(77, [1, 0, 0, 1]);
    storage.set_item(0, [0, 0, 0, 0]);
    assert_eq!(
        storage.get_item(255).as_word(),
        storage.slot_types_commitment().as_word()
    );
}

#[test]
fn root_changes_iff_a_leaf_changes() {
    let mut storage =
        AccountStorage::new(vec![(4, (StorageSlotType::default(), [1, 2, 3, 4]))]).unwrap();
    let root_before = storage.root();
    // writing a different value changes the root
    storage.set_item(4, [4, 3, 2, 1]);
    let root_changed = storage.root();
    assert_ne!(root_before.as_word(), root_changed.as_word());
    // writing the current value back leaves the root unchanged
    storage.set_item(4, [4, 3, 2, 1]);
    assert_eq!(storage.root().as_word(), root_changed.as_word());
    // restoring the original value restores the original root
    storage.set_item(4, [1, 2, 3, 4]);
    assert_eq!(storage.root().as_word(), root_before.as_word());
    // writing the zero word into an untouched slot also keeps the root
    storage.set_item(200, [0, 0, 0, 0]);
    assert_eq!(storage.root().as_word(), root_before.as_word());
}

#[test]
fn empty_storage_serializes_to_two_zero_counts() {
    let storage = AccountStorage::new(Vec::new()).unwrap();
    assert_eq!(storage.to_bytes(), vec![0u8, 0u8]);
}

#[test]
fn wire_format_is_byte_exact() {
    let storage = AccountStorage::new(vec![(
        2,
        (StorageSlotType::MapSlot { value_arity: 3 }, [9, 0, 0, 0]),
    )])
    .unwrap();
    // one non-default type: index 2, tag 0x0103 little-endian;
    // one non-empty value: index 2, four 8-byte little-endian elements
    let mut expected: Vec<u8> = vec![1, 2, 0x03, 0x01, 1, 2];
    expected.extend_from_slice(&9u64.to_le_bytes());
    expected.extend_from_slice(&0u64.to_le_bytes());
    expected.extend_from_slice(&0u64.to_le_bytes());
    expected.extend_from_slice(&0u64.to_le_bytes());
    assert_eq!(storage.to_bytes(), expected);
}

#[test]
fn truncated_stream_is_rejected() {
    assert_eq!(
        AccountStorage::read_from_bytes(&vec![]).unwrap_err(),
        DeserializationError::InvalidValue
    );
    assert_eq!(
        AccountStorage::read_from_bytes(&vec![1u8, 0u8]).unwrap_err(),
        DeserializationError::InvalidValue
    );
    // trailing bytes beyond both counted sections are rejected too
    assert_eq!(
        AccountStorage::read_from_bytes(&vec![0u8, 0u8, 0u8]).unwrap_err(),
        DeserializationError::InvalidValue
    );
}

#[test]
fn malformed_type_tag_is_rejected() {
    // a type record whose tag's high byte is neither a kind nor an
    // admissible array depth
    let bytes = vec![1u8, 0u8, 0u8, 200u8, 0u8];
    assert_eq!(
        AccountStorage::read_from_bytes(&bytes).unwrap_err(),
        DeserializationError::InvalidValue
    );
}

#[test]
fn non_canonical_element_is_rejected() {
    // one value record whose first element is u64::MAX, above the field
    // modulus
    let mut bytes: Vec<u8> = vec![0, 1, 3];
    bytes.extend_from_slice(&u64::MAX.to_le_bytes());
    bytes.extend_from_slice(&0u64.to_le_bytes());
    bytes.extend_from_slice(&0u64.to_le_bytes());
    bytes.extend_from_slice(&0u64.to_le_bytes());
    assert_eq!(
        AccountStorage::read_from_bytes(&bytes).unwrap_err(),
        DeserializationError::InvalidValue
    );
}

#[test]
fn wire_value_for_reserved_slot_is_rejected() {
    // a value record addressing slot 255 must never be trusted from the
    // wire
    let mut bytes: Vec<u8> = vec![0, 1, 255];
    bytes.extend_from_slice(&1u64.to_le_bytes());
    bytes.extend_from_slice(&0u64.to_le_bytes());
    bytes.extend_from_slice(&0u64.to_le_bytes());
    bytes.extend_from_slice(&0u64.to_le_bytes());
    assert_eq!(
        AccountStorage::read_from_bytes(&bytes).unwrap_err(),
        DeserializationError::InvalidValue
    );
}

#[test]
fn slot_type_tags_round_trip() {
    let types = vec![
        StorageSlotType::Value { value_arity: 0 },
        StorageSlotType::Value { value_arity: 64 },
        StorageSlotType::MapSlot { value_arity: 7 },
        StorageSlotType::Array {
            depth: 2,
            value_arity: 0,
        },
        StorageSlotType::Array {
            depth: 64,
            value_arity: 255,
        },
    ];
    for t in types {
        assert_eq!(StorageSlotType::from_tag(t.tag()), Some(t));
    }
    assert_eq!(StorageSlotType::from_tag(65u16 * 256), None);
    // the tag packs the kind (or array depth) into the high byte and the
    // arity into the low byte
    assert_eq!(StorageSlotType::Value { value_arity: 64 }.tag(), 0x0040);
    assert_eq!(StorageSlotType::MapSlot { value_arity: 2 }.tag(), 0x0102);
    assert_eq!(
        StorageSlotType::Array {
            depth: 4,
            value_arity: 3,
        }
        .tag(),
        0x0403
    );
    assert!(StorageSlotType::Value { value_arity: 0 }.is_default());
    assert!(!StorageSlotType::MapSlot { value_arity: 0 }.is_default());
}

#[test]
fn slot_types_table_has_defaults_and_reserved_type() {
    let storage = AccountStorage::new(vec![(
        1,
        (StorageSlotType::Value { value_arity: 5 }, [1, 0, 0, 0]),
    )])
    .unwrap();
    let types = storage.slot_types();
    assert_eq!(types.len(), 256);
    assert_eq!(types[0], StorageSlotType::Value { value_arity: 0 });
    assert_eq!(types[1], StorageSlotType::Value { value_arity: 5 });
    assert_eq!(types[255], StorageSlotType::Value { value_arity: 64 });
}
