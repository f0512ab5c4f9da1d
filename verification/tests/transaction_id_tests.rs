use miden_tx_core::error::DeserializationError;
use miden_tx_core::transaction_id::{
    from_proven_parts, input_notes_commitment, output_notes_commitment, TransactionId,
};
use miden_tx_core::word::Digest;

fn d(x: u64) -> Digest {
    Digest([x, x + 1, x + 2, x + 3])
}

#[test]
fn transaction_id_is_deterministic() {
    let id1 = TransactionId::new(d(1), d(10), d(20), d(30));
    let id2 = TransactionId::new(d(1), d(10), d(20), d(30));
    assert_eq!(id1, id2);
    assert_eq!(id1.inner().as_word(), id2.inner().as_word());
}

#[test]
fn proven_and_result_views_agree() {
    // the proven-transaction view recomputes the note commitments from
    // per-note data; the result view passes them precomputed. Both must
    // address the same transaction identically.
    let nullifiers = vec![d(100), d(200)];
    let created = vec![(d(300), [1u64, 2, 3, 4]), (d(400), [5u64, 6, 7, 8])];
    let from_proven = from_proven_parts(d(1), d(2), &nullifiers, &created);
    let input_notes_hash = input_notes_commitment(&nullifiers);
    let output_notes_hash = output_notes_commitment(&created);
    let from_result = TransactionId::new(d(1), d(2), input_notes_hash, output_notes_hash);
    assert_eq!(from_proven, from_result);
}

#[test]
fn transaction_id_is_sensitive_to_each_input() {
    let base = TransactionId::new(d(1), d(2), d(3), d(4));
    let changed_init = TransactionId::new(d(9), d(2), d(3), d(4));
    let changed_final = TransactionId::new(d(1), d(9), d(3), d(4));
    let changed_input = TransactionId::new(d(1), d(2), d(9), d(4));
    let changed_output = TransactionId::new(d(1), d(2), d(3), d(9));
    assert_ne!(base, changed_init);
    assert_ne!(base, changed_final);
    assert_ne!(base, changed_input);
    assert_ne!(base, changed_output);
    // the order of the four operands matters: swapping two changes the ID
    let swapped = TransactionId::new(d(2), d(1), d(3), d(4));
    assert_ne!(base, swapped);
}

#[test]
fn id_accessors_expose_the_digest() {
    let id = TransactionId::new(d(5), d(6), d(7), d(8));
    assert_eq!(*id.as_elements(), id.inner().as_word());
}

#[test]
fn note_commitments_depend_on_their_notes() {
    let none = input_notes_commitment(&vec![]);
    let one = input_notes_commitment(&vec![d(42)]);
    assert_ne!(none.as_word(), one.as_word());
    let out_none = output_notes_commitment(&vec![]);
    let out_one = output_notes_commitment(&vec![(d(42), [0u64, 0, 0, 0])]);
    assert_ne!(out_none.as_word(), out_one.as_word());
}

#[test]
fn id_bytes_round_trip() {
    let id = TransactionId::new(d(1), d(2), d(3), d(4));
    let bytes = id.to_bytes();
    assert_eq!(bytes.len(), 32);
    assert_eq!(TransactionId::read_from_bytes(&bytes).unwrap(), id);
}

#[test]
fn malformed_id_bytes_are_rejected() {
    // a truncated stream
    let id = TransactionId::new(d(1), d(2), d(3), d(4));
    let mut bytes = id.to_bytes();
    bytes.pop();
    assert_eq!(
        TransactionId::read_from_bytes(&bytes).unwrap_err(),
        DeserializationError::InvalidValue
    );
    // a stream whose first element is not canonical
    let mut bytes: Vec<u8> = Vec::new();
    bytes.extend_from_slice(&u64::MAX.to_le_bytes());
    bytes.extend_from_slice(&0u64.to_le_bytes());
    bytes.extend_from_slice(&0u64.to_le_bytes());
    bytes.extend_from_slice(&0u64.to_le_bytes());
    assert_eq!(
        TransactionId::read_from_bytes(&bytes).unwrap_err(),
        DeserializationError::InvalidValue
    );
}
