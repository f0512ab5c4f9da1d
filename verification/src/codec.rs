//! Storage wire format.
//!
//! The byte layout is part of the account's persisted representation and
//! must stay byte-exact: first the count of non-default slot types among
//! indices 0 to 254 followed by one 3-byte record each (index, two-byte
//! little-endian tag), then the count of non-empty slot values excluding
//! the reserved slot followed by one 33-byte record each (index, four
//! 8-byte little-endian field elements). The reserved slot's type and
//! value are never serialized: decoding recomputes the commitment, so a
//! tampered wire value can never be trusted into slot 255.

use vstd::prelude::*;
use vstd::bytes::{
    lemma_auto_spec_u16_to_from_le_bytes, lemma_auto_spec_u64_to_from_le_bytes,
    spec_u16_from_le_bytes, spec_u16_to_le_bytes, spec_u64_from_le_bytes, spec_u64_to_le_bytes,
    u16_to_le_bytes, u64_to_le_bytes,
};
use crate::error::DeserializationError;
use crate::slot::{
    slot_type_wf, spec_default_slot_type, spec_slot_type_from_tag, spec_slot_type_tag,
    StorageSlotType,
};
use crate::smt::smt_get_leaf;
use crate::slot::lemma_slot_type_tag_round_trip;
use crate::storage::{
    dup_at, has_duplicate, has_reserved_index, items_wf, lemma_items_leaves_at,
    lemma_items_leaves_keys, lemma_storage_wf_properties, lemma_types_of_absent,
    lemma_types_of_at, lemma_types_of_len, lemma_types_of_props, spec_items_leaves,
    spec_leaf_word, spec_reserved_slot_type, spec_types_commitment,
    spec_types_of, spec_storage_leaves, AccountStorage, SlotItem, SLOT_TYPES_COMMITMENT_INDEX,
};
use crate::word::{spec_zero_word, word_eq, word_wf, zero_word, Word};

verus! {

/// The (index, tag) records of the non-default slot types among indices
/// below `n`, in increasing index order.
pub open spec fn type_records_upto(types: Seq<StorageSlotType>, n: int) -> Seq<(u8, u16)>
    decreases n,
{
    if n <= 0 {
        Seq::<(u8, u16)>::empty()
    } else {
        type_records_upto(types, n - 1) + if types[n - 1] != spec_default_slot_type() {
            seq![(((n - 1) as u8), spec_slot_type_tag(types[n - 1]))]
        } else {
            Seq::<(u8, u16)>::empty()
        }
    }
}

/// The serialized slot-type records: the non-default types among indices
/// 0 to 254; the reserved slot's type is implicit and never serialized.
pub open spec fn type_records(types: Seq<StorageSlotType>) -> Seq<(u8, u16)> {
    type_records_upto(types, SLOT_TYPES_COMMITMENT_INDEX as int)
}

/// The (index, value) records of the non-empty leaves among indices below
/// `n`, in increasing index order.
pub open spec fn value_records_upto(leaves: Map<u64, Word>, n: int) -> Seq<(u8, Word)>
    decreases n,
{
    if n <= 0 {
        Seq::<(u8, Word)>::empty()
    } else {
        value_records_upto(leaves, n - 1) + if spec_leaf_word(leaves, n - 1)
            != spec_zero_word() {
            seq![(((n - 1) as u8), spec_leaf_word(leaves, n - 1))]
        } else {
            Seq::<(u8, Word)>::empty()
        }
    }
}

/// The serialized slot-value records: the non-empty leaves among indices
/// 0 to 254; the reserved slot's value is rederived, never stored.
pub open spec fn value_records(leaves: Map<u64, Word>) -> Seq<(u8, Word)> {
    value_records_upto(leaves, SLOT_TYPES_COMMITMENT_INDEX as int)
}

/// The 3 bytes of one slot-type record.
pub open spec fn type_record_bytes(rec: (u8, u16)) -> Seq<u8> {
    seq![rec.0] + spec_u16_to_le_bytes(rec.1)
}

/// The 33 bytes of one slot-value record.
pub open spec fn value_record_bytes(rec: (u8, Word)) -> Seq<u8> {
    seq![rec.0] + spec_u64_to_le_bytes(rec.1[0]) + spec_u64_to_le_bytes(rec.1[1])
        + spec_u64_to_le_bytes(rec.1[2]) + spec_u64_to_le_bytes(rec.1[3])
}

/// The concatenated bytes of the slot-type records.
pub open spec fn flat_type_records(recs: Seq<(u8, u16)>) -> Seq<u8>
    decreases recs.len(),
{
    if recs.len() == 0 {
        Seq::<u8>::empty()
    } else {
        flat_type_records(recs.drop_last()) + type_record_bytes(recs.last())
    }
}

/// The concatenated bytes of the slot-value records.
pub open spec fn flat_value_records(recs: Seq<(u8, Word)>) -> Seq<u8>
    decreases recs.len(),
{
    if recs.len() == 0 {
        Seq::<u8>::empty()
    } else {
        flat_value_records(recs.drop_last()) + value_record_bytes(recs.last())
    }
}

/// The serialized form of a storage with the given type table and leaf
/// map: both record counts, each followed by its records.
pub open spec fn spec_encode(types: Seq<StorageSlotType>, leaves: Map<u64, Word>) -> Seq<u8> {
    seq![type_records(types).len() as u8] + flat_type_records(type_records(types)) + seq![
        value_records(leaves).len() as u8,
    ] + flat_value_records(value_records(leaves))
}

/// There are at most `n` type records among the first `n` indices.
proof fn lemma_type_records_len(types: Seq<StorageSlotType>, n: int)
    requires
        n >= 0,
    ensures
        type_records_upto(types, n).len() <= n,
    decreases n,
{
    if n > 0 {
        lemma_type_records_len(types, n - 1);
    }
}

/// There are at most `n` value records among the first `n` indices.
proof fn lemma_value_records_len(leaves: Map<u64, Word>, n: int)
    requires
        n >= 0,
    ensures
        value_records_upto(leaves, n).len() <= n,
    decreases n,
{
    if n > 0 {
        lemma_value_records_len(leaves, n - 1);
    }
}

impl AccountStorage {
    /// Serializes this storage into its wire format.
    pub fn to_bytes(&self) -> (r: Vec<u8>)
        requires
            self.wf(),
        ensures
            r@ == spec_encode(self.types_seq(), self.leaves()),
    {
        proof {
            lemma_storage_wf_properties(*self);
        }
        // collect the non-default types below the reserved slot
        let types = self.slot_types();
        let mut trecs: Vec<(u8, u16)> = Vec::new();
        for i in 0..255
            invariant
                self.wf(),
                types@ == self.types_seq(),
                types@.len() == 256,
                trecs@ == type_records_upto(self.types_seq(), i as int),
            decreases 255 - i,
        {
            if !types[i].is_default() {
                trecs.push((i as u8, types[i].tag()));
            }
        }
        // collect the non-empty values below the reserved slot
        let smt = self.slots();
        let mut vrecs: Vec<(u8, Word)> = Vec::new();
        let zero = zero_word();
        for i in 0..255
            invariant
                self.wf(),
                zero == spec_zero_word(),
                crate::smt::smt_leaves(*smt) == self.leaves(),
                crate::smt::smt_depth(*smt) == 8,
                vrecs@ == value_records_upto(self.leaves(), i as int),
            decreases 255 - i,
        {
            let v = smt_get_leaf(smt, i as u8);
            if !word_eq(&v.0, &zero) {
                vrecs.push((i as u8, v.0));
            }
        }
        proof {
            lemma_type_records_len(self.types_seq(), 255);
            lemma_value_records_len(self.leaves(), 255);
        }
        // render both sections
        let mut out: Vec<u8> = Vec::new();
        out.push(trecs.len() as u8);
        for j in 0..trecs.len()
            invariant
                trecs@ == type_records(self.types_seq()),
                trecs@.len() <= 255,
                out@ == seq![trecs@.len() as u8] + flat_type_records(trecs@.take(j as int)),
            decreases trecs.len() - j,
        {
            out.push(trecs[j].0);
            let tb = u16_to_le_bytes(trecs[j].1);
            out.push(tb[0]);
            out.push(tb[1]);
            proof {
                assert(trecs@.take(j + 1).drop_last() =~= trecs@.take(j as int));
                assert(tb@ =~= seq![tb@[0], tb@[1]]);
                assert(out@ =~= seq![trecs@.len() as u8] + flat_type_records(
                    trecs@.take(j as int),
                ) + type_record_bytes(trecs@[j as int]));
            }
        }
        proof {
            assert(trecs@.take(trecs@.len() as int) =~= trecs@);
        }
        out.push(vrecs.len() as u8);
        let ghost head = out@;
        for j in 0..vrecs.len()
            invariant
                vrecs@ == value_records(self.leaves()),
                vrecs@.len() <= 255,
                head == seq![type_records(self.types_seq()).len() as u8] + flat_type_records(
                    type_records(self.types_seq()),
                ) + seq![vrecs@.len() as u8],
                out@ == head + flat_value_records(vrecs@.take(j as int)),
            decreases vrecs.len() - j,
        {
            out.push(vrecs[j].0);
            let w = vrecs[j].1;
            let b0 = u64_to_le_bytes(w[0]);
            let b1 = u64_to_le_bytes(w[1]);
            let b2 = u64_to_le_bytes(w[2]);
            let b3 = u64_to_le_bytes(w[3]);
            push_bytes(&mut out, &b0);
            push_bytes(&mut out, &b1);
            push_bytes(&mut out, &b2);
            push_bytes(&mut out, &b3);
            proof {
                assert(vrecs@.take(j + 1).drop_last() =~= vrecs@.take(j as int));
                assert(out@ =~= head + flat_value_records(vrecs@.take(j as int))
                    + value_record_bytes(vrecs@[j as int]));
            }
        }
        proof {
            assert(vrecs@.take(vrecs@.len() as int) =~= vrecs@);
            assert(out@ =~= spec_encode(self.types_seq(), self.leaves()));
        }
        out
    }
}

/// The index byte of the type record at position `j`.
pub open spec fn t_idx(bytes: Seq<u8>, j: int) -> u8 {
    bytes[1 + 3 * j]
}

/// The two-byte tag of the type record at position `j`.
pub open spec fn t_tag(bytes: Seq<u8>, j: int) -> u16 {
    spec_u16_from_le_bytes(seq![bytes[2 + 3 * j], bytes[3 + 3 * j]])
}

/// The first byte of the value record at position `j`, after `n` type
/// records.
pub open spec fn v_base(n: int, j: int) -> int {
    2 + 3 * n + 33 * j
}

/// The index byte of the value record at position `j`.
pub open spec fn v_idx(bytes: Seq<u8>, n: int, j: int) -> u8 {
    bytes[v_base(n, j)]
}

/// Element `c` of the value record at position `j`.
pub open spec fn v_elem(bytes: Seq<u8>, n: int, j: int, c: int) -> u64 {
    spec_u64_from_le_bytes(bytes.subrange(v_base(n, j) + 1 + 8 * c, v_base(n, j) + 9 + 8 * c))
}

/// The word of the value record at position `j`.
pub open spec fn v_word(bytes: Seq<u8>, n: int, j: int) -> Word {
    [v_elem(bytes, n, j, 0), v_elem(bytes, n, j, 1), v_elem(bytes, n, j, 2), v_elem(bytes, n, j, 3)]
}

/// A type table of 256 default entries.
pub open spec fn spec_default_types() -> Seq<StorageSlotType> {
    Seq::new(256, |i: int| spec_default_slot_type())
}

/// The type table after applying the first `j` decoded type records:
/// each record sets its index to its decoded tag, later records
/// overwriting earlier ones.
pub open spec fn decoded_types_upto(bytes: Seq<u8>, j: int) -> Seq<StorageSlotType>
    decreases j,
{
    if j <= 0 {
        spec_default_types()
    } else {
        decoded_types_upto(bytes, j - 1).update(
            t_idx(bytes, j - 1) as int,
            spec_slot_type_from_tag(t_tag(bytes, j - 1)).unwrap(),
        )
    }
}

/// All of the first `n` type records carry decodable tags.
pub open spec fn tags_ok(bytes: Seq<u8>, n: int) -> bool {
    forall|j: int| 0 <= j < n ==> spec_slot_type_from_tag(#[trigger] t_tag(bytes, j)) is Some
}

/// All elements of the first `m` value records are canonical.
pub open spec fn felts_ok(bytes: Seq<u8>, n: int, m: int) -> bool {
    forall|j: int, c: int|
        0 <= j < m && 0 <= c < 4 ==> crate::word::felt_valid(#[trigger] v_elem(bytes, n, j, c))
}

/// The slot items a byte stream decodes to, if it is well formed: each
/// value record paired with its slot's decoded (or default) type. The
/// stream must hold exactly both counted sections, every tag must decode
/// and every element must be canonical.
pub open spec fn spec_decode_items(bytes: Seq<u8>) -> Option<Seq<SlotItem>> {
    if bytes.len() < 1 {
        None
    } else {
        let n = bytes[0] as int;
        if bytes.len() < 2 + 3 * n {
            None
        } else {
            let m = bytes[1 + 3 * n] as int;
            if bytes.len() != 2 + 3 * n + 33 * m {
                None
            } else if !tags_ok(bytes, n) {
                None
            } else if !felts_ok(bytes, n, m) {
                None
            } else {
                Some(
                    Seq::new(
                        m as nat,
                        |j: int|
                            (
                                v_idx(bytes, n, j),
                                (
                                    decoded_types_upto(bytes, n)[v_idx(bytes, n, j) as int],
                                    v_word(bytes, n, j),
                                ),
                            ),
                    ),
                )
            }
        }
    }
}

impl AccountStorage {
    /// Deserializes a storage from its wire format: rebuilds the slot
    /// items (type from the decoded type table, default if absent) and
    /// re-invokes the constructor, so the reserved slot's commitment is
    /// always recomputed rather than trusted from the wire. Returns an
    /// error on a truncated or overlong stream, a malformed tag, a
    /// non-canonical element, or items the constructor rejects.
    pub fn read_from_bytes(bytes: &Vec<u8>) -> (r: Result<AccountStorage, DeserializationError>)
        ensures
            spec_decode_items(bytes@) is None ==> r == Result::<
                AccountStorage,
                DeserializationError,
            >::Err(DeserializationError::InvalidValue),
            spec_decode_items(bytes@) matches Some(items) ==> {
                &&& items_wf(items)
                &&& (has_reserved_index(items) || has_duplicate(items) ==> r == Result::<
                    AccountStorage,
                    DeserializationError,
                >::Err(DeserializationError::InvalidValue))
                &&& (!has_reserved_index(items) && !has_duplicate(items) ==> (r matches Ok(st)
                    && st.wf() && st.types_seq() == spec_types_of(items) && st.leaves()
                    == spec_storage_leaves(items)))
            },
    {
        if bytes.len() < 1 {
            return Err(DeserializationError::InvalidValue);
        }
        let n = bytes[0] as usize;
        if bytes.len() < 2 + 3 * n {
            return Err(DeserializationError::InvalidValue);
        }
        let m = bytes[1 + 3 * n] as usize;
        if bytes.len() != 2 + 3 * n + 33 * m {
            return Err(DeserializationError::InvalidValue);
        }
        // decode the type records into a full 256-entry table
        let mut table: Vec<StorageSlotType> = Vec::new();
        for i in 0..256
            invariant
                table@ =~= spec_default_types().take(i as int),
            decreases 256 - i,
        {
            table.push(StorageSlotType::Value { value_arity: 0 });
            proof {
                assert(table@ =~= spec_default_types().take(i + 1));
            }
        }
        proof {
            assert(table@ =~= spec_default_types());
            assert(decoded_types_upto(bytes@, 0) == spec_default_types());
        }
        for j in 0..n
            invariant
                bytes@.len() >= 2 + 3 * (n as int),
                n == bytes@[0] as int,
                table@ == decoded_types_upto(bytes@, j as int),
                table@.len() == 256,
                tags_ok(bytes@, j as int),
                forall|i: int| 0 <= i < 256 ==> slot_type_wf(#[trigger] table@[i]),
            decreases n - j,
        {
            let idx = bytes[1 + 3 * j];
            let tag_bytes = vstd::slice::slice_subrange(bytes.as_slice(), 2 + 3 * j, 4 + 3 * j);
            let tag = vstd::bytes::u16_from_le_bytes(tag_bytes);
            proof {
                assert(bytes@.subrange(2 + 3 * (j as int), 4 + 3 * (j as int)) =~= seq![
                    bytes@[2 + 3 * (j as int)],
                    bytes@[3 + 3 * (j as int)],
                ]);
                assert(tag == t_tag(bytes@, j as int));
            }
            match StorageSlotType::from_tag(tag) {
                None => {
                    proof {
                        assert(!tags_ok(bytes@, n as int));
                        assert(spec_decode_items(bytes@) is None);
                    }
                    return Err(DeserializationError::InvalidValue);
                },
                Some(t) => {
                    table.set(idx as usize, t);
                    proof {
                        assert(table@ =~= decoded_types_upto(bytes@, j + 1));
                    }
                },
            }
        }
        // decode the value records into slot items
        let mut items: Vec<SlotItem> = Vec::new();
        let ghost ditems = Seq::new(
            m as nat,
            |j: int|
                (
                    v_idx(bytes@, n as int, j),
                    (
                        decoded_types_upto(bytes@, n as int)[v_idx(bytes@, n as int, j) as int],
                        v_word(bytes@, n as int, j),
                    ),
                ),
        );
        for j in 0..m
            invariant
                bytes@.len() == 2 + 3 * (n as int) + 33 * (m as int),
                n == bytes@[0] as int,
                m == bytes@[1 + 3 * (n as int)] as int,
                table@ == decoded_types_upto(bytes@, n as int),
                table@.len() == 256,
                forall|i: int| 0 <= i < 256 ==> slot_type_wf(#[trigger] table@[i]),
                items@ =~= ditems.take(j as int),
                felts_ok(bytes@, n as int, j as int),
                items_wf(items@),
                ditems == Seq::new(
                    m as nat,
                    |j: int|
                        (
                            v_idx(bytes@, n as int, j),
                            (
                                decoded_types_upto(bytes@, n as int)[v_idx(
                                    bytes@,
                                    n as int,
                                    j,
                                ) as int],
                                v_word(bytes@, n as int, j),
                            ),
                        ),
                ),
            decreases m - j,
        {
            let base = 2 + 3 * n + 33 * j;
            let idx = bytes[base];
            let mut w: Word = zero_word();
            let b0 = vstd::slice::slice_subrange(bytes.as_slice(), base + 1, base + 9);
            let b1 = vstd::slice::slice_subrange(bytes.as_slice(), base + 9, base + 17);
            let b2 = vstd::slice::slice_subrange(bytes.as_slice(), base + 17, base + 25);
            let b3 = vstd::slice::slice_subrange(bytes.as_slice(), base + 25, base + 33);
            w[0] = vstd::bytes::u64_from_le_bytes(b0);
            w[1] = vstd::bytes::u64_from_le_bytes(b1);
            w[2] = vstd::bytes::u64_from_le_bytes(b2);
            w[3] = vstd::bytes::u64_from_le_bytes(b3);
            if w[0] >= crate::word::FELT_MODULUS || w[1] >= crate::word::FELT_MODULUS || w[2]
                >= crate::word::FELT_MODULUS || w[3] >= crate::word::FELT_MODULUS {
                proof {
                    assert(w[0] == v_elem(bytes@, n as int, j as int, 0));
                    assert(w[1] == v_elem(bytes@, n as int, j as int, 1));
                    assert(w[2] == v_elem(bytes@, n as int, j as int, 2));
                    assert(w[3] == v_elem(bytes@, n as int, j as int, 3));
                    assert(!felts_ok(bytes@, n as int, m as int));
                    assert(spec_decode_items(bytes@) is None);
                }
                return Err(DeserializationError::InvalidValue);
            }
            items.push((idx, (table[idx as usize], w)));
            proof {
                assert(w =~= v_word(bytes@, n as int, j as int));
                assert(idx == v_idx(bytes@, n as int, j as int));
                assert(items@ =~= ditems.take(j + 1));
                assert forall|j2: int, c: int| 0 <= j2 < j + 1 && 0 <= c < 4 implies
                    crate::word::felt_valid(#[trigger] v_elem(bytes@, n as int, j2, c)) by {
                    if j2 == j as int {
                        assert(v_elem(bytes@, n as int, j2, c) == w[c]);
                    }
                }
            }
        }
        proof {
            assert(items@ =~= ditems);
            assert(spec_decode_items(bytes@) == Some(ditems));
        }
        match AccountStorage::new(items) {
            Ok(st) => Ok(st),
            Err(_) => Err(DeserializationError::InvalidValue),
        }
    }
}

proof fn lemma_flat_type_len(rs: Seq<(u8, u16)>)
    ensures
        flat_type_records(rs).len() == 3 * rs.len(),
    decreases rs.len(),
{
    lemma_auto_spec_u16_to_from_le_bytes();
    if rs.len() > 0 {
        lemma_flat_type_len(rs.drop_last());
    }
}

proof fn lemma_flat_value_len(rs: Seq<(u8, Word)>)
    ensures
        flat_value_records(rs).len() == 33 * rs.len(),
    decreases rs.len(),
{
    lemma_auto_spec_u64_to_from_le_bytes();
    if rs.len() > 0 {
        lemma_flat_value_len(rs.drop_last());
    }
}

/// Byte `c` of the concatenated type records belongs to record `c / 3`.
proof fn lemma_flat_type_index(rs: Seq<(u8, u16)>, j: int, c: int)
    requires
        0 <= j < rs.len(),
        0 <= c < 3,
    ensures
        flat_type_records(rs)[3 * j + c] == type_record_bytes(rs[j])[c],
    decreases rs.len(),
{
    lemma_auto_spec_u16_to_from_le_bytes();
    lemma_flat_type_len(rs.drop_last());
    if j == rs.len() - 1 {
        assert(flat_type_records(rs)[3 * j + c] == type_record_bytes(rs.last())[c]);
    } else {
        lemma_flat_type_index(rs.drop_last(), j, c);
        assert(rs.drop_last()[j] == rs[j]);
    }
}

/// Byte `c` of the concatenated value records belongs to record `c / 33`.
proof fn lemma_flat_value_index(rs: Seq<(u8, Word)>, j: int, c: int)
    requires
        0 <= j < rs.len(),
        0 <= c < 33,
    ensures
        flat_value_records(rs)[33 * j + c] == value_record_bytes(rs[j])[c],
    decreases rs.len(),
{
    lemma_auto_spec_u64_to_from_le_bytes();
    lemma_flat_value_len(rs.drop_last());
    if j == rs.len() - 1 {
        assert(flat_value_records(rs)[33 * j + c] == value_record_bytes(rs.last())[c]);
    } else {
        lemma_flat_value_index(rs.drop_last(), j, c);
        assert(rs.drop_last()[j] == rs[j]);
    }
}

/// The layout of one type record: the index byte, then the tag bytes.
proof fn lemma_type_record_bytes_at(rec: (u8, u16))
    ensures
        type_record_bytes(rec).len() == 3,
        type_record_bytes(rec)[0] == rec.0,
        forall|e: int|
            0 <= e < 2 ==> type_record_bytes(rec)[1 + e] == spec_u16_to_le_bytes(rec.1)[e],
{
    lemma_auto_spec_u16_to_from_le_bytes();
    assert forall|e: int| 0 <= e < 2 implies type_record_bytes(rec)[1 + e] == spec_u16_to_le_bytes(
        rec.1,
    )[e] by {
        assert((seq![rec.0] + spec_u16_to_le_bytes(rec.1))[1 + e] == spec_u16_to_le_bytes(
            rec.1,
        )[e]);
    }
}

/// The layout of one value record: the index byte, then the four elements
/// in order, 8 bytes each.
proof fn lemma_value_record_bytes_at(rec: (u8, Word))
    ensures
        value_record_bytes(rec).len() == 33,
        value_record_bytes(rec)[0] == rec.0,
        forall|c: int, e: int|
            0 <= c < 4 && 0 <= e < 8 ==> value_record_bytes(rec)[1 + 8 * c + e]
                == spec_u64_to_le_bytes(rec.1[c])[e],
{
    lemma_auto_spec_u64_to_from_le_bytes();
    let s0 = seq![rec.0];
    let l0 = spec_u64_to_le_bytes(rec.1[0]);
    let l1 = spec_u64_to_le_bytes(rec.1[1]);
    let l2 = spec_u64_to_le_bytes(rec.1[2]);
    let l3 = spec_u64_to_le_bytes(rec.1[3]);
    assert(value_record_bytes(rec) == s0 + l0 + l1 + l2 + l3);
    assert forall|c: int, e: int| 0 <= c < 4 && 0 <= e < 8 implies value_record_bytes(rec)[1 + 8 * c
        + e] == spec_u64_to_le_bytes(rec.1[c])[e] by {
        if c == 0 {
            assert((s0 + l0 + l1 + l2 + l3)[1 + e] == (s0 + l0 + l1 + l2)[1 + e]);
            assert((s0 + l0 + l1 + l2)[1 + e] == (s0 + l0 + l1)[1 + e]);
            assert((s0 + l0 + l1)[1 + e] == (s0 + l0)[1 + e]);
            assert((s0 + l0)[1 + e] == l0[e]);
        } else if c == 1 {
            assert((s0 + l0 + l1 + l2 + l3)[9 + e] == (s0 + l0 + l1 + l2)[9 + e]);
            assert((s0 + l0 + l1 + l2)[9 + e] == (s0 + l0 + l1)[9 + e]);
            assert((s0 + l0 + l1)[9 + e] == l1[e]);
        } else if c == 2 {
            assert((s0 + l0 + l1 + l2 + l3)[17 + e] == (s0 + l0 + l1 + l2)[17 + e]);
            assert((s0 + l0 + l1 + l2)[17 + e] == l2[e]);
        } else {
            assert((s0 + l0 + l1 + l2 + l3)[25 + e] == l3[e]);
        }
    }
}

/// The type records below `n`: indexed below `n`, non-default, carrying
/// their slot's tag, strictly increasing, and covering every non-default
/// slot below `n`.
proof fn lemma_type_records_props(types: Seq<StorageSlotType>, n: int)
    requires
        0 <= n <= 255,
    ensures
        forall|j: int|
            0 <= j < type_records_upto(types, n).len() ==> {
                let rec = #[trigger] type_records_upto(types, n)[j];
                &&& (rec.0 as int) < n
                &&& types[rec.0 as int] != spec_default_slot_type()
                &&& rec.1 == spec_slot_type_tag(types[rec.0 as int])
            },
        forall|j1: int, j2: int|
            0 <= j1 < j2 < type_records_upto(types, n).len() ==> (#[trigger] type_records_upto(
                types,
                n,
            )[j1]).0 < (#[trigger] type_records_upto(types, n)[j2]).0,
        forall|k: int|
            0 <= k < n && types[k] != spec_default_slot_type() ==> exists|j: int|
                0 <= j < type_records_upto(types, n).len() && (#[trigger] type_records_upto(
                    types,
                    n,
                )[j]).0 as int == k,
    decreases n,
{
    if n > 0 {
        lemma_type_records_props(types, n - 1);
        let prev = type_records_upto(types, n - 1);
        let rs = type_records_upto(types, n);
        assert(forall|j: int| 0 <= j < prev.len() ==> #[trigger] rs[j] == prev[j]);
        assert forall|k: int|
            0 <= k < n && types[k] != spec_default_slot_type() implies exists|j: int|
            0 <= j < rs.len() && (#[trigger] rs[j]).0 as int == k by {
            if k < n - 1 {
                let j = choose|j: int| 0 <= j < prev.len() && (#[trigger] prev[j]).0 as int == k;
                assert(rs[j].0 as int == k);
            } else {
                assert(rs == prev + seq![(((n - 1) as u8), spec_slot_type_tag(types[n - 1]))]);
                assert(rs[rs.len() - 1] == (((n - 1) as u8), spec_slot_type_tag(types[n - 1])));
                assert(rs[rs.len() - 1].0 as int == k);
            }
        }
    }
}

/// The value records below `n`: indexed below `n`, non-empty, carrying
/// their leaf's value, strictly increasing, and covering every non-empty
/// leaf below `n`.
proof fn lemma_value_records_props(leaves: Map<u64, Word>, n: int)
    requires
        0 <= n <= 255,
    ensures
        forall|j: int|
            0 <= j < value_records_upto(leaves, n).len() ==> {
                let rec = #[trigger] value_records_upto(leaves, n)[j];
                &&& (rec.0 as int) < n
                &&& spec_leaf_word(leaves, rec.0 as int) != spec_zero_word()
                &&& rec.1 == spec_leaf_word(leaves, rec.0 as int)
            },
        forall|j1: int, j2: int|
            0 <= j1 < j2 < value_records_upto(leaves, n).len() ==> (#[trigger] value_records_upto(
                leaves,
                n,
            )[j1]).0 < (#[trigger] value_records_upto(leaves, n)[j2]).0,
        forall|k: int|
            0 <= k < n && spec_leaf_word(leaves, k) != spec_zero_word() ==> exists|j: int|
                0 <= j < value_records_upto(leaves, n).len() && (#[trigger] value_records_upto(
                    leaves,
                    n,
                )[j]).0 as int == k,
    decreases n,
{
    if n > 0 {
        lemma_value_records_props(leaves, n - 1);
        let prev = value_records_upto(leaves, n - 1);
        let rs = value_records_upto(leaves, n);
        assert(forall|j: int| 0 <= j < prev.len() ==> #[trigger] rs[j] == prev[j]);
        assert forall|k: int|
            0 <= k < n && spec_leaf_word(leaves, k) != spec_zero_word() implies exists|j: int|
            0 <= j < rs.len() && (#[trigger] rs[j]).0 as int == k by {
            if k < n - 1 {
                let j = choose|j: int| 0 <= j < prev.len() && (#[trigger] prev[j]).0 as int == k;
                assert(rs[j].0 as int == k);
            } else {
                assert(rs == prev + seq![(((n - 1) as u8), spec_leaf_word(leaves, n - 1))]);
                assert(rs[rs.len() - 1] == (((n - 1) as u8), spec_leaf_word(leaves, n - 1)));
                assert(rs[rs.len() - 1].0 as int == k);
            }
        }
    }
}

/// After applying `j` type records whose tags decode to their slots'
/// types, the decoded table agrees with the type table on every slot a
/// record set, and is default elsewhere.
proof fn lemma_decoded_table(bytes: Seq<u8>, types: Seq<StorageSlotType>, j: int)
    requires
        0 <= j <= type_records(types).len(),
        types.len() == 256,
        forall|i: int|
            0 <= i < j ==> t_idx(bytes, i) == (#[trigger] type_records(types)[i]).0
                && spec_slot_type_from_tag(t_tag(bytes, i)) == Some(
                types[type_records(types)[i].0 as int],
            ),
        forall|i: int| 0 <= i < j ==> ((#[trigger] type_records(types)[i]).0 as int) < 256,
    ensures
        decoded_types_upto(bytes, j).len() == 256,
        forall|k: int|
            0 <= k < 256 ==> #[trigger] decoded_types_upto(bytes, j)[k] == if (exists|i: int|
                0 <= i < j && (#[trigger] type_records(types)[i]).0 as int == k) {
                types[k]
            } else {
                spec_default_slot_type()
            },
    decreases j,
{
    if j == 0 {
    } else {
        lemma_decoded_table(bytes, types, j - 1);
        let rec = type_records(types)[j - 1];
        assert(t_idx(bytes, j - 1) == rec.0);
        assert(spec_slot_type_from_tag(t_tag(bytes, j - 1)).unwrap() == types[rec.0 as int]);
        assert forall|k: int| 0 <= k < 256 implies #[trigger] decoded_types_upto(bytes, j)[k] == if (
        exists|i: int| 0 <= i < j && (#[trigger] type_records(types)[i]).0 as int == k) {
            types[k]
        } else {
            spec_default_slot_type()
        } by {
            if k == rec.0 as int {
                assert(type_records(types)[j - 1].0 as int == k);
            } else {
                assert(decoded_types_upto(bytes, j)[k] == decoded_types_upto(bytes, j - 1)[k]);
                if exists|i: int|
                    0 <= i < j && (#[trigger] type_records(types)[i]).0 as int == k {
                    let i = choose|i: int|
                        0 <= i < j && (#[trigger] type_records(types)[i]).0 as int == k;
                    assert(i < j - 1);
                }
            }
        }
    }
}

/// Law: the wire format round-trips. A storage built from well-formed,
/// duplicate-free items that avoid the reserved slot and carry non-empty
/// values serializes to bytes that decode to items the constructor
/// accepts, rebuilding the same type table and the same leaf map — and
/// with them the same root.
pub proof fn lemma_storage_round_trip(items: Seq<SlotItem>)
    requires
        items_wf(items),
        !has_reserved_index(items),
        !has_duplicate(items),
        forall|i: int| 0 <= i < items.len() ==> (#[trigger] items[i]).1.1 != spec_zero_word(),
    ensures
        ({
            let bytes = spec_encode(spec_types_of(items), spec_storage_leaves(items));
            let decoded = spec_decode_items(bytes);
            &&& decoded is Some
            &&& items_wf(decoded.unwrap())
            &&& !has_reserved_index(decoded.unwrap())
            &&& !has_duplicate(decoded.unwrap())
            &&& spec_types_of(decoded.unwrap()) == spec_types_of(items)
            &&& spec_storage_leaves(decoded.unwrap()) == spec_storage_leaves(items)
        }),
{
    lemma_auto_spec_u16_to_from_le_bytes();
    lemma_auto_spec_u64_to_from_le_bytes();
    let types = spec_types_of(items);
    let leaves = spec_storage_leaves(items);
    lemma_types_of_props(items);
    lemma_items_leaves_keys(items);
    let trecs = type_records(types);
    let vrecs = value_records(leaves);
    lemma_type_records_len(types, 255);
    lemma_value_records_len(leaves, 255);
    lemma_type_records_props(types, 255);
    lemma_value_records_props(leaves, 255);
    lemma_flat_type_len(trecs);
    lemma_flat_value_len(vrecs);
    let nn = trecs.len() as int;
    let mm = vrecs.len() as int;
    let f3 = flat_type_records(trecs);
    let f33 = flat_value_records(vrecs);
    let a0 = seq![trecs.len() as u8];
    let a1 = seq![vrecs.len() as u8];
    let bytes = spec_encode(types, leaves);
    assert(bytes == a0 + f3 + a1 + f33);
    assert(bytes.len() == 2 + 3 * nn + 33 * mm);

    // section offsets
    assert(bytes[0] == trecs.len() as u8) by {
        assert((a0 + f3 + a1 + f33)[0] == (a0 + f3 + a1)[0]);
        assert((a0 + f3 + a1)[0] == (a0 + f3)[0]);
        assert((a0 + f3)[0] == a0[0]);
    }
    assert(bytes[1 + 3 * nn] == vrecs.len() as u8) by {
        assert((a0 + f3 + a1 + f33)[1 + 3 * nn] == (a0 + f3 + a1)[1 + 3 * nn]);
        assert((a0 + f3 + a1)[1 + 3 * nn] == a1[0]);
    }
    assert(bytes[0] as int == nn);
    assert(bytes[1 + 3 * nn] as int == mm);
    assert forall|i: int| 0 <= i < 3 * nn implies #[trigger] bytes[1 + i] == f3[i] by {
        assert((a0 + f3 + a1 + f33)[1 + i] == (a0 + f3 + a1)[1 + i]);
        assert((a0 + f3 + a1)[1 + i] == (a0 + f3)[1 + i]);
        assert((a0 + f3)[1 + i] == f3[i]);
    }
    assert forall|i: int| 0 <= i < 33 * mm implies #[trigger] bytes[2 + 3 * nn + i] == f33[i] by {
        assert((a0 + f3 + a1 + f33)[2 + 3 * nn + i] == f33[i]);
    }

    // type records come back byte for byte, and their tags decode
    assert forall|j: int| 0 <= j < nn implies t_idx(bytes, j) == (#[trigger] trecs[j]).0 && t_tag(
        bytes,
        j,
    ) == trecs[j].1 && spec_slot_type_from_tag(t_tag(bytes, j)) == Some(
        types[trecs[j].0 as int],
    ) by {
        lemma_type_record_bytes_at(trecs[j]);
        lemma_flat_type_index(trecs, j, 0);
        lemma_flat_type_index(trecs, j, 1);
        lemma_flat_type_index(trecs, j, 2);
        assert(bytes[1 + 3 * j] == f3[3 * j]);
        assert(bytes[1 + (3 * j + 1)] == f3[3 * j + 1]);
        assert(bytes[1 + (3 * j + 2)] == f3[3 * j + 2]);
        assert(t_idx(bytes, j) == trecs[j].0);
        assert(seq![bytes[2 + 3 * j], bytes[3 + 3 * j]] =~= spec_u16_to_le_bytes(trecs[j].1));
        assert(t_tag(bytes, j) == trecs[j].1);
        assert(slot_type_wf(types[trecs[j].0 as int]));
        lemma_slot_type_tag_round_trip(types[trecs[j].0 as int]);
    }
    assert forall|j: int| 0 <= j < nn implies spec_slot_type_from_tag(
        #[trigger] t_tag(bytes, j),
    ) is Some by {
        assert(t_tag(bytes, j) == trecs[j].1);
        assert(spec_slot_type_from_tag(t_tag(bytes, j)) == Some(types[trecs[j].0 as int]));
    }
    assert(tags_ok(bytes, nn));

    // value records come back byte for byte
    assert forall|j: int| 0 <= j < mm implies v_idx(bytes, nn, j) == (#[trigger] vrecs[j]).0
        && v_word(bytes, nn, j) == vrecs[j].1 by {
        lemma_value_record_bytes_at(vrecs[j]);
        assert forall|c: int| 0 <= c < 33 implies #[trigger] bytes[v_base(nn, j) + c]
            == value_record_bytes(vrecs[j])[c] by {
            lemma_flat_value_index(vrecs, j, c);
            assert(bytes[2 + 3 * nn + (33 * j + c)] == f33[33 * j + c]);
        }
        assert(bytes[v_base(nn, j) + 0] == value_record_bytes(vrecs[j])[0]);
        assert(bytes[v_base(nn, j)] == vrecs[j].0);
        assert forall|c: int| 0 <= c < 4 implies v_elem(bytes, nn, j, c) == vrecs[j].1[c] by {
            assert forall|e: int|
                0 <= e < 8 implies #[trigger] bytes[v_base(nn, j) + 1 + 8 * c + e]
                == spec_u64_to_le_bytes(vrecs[j].1[c])[e] by {
                assert(bytes[v_base(nn, j) + (1 + 8 * c + e)] == value_record_bytes(
                    vrecs[j],
                )[1 + 8 * c + e]);
            }
            let sub = bytes.subrange(v_base(nn, j) + 1 + 8 * c, v_base(nn, j) + 9 + 8 * c);
            assert forall|e: int| 0 <= e < 8 implies #[trigger] sub[e] == spec_u64_to_le_bytes(
                vrecs[j].1[c],
            )[e] by {
                assert(sub[e] == bytes[v_base(nn, j) + 1 + 8 * c + e]);
            }
            assert(sub =~= spec_u64_to_le_bytes(vrecs[j].1[c]));
        }
        assert(v_word(bytes, nn, j) =~= vrecs[j].1);
    }

    // every value record's word is canonical
    assert forall|j: int| 0 <= j < mm implies word_wf((#[trigger] vrecs[j]).1) by {
        let k = vrecs[j].0;
        assert(spec_leaf_word(leaves, k as int) != spec_zero_word());
        assert(leaves.contains_key(k as u64));
        assert((k as int) < 255);
        assert(leaves[k as u64] == spec_items_leaves(items)[k as u64]);
        assert(spec_items_leaves(items).contains_key(k as u64));
    }
    assert(felts_ok(bytes, nn, mm)) by {
        assert forall|j: int, c: int|
            0 <= j < mm && 0 <= c < 4 implies crate::word::felt_valid(
            #[trigger] v_elem(bytes, nn, j, c),
        ) by {
            assert(v_elem(bytes, nn, j, c) == v_word(bytes, nn, j)[c]);
            assert(word_wf(vrecs[j].1));
        }
    }

    // the stream decodes, and the decoded table restores every slot type
    lemma_decoded_table(bytes, types, nn);
    let decoded = spec_decode_items(bytes);
    assert(decoded is Some);
    let ditems = decoded.unwrap();
    assert(ditems.len() == mm);
    assert forall|k: int| 0 <= k < 255 implies decoded_types_upto(bytes, nn)[k] == types[k] by {
        if exists|i: int| 0 <= i < nn && (#[trigger] trecs[i]).0 as int == k {
            let i = choose|i: int| 0 <= i < nn && (#[trigger] trecs[i]).0 as int == k;
            assert(decoded_types_upto(bytes, nn)[k] == types[k]);
        } else {
            assert(decoded_types_upto(bytes, nn)[k] == spec_default_slot_type());
            if types[k] != spec_default_slot_type() {
                assert(exists|j: int| 0 <= j < trecs.len() && (#[trigger] trecs[j]).0 as int == k);
            }
        }
    }
    assert forall|j: int| 0 <= j < mm implies #[trigger] ditems[j] == (
        vrecs[j].0,
        (types[vrecs[j].0 as int], vrecs[j].1),
    ) by {
        assert(ditems[j].0 == v_idx(bytes, nn, j));
        assert((vrecs[j].0 as int) < 255);
    }

    // the decoded items are well formed, duplicate-free and unreserved
    assert(items_wf(ditems)) by {
        assert forall|i: int|
            0 <= i < ditems.len() implies slot_type_wf((#[trigger] ditems[i]).1.0) && word_wf(
            ditems[i].1.1,
        ) by {
            assert(ditems[i] == (vrecs[i].0, (types[vrecs[i].0 as int], vrecs[i].1)));
            assert(slot_type_wf(types[vrecs[i].0 as int]));
            assert(word_wf(vrecs[i].1));
        }
    }
    assert(!has_reserved_index(ditems)) by {
        assert forall|i: int|
            0 <= i < ditems.len() implies (#[trigger] ditems[i]).0 != SLOT_TYPES_COMMITMENT_INDEX
        by {
            assert(((vrecs[i]).0 as int) < 255);
        }
    }
    assert(!has_duplicate(ditems)) by {
        assert forall|j: int| 0 <= j < ditems.len() implies !dup_at(ditems, j) by {
            assert forall|i: int| 0 <= i < j implies (#[trigger] ditems[i]).0 != ditems[j].0 by {
                assert(vrecs[i].0 < vrecs[j].0);
            }
        }
    }

    // the decoded items rebuild the same type table
    lemma_types_of_len(ditems);
    assert forall|k: int| 0 <= k < 256 implies spec_types_of(ditems)[k] == types[k] by {
        if k == 255 {
            assert(forall|i: int| 0 <= i < ditems.len() ==> (#[trigger] ditems[i]).0 as int != k);
            lemma_types_of_absent(ditems, k);
            assert(types[255] == spec_reserved_slot_type());
        } else if exists|j: int| 0 <= j < ditems.len() && (#[trigger] ditems[j]).0 as int == k {
            let j = choose|j: int| 0 <= j < ditems.len() && (#[trigger] ditems[j]).0 as int == k;
            assert forall|j2: int| j < j2 < ditems.len() implies (#[trigger] ditems[j2]).0
                != ditems[j].0 by {
                assert(vrecs[j].0 < vrecs[j2].0);
            }
            lemma_types_of_at(ditems, j);
            assert(ditems[j].1.0 == types[k]);
        } else {
            lemma_types_of_absent(ditems, k);
            assert(spec_types_of(ditems)[k] == spec_default_slot_type());
            if types[k] != spec_default_slot_type() {
                // a non-default slot carries some item's non-empty value,
                // so a value record must exist for it
                if forall|i: int| 0 <= i < items.len() ==> (#[trigger] items[i]).0 as int != k {
                    lemma_types_of_absent(items, k);
                    assert(false);
                }
                let i = choose|i: int| 0 <= i < items.len() && (#[trigger] items[i]).0 as int == k;
                assert forall|j2: int| i < j2 < items.len() implies (#[trigger] items[j2]).0
                    != items[i].0 by {
                    if items[j2].0 == items[i].0 {
                        assert(dup_at(items, j2));
                    }
                }
                lemma_items_leaves_at(items, i);
                assert(spec_items_leaves(items)[k as u64] == items[i].1.1);
                assert(leaves.contains_key(k as u64));
                assert(leaves[k as u64] == items[i].1.1);
                assert(spec_leaf_word(leaves, k) != spec_zero_word());
                assert(exists|j2: int|
                    0 <= j2 < vrecs.len() && (#[trigger] vrecs[j2]).0 as int == k);
                let j2 = choose|j2: int|
                    0 <= j2 < vrecs.len() && (#[trigger] vrecs[j2]).0 as int == k;
                assert(ditems[j2].0 as int == k);
                assert(false);
            }
        }
    }
    assert(spec_types_of(ditems) =~= types);

    // the decoded items rebuild the same leaf map
    lemma_items_leaves_keys(ditems);
    assert forall|k: u64| #[trigger] spec_items_leaves(ditems).contains_key(k) implies
        leaves.contains_key(k) && k != SLOT_TYPES_COMMITMENT_INDEX as u64 && leaves[k]
        == spec_items_leaves(ditems)[k] by {
        let j = choose|j: int| 0 <= j < ditems.len() && (#[trigger] ditems[j]).0 as u64 == k;
        assert(spec_leaf_word(leaves, vrecs[j].0 as int) != spec_zero_word());
        assert(leaves.contains_key(k));
        assert((vrecs[j].0 as int) < 255);
        assert forall|j2: int| j < j2 < ditems.len() implies (#[trigger] ditems[j2]).0
            != ditems[j].0 by {
            assert(vrecs[j].0 < vrecs[j2].0);
        }
        lemma_items_leaves_at(ditems, j);
        assert(spec_items_leaves(ditems)[k] == ditems[j].1.1);
        assert(ditems[j].1.1 == vrecs[j].1);
        assert(vrecs[j].1 == spec_leaf_word(leaves, vrecs[j].0 as int));
    }
    assert forall|k: u64|
        #[trigger] leaves.contains_key(k) && k != SLOT_TYPES_COMMITMENT_INDEX as u64 implies
        spec_items_leaves(ditems).contains_key(k) by {
        assert(spec_items_leaves(items).contains_key(k));
        let i = choose|i: int| 0 <= i < items.len() && (#[trigger] items[i]).0 as u64 == k;
        assert forall|j2: int| i < j2 < items.len() implies (#[trigger] items[j2]).0 != items[i].0
        by {
            if items[j2].0 == items[i].0 {
                assert(dup_at(items, j2));
            }
        }
        lemma_items_leaves_at(items, i);
        assert(leaves[k] == items[i].1.1);
        assert(items[i].1.1 != spec_zero_word());
        assert((k as int) < 255) by {
            assert(items[i].0 != SLOT_TYPES_COMMITMENT_INDEX);
        }
        assert(spec_leaf_word(leaves, k as int) != spec_zero_word());
        assert(exists|j2: int| 0 <= j2 < vrecs.len() && (#[trigger] vrecs[j2]).0 as int == k as int);
        let j2 = choose|j2: int|
            0 <= j2 < vrecs.len() && (#[trigger] vrecs[j2]).0 as int == k as int;
        assert(ditems[j2].0 as u64 == k);
    }
    assert(spec_types_commitment(spec_types_of(ditems)) == spec_types_commitment(types));
    assert(spec_storage_leaves(ditems) =~= leaves) by {
        assert forall|k: u64| #[trigger] spec_storage_leaves(ditems).contains_key(k) implies
            leaves.contains_key(k) && spec_storage_leaves(ditems)[k] == leaves[k] by {
            if k == SLOT_TYPES_COMMITMENT_INDEX as u64 {
                assert(leaves[k] == spec_types_commitment(types));
                assert(spec_storage_leaves(ditems)[k] == spec_types_commitment(
                    spec_types_of(ditems),
                ));
            } else {
                assert(spec_items_leaves(ditems).contains_key(k));
                assert(spec_storage_leaves(ditems)[k] == spec_items_leaves(ditems)[k]);
            }
        }
        assert forall|k: u64| #[trigger] leaves.contains_key(k) implies spec_storage_leaves(
            ditems,
        ).contains_key(k) by {
            if k != SLOT_TYPES_COMMITMENT_INDEX as u64 {
                assert(spec_items_leaves(ditems).contains_key(k));
            }
        }
    }
}

/// Appends all bytes of the buffer to the output.
pub(crate) fn push_bytes(out: &mut Vec<u8>, b: &Vec<u8>)
    ensures
        final(out)@ == old(out)@ + b@,
{
    for i in 0..b.len()
        invariant
            out@ == old(out)@ + b@.take(i as int),
        decreases b.len() - i,
    {
        out.push(b[i]);
        proof {
            assert(out@ =~= old(out)@ + b@.take(i + 1));
        }
    }
    proof {
        assert(old(out)@ + b@.take(b@.len() as int) =~= old(out)@ + b@);
    }
}

} // verus!
