//! Account storage: 256 index-addressable, typed storage slots backed by a
//! depth-8 sparse Merkle tree.
//!
//! Slot 255 is reserved: it always holds the hash commitment to the full
//! slot-type table, recomputed at construction and never assignable by
//! callers. The tree root is the storage commitment exposed to the
//! execution engine.

use vstd::prelude::*;
use vstd::std_specs::cmp::PartialEqSpec;
use miden_crypto::merkle::SimpleSmt;
use crate::error::AccountError;
use crate::hasher::{hash_elements, rpo_hash};
use crate::slot::{
    slot_type_wf, slot_types_elements, slot_types_to_elements, spec_default_slot_type,
    StorageSlotType,
};
use crate::smt::{
    entries_map, smt_depth, smt_get_leaf, smt_leaves, smt_root, smt_root_of, smt_update_leaf,
    smt_with_entries,
};
use crate::word::{spec_zero_word, word_wf, Digest, Word};

verus! {

/// A single storage slot entry: the type of the slot and its value.
pub type StorageSlot = (StorageSlotType, Word);

/// A single storage slot item: the slot index and its entry.
pub type SlotItem = (u8, StorageSlot);

/// Depth of the storage tree.
pub const STORAGE_TREE_DEPTH: u8 = 8;

/// The slot at which the commitment to the slot types is stored.
pub const SLOT_TYPES_COMMITMENT_INDEX: u8 = 255;

/// The type of the reserved slot: a scalar wide enough for the full
/// type-table commitment.
pub open spec fn spec_reserved_slot_type() -> StorageSlotType {
    StorageSlotType::Value { value_arity: 64 }
}

/// The type table before any item is applied: every slot defaulted, the
/// reserved slot typed for the commitment it holds.
pub open spec fn spec_base_types() -> Seq<StorageSlotType> {
    Seq::new(
        256,
        |i: int|
            if i == SLOT_TYPES_COMMITMENT_INDEX as int {
                spec_reserved_slot_type()
            } else {
                spec_default_slot_type()
            },
    )
}

/// The 256-entry type table built from the given items: each item sets
/// the type of its slot, every unmentioned slot keeps the default type.
pub open spec fn spec_types_of(items: Seq<SlotItem>) -> Seq<StorageSlotType>
    decreases items.len(),
{
    if items.len() == 0 {
        spec_base_types()
    } else {
        spec_types_of(items.drop_last()).update(items.last().0 as int, items.last().1.0)
    }
}

/// The commitment to a slot-type table: the hash of its element encoding.
pub open spec fn spec_types_commitment(types: Seq<StorageSlotType>) -> Word {
    rpo_hash(slot_types_elements(types))
}

/// The leaf map written by the given items alone: each item's value at
/// its index, later items overwriting earlier ones.
pub open spec fn spec_items_leaves(items: Seq<SlotItem>) -> Map<u64, Word>
    decreases items.len(),
{
    if items.len() == 0 {
        Map::<u64, Word>::empty()
    } else {
        spec_items_leaves(items.drop_last()).insert(
            items.last().0 as u64,
            items.last().1.1,
        )
    }
}

/// The full leaf map of a storage built from the given items: the items'
/// values plus the type-table commitment at the reserved slot.
pub open spec fn spec_storage_leaves(items: Seq<SlotItem>) -> Map<u64, Word> {
    spec_items_leaves(items).insert(
        SLOT_TYPES_COMMITMENT_INDEX as u64,
        spec_types_commitment(spec_types_of(items)),
    )
}

/// Every item carries a well-formed slot type and a canonical word.
pub open spec fn items_wf(items: Seq<SlotItem>) -> bool {
    forall|i: int|
        0 <= i < items.len() ==> slot_type_wf((#[trigger] items[i]).1.0) && word_wf(items[i].1.1)
}

/// Some item addresses the reserved slot.
pub open spec fn has_reserved_index(items: Seq<SlotItem>) -> bool {
    exists|i: int| 0 <= i < items.len() && (#[trigger] items[i]).0 == SLOT_TYPES_COMMITMENT_INDEX
}

/// The item at position `j` repeats the index of an earlier item.
pub open spec fn dup_at(items: Seq<SlotItem>, j: int) -> bool {
    exists|i: int| 0 <= i < j && (#[trigger] items[i]).0 == items[j].0
}

/// Two items share a slot index.
pub open spec fn has_duplicate(items: Seq<SlotItem>) -> bool {
    exists|j: int| 0 <= j < items.len() && dup_at(items, j)
}

/// Number of `true` cells in a boolean sequence.
pub open spec fn count_true(s: Seq<bool>) -> int
    decreases s.len(),
{
    if s.len() == 0 {
        0
    } else {
        count_true(s.drop_last()) + if s.last() {
            1int
        } else {
            0int
        }
    }
}

proof fn lemma_count_true_update(s: Seq<bool>, i: int)
    requires
        0 <= i < s.len(),
        !s[i],
    ensures
        count_true(s.update(i, true)) == count_true(s) + 1,
    decreases s.len(),
{
    if i == s.len() - 1 {
        assert(s.update(i, true).drop_last() =~= s.drop_last());
    } else {
        assert(s.update(i, true).drop_last() =~= s.drop_last().update(i, true));
        lemma_count_true_update(s.drop_last(), i);
    }
}

proof fn lemma_count_true_bound(s: Seq<bool>, i: int)
    requires
        0 <= i < s.len(),
        !s[i],
    ensures
        count_true(s) <= s.len() - 1,
    decreases s.len(),
{
    if i == s.len() - 1 {
        lemma_count_true_le(s.drop_last());
    } else {
        lemma_count_true_bound(s.drop_last(), i);
    }
}

proof fn lemma_count_true_le(s: Seq<bool>)
    ensures
        count_true(s) <= s.len(),
    decreases s.len(),
{
    if s.len() > 0 {
        lemma_count_true_le(s.drop_last());
    }
}

/// The leaf map of a sequence of items: its keys are exactly the items'
/// indices, and each key's value is canonical when the items are.
pub proof fn lemma_items_leaves_keys(items: Seq<SlotItem>)
    ensures
        forall|k: u64|
            spec_items_leaves(items).contains_key(k) <==> exists|i: int|
                0 <= i < items.len() && (#[trigger] items[i]).0 as u64 == k,
        items_wf(items) ==> forall|k: u64|
            #[trigger] spec_items_leaves(items).contains_key(k) ==> word_wf(
                spec_items_leaves(items)[k],
            ),
    decreases items.len(),
{
    if items.len() > 0 {
        lemma_items_leaves_keys(items.drop_last());
        assert(forall|i: int|
            0 <= i < items.drop_last().len() ==> #[trigger] items.drop_last()[i] == items[i]);
        assert forall|k: u64| spec_items_leaves(items).contains_key(k) implies exists|i: int|
            0 <= i < items.len() && (#[trigger] items[i]).0 as u64 == k by {
            if k == items.last().0 as u64 {
                assert(items[items.len() - 1].0 as u64 == k);
            } else {
                assert(spec_items_leaves(items.drop_last()).contains_key(k));
                let i = choose|i: int|
                    0 <= i < items.drop_last().len() && (#[trigger] items.drop_last()[i]).0
                        as u64 == k;
                assert(items[i].0 as u64 == k);
            }
        }
        assert forall|k: u64|
            (exists|i: int| 0 <= i < items.len() && (#[trigger] items[i]).0 as u64 == k) implies
            spec_items_leaves(items).contains_key(k) by {
            let i = choose|i: int| 0 <= i < items.len() && (#[trigger] items[i]).0 as u64 == k;
            if i < items.len() - 1 {
                assert(items.drop_last()[i].0 as u64 == k);
                assert(spec_items_leaves(items.drop_last()).contains_key(k));
            }
        }
        if items_wf(items) {
            assert(items_wf(items.drop_last()));
            assert forall|k: u64| #[trigger] spec_items_leaves(items).contains_key(k) implies
                word_wf(spec_items_leaves(items)[k]) by {
                if k == items.last().0 as u64 {
                    assert(word_wf(items[items.len() - 1].1.1));
                } else {
                    assert(spec_items_leaves(items)[k] == spec_items_leaves(items.drop_last())[k]);
                }
            }
        }
    }
}

/// The type table built from well-formed items that avoid the reserved
/// slot: 256 well-formed entries with the reserved slot's fixed type.
pub proof fn lemma_types_of_props(items: Seq<SlotItem>)
    requires
        items_wf(items),
        !has_reserved_index(items),
    ensures
        spec_types_of(items).len() == 256,
        spec_types_of(items)[SLOT_TYPES_COMMITMENT_INDEX as int] == spec_reserved_slot_type(),
        forall|i: int| 0 <= i < 256 ==> slot_type_wf(#[trigger] spec_types_of(items)[i]),
    decreases items.len(),
{
    if items.len() > 0 {
        assert(items_wf(items.drop_last())) by {
            assert(forall|i: int|
                0 <= i < items.drop_last().len() ==> items.drop_last()[i] == items[i]);
        }
        assert(!has_reserved_index(items.drop_last())) by {
            assert(forall|i: int|
                0 <= i < items.drop_last().len() ==> items.drop_last()[i] == items[i]);
        }
        lemma_types_of_props(items.drop_last());
        assert(items[items.len() - 1].0 != SLOT_TYPES_COMMITMENT_INDEX);
        assert(slot_type_wf(items[items.len() - 1].1.0));
    }
}

/// The type table of any item list has 256 entries.
pub proof fn lemma_types_of_len(items: Seq<SlotItem>)
    ensures
        spec_types_of(items).len() == 256,
    decreases items.len(),
{
    if items.len() > 0 {
        lemma_types_of_len(items.drop_last());
    }
}

/// An item whose index no later item repeats sets the type of its slot.
pub proof fn lemma_types_of_at(items: Seq<SlotItem>, i: int)
    requires
        0 <= i < items.len(),
        forall|j: int| i < j < items.len() ==> (#[trigger] items[j]).0 != items[i].0,
    ensures
        spec_types_of(items)[items[i].0 as int] == items[i].1.0,
    decreases items.len(),
{
    lemma_types_of_len(items.drop_last());
    if i == items.len() - 1 {
    } else {
        lemma_types_of_at(items.drop_last(), i);
    }
}

/// A slot no item addresses keeps its base type.
pub proof fn lemma_types_of_absent(items: Seq<SlotItem>, k: int)
    requires
        0 <= k < 256,
        forall|i: int| 0 <= i < items.len() ==> (#[trigger] items[i]).0 as int != k,
    ensures
        spec_types_of(items)[k] == spec_base_types()[k],
    decreases items.len(),
{
    if items.len() > 0 {
        assert(forall|i: int|
            0 <= i < items.drop_last().len() ==> #[trigger] items.drop_last()[i] == items[i]);
        lemma_types_of_absent(items.drop_last(), k);
        lemma_types_of_len(items.drop_last());
        assert(items[items.len() - 1].0 as int != k);
    }
}

/// In a duplicate-free item list the leaf map holds each item's value at
/// its index.
pub proof fn lemma_items_leaves_at(items: Seq<SlotItem>, i: int)
    requires
        0 <= i < items.len(),
        forall|j: int| i < j < items.len() ==> (#[trigger] items[j]).0 != items[i].0,
    ensures
        spec_items_leaves(items).contains_key(items[i].0 as u64),
        spec_items_leaves(items)[items[i].0 as u64] == items[i].1.1,
    decreases items.len(),
{
    if i == items.len() - 1 {
    } else {
        lemma_items_leaves_at(items.drop_last(), i);
    }
}

/// Account storage: a depth-8 sparse Merkle tree of 256 slot values and
/// the index-aligned table of 256 slot types.
#[derive(Debug)]
pub struct AccountStorage {
    slots: SimpleSmt,
    types: Vec<StorageSlotType>,
}

impl AccountStorage {
    /// The map of explicitly written slot values.
    pub closed spec fn leaves(&self) -> Map<u64, Word> {
        smt_leaves(self.slots)
    }

    /// The 256-entry slot-type table.
    pub closed spec fn types_seq(&self) -> Seq<StorageSlotType> {
        self.types@
    }

    /// The standing invariant of account storage: the tree has depth 8
    /// and holds canonical words at indices below 256; the type table has
    /// 256 well-formed entries with the reserved slot typed for the
    /// commitment; and the reserved slot's leaf is always the commitment
    /// to the type table.
    pub closed spec fn wf(&self) -> bool {
        &&& smt_depth(self.slots) == STORAGE_TREE_DEPTH
        &&& self.types@.len() == 256
        &&& self.types@[SLOT_TYPES_COMMITMENT_INDEX as int] == spec_reserved_slot_type()
        &&& (forall|i: int| 0 <= i < 256 ==> slot_type_wf(#[trigger] self.types@[i]))
        &&& (forall|k: u64|
            #[trigger] self.leaves().contains_key(k) ==> k < 256 && word_wf(self.leaves()[k]))
        &&& self.leaves().contains_key(SLOT_TYPES_COMMITMENT_INDEX as u64)
        &&& self.leaves()[SLOT_TYPES_COMMITMENT_INDEX as u64] == spec_types_commitment(
            self.types@,
        )
    }

    /// The storage commitment: the root of the slot tree.
    pub closed spec fn spec_root(&self) -> Word {
        smt_root_of(STORAGE_TREE_DEPTH, self.leaves())
    }

    /// The value of the slot at the given index: the written word, or the
    /// zero word for an untouched slot.
    pub closed spec fn spec_get_item(&self, index: u8) -> Word {
        if self.leaves().contains_key(index as u64) {
            self.leaves()[index as u64]
        } else {
            spec_zero_word()
        }
    }

    /// Returns a new instance of account storage initialized with the
    /// provided items.
    ///
    /// Fails with `StorageSlotIsReserved` when any item addresses slot
    /// 255, and otherwise with `DuplicateStorageItems` (carrying the
    /// first repeated index) when two items share an index. On success
    /// the storage holds each item's value under its index and type, the
    /// default type at unmentioned slots, and the recomputed type-table
    /// commitment at slot 255.
    pub fn new(items: Vec<SlotItem>) -> (r: Result<AccountStorage, AccountError>)
        requires
            items_wf(items@),
        ensures
            has_reserved_index(items@) <==> r == Result::<AccountStorage, AccountError>::Err(
                AccountError::StorageSlotIsReserved(SLOT_TYPES_COMMITMENT_INDEX),
            ),
            !has_reserved_index(items@) && has_duplicate(items@) <==> (exists|j: int|
                0 <= j < items@.len() && dup_at(items@, j) && (forall|j2: int|
                    0 <= j2 < j ==> !dup_at(items@, j2)) && r
                    == Result::<AccountStorage, AccountError>::Err(
                    AccountError::DuplicateStorageItems((#[trigger] items@[j]).0),
                )),
            r matches Ok(st) ==> {
                &&& !has_reserved_index(items@)
                &&& !has_duplicate(items@)
                &&& st.wf()
                &&& st.types_seq() == spec_types_of(items@)
                &&& st.leaves() == spec_storage_leaves(items@)
            },
            !has_reserved_index(items@) && !has_duplicate(items@) ==> r is Ok,
    {
        // reject any item addressing the reserved slot
        for j in 0..items.len()
            invariant
                forall|i: int|
                    0 <= i < j ==> (#[trigger] items@[i]).0 != SLOT_TYPES_COMMITMENT_INDEX,
            decreases items.len() - j,
        {
            if items[j].0 == SLOT_TYPES_COMMITMENT_INDEX {
                return Err(AccountError::StorageSlotIsReserved(SLOT_TYPES_COMMITMENT_INDEX));
            }
        }
        assert(!has_reserved_index(items@));

        // reject the first repeated index
        let mut seen: Vec<bool> = Vec::new();
        for i in 0..256
            invariant
                seen@.len() == i,
                forall|k: int| 0 <= k < i ==> !(#[trigger] seen@[k]),
            decreases 256 - i,
        {
            seen.push(false);
        }
        proof {
            assert(count_true(seen@) == 0) by {
                lemma_count_zero_for_all_false(seen@);
            }
        }
        for j in 0..items.len()
            invariant
                seen@.len() == 256,
                forall|k: int|
                    0 <= k < 256 ==> (seen@[k] <==> exists|i: int|
                        0 <= i < j && (#[trigger] items@[i]).0 as int == k),
                forall|j2: int| 0 <= j2 < j ==> !dup_at(items@, j2),
                forall|i: int|
                    0 <= i < items@.len() ==> (#[trigger] items@[i]).0
                        != SLOT_TYPES_COMMITMENT_INDEX,
                count_true(seen@) == j,
            decreases items.len() - j,
        {
            let idx = items[j].0;
            if seen[idx as usize] {
                proof {
                    assert(dup_at(items@, j as int));
                }
                return Err(AccountError::DuplicateStorageItems(idx));
            }
            proof {
                assert(!seen@[255]);
                lemma_count_true_bound(seen@, 255);
                lemma_count_true_update(seen@, idx as int);
            }
            seen.set(idx as usize, true);
            proof {
                assert forall|k: int|
                    0 <= k < 256 implies (seen@[k] <==> exists|i: int|
                    0 <= i < j + 1 && (#[trigger] items@[i]).0 as int == k) by {
                    if k == idx as int {
                        assert(items@[j as int].0 as int == k);
                    } else {
                        assert(seen@[k] <==> exists|i: int|
                            0 <= i < j && (#[trigger] items@[i]).0 as int == k);
                    }
                }
            }
        }
        assert(!has_duplicate(items@));
        proof {
            assert(!seen@[255]);
            lemma_count_true_bound(seen@, 255);
        }
        assert(items@.len() <= 255);

        // build the type table: defaults, the reserved type, then each item
        let mut types: Vec<StorageSlotType> = Vec::new();
        for i in 0..256
            invariant
                types@ == spec_base_types().take(i as int),
            decreases 256 - i,
        {
            if i == SLOT_TYPES_COMMITMENT_INDEX as usize {
                types.push(StorageSlotType::Value { value_arity: 64 });
            } else {
                types.push(StorageSlotType::Value { value_arity: 0 });
            }
            proof {
                assert(types@ =~= spec_base_types().take(i + 1));
            }
        }
        proof {
            assert(types@ =~= spec_base_types());
            assert(spec_types_of(items@.take(0)) =~= spec_base_types());
        }
        for j in 0..items.len()
            invariant
                types@.len() == 256,
                types@ == spec_types_of(items@.take(j as int)),
                items_wf(items@),
                forall|i: int|
                    0 <= i < items@.len() ==> (#[trigger] items@[i]).0
                        != SLOT_TYPES_COMMITMENT_INDEX,
            decreases items.len() - j,
        {
            types.set(items[j].0 as usize, items[j].1.0);
            proof {
                assert(items@.take(j + 1).drop_last() =~= items@.take(j as int));
                assert(types@ =~= spec_types_of(items@.take(j + 1)));
            }
        }
        proof {
            assert(items@.take(items@.len() as int) =~= items@);
        }

        // assemble the leaf entries: each item's value, then the
        // recomputed type-table commitment at the reserved slot
        let mut entries: Vec<(u64, Word)> = Vec::new();
        for j in 0..items.len()
            invariant
                entries@.len() == j,
                items_wf(items@),
                forall|i: int| 0 <= i < j ==> (#[trigger] entries@[i]).0 == items@[i].0 as u64,
                forall|i: int| 0 <= i < j ==> word_wf((#[trigger] entries@[i]).1),
                entries_map(entries@) == spec_items_leaves(items@.take(j as int)),
            decreases items.len() - j,
        {
            let ghost prev = entries@;
            entries.push((items[j].0 as u64, items[j].1.1));
            proof {
                assert(entries@.drop_last() =~= prev);
                assert(items@.take(j + 1).drop_last() =~= items@.take(j as int));
            }
        }
        proof {
            assert(items@.take(items@.len() as int) =~= items@);
        }
        let elements = slot_types_to_elements(&types);
        let commitment = hash_elements(&elements);
        let ghost items_entries = entries@;
        entries.push((SLOT_TYPES_COMMITMENT_INDEX as u64, commitment.0));
        proof {
            assert(entries@.drop_last() =~= items_entries);
            assert(entries_map(entries@) == spec_storage_leaves(items@));
            assert forall|i: int, j2: int| 0 <= i < j2 < entries@.len() implies (
            #[trigger] entries@[i]).0 != (#[trigger] entries@[j2]).0 by {
                if j2 < entries@.len() - 1 {
                    assert(!dup_at(items@, j2));
                    assert(items@[i].0 != items@[j2].0);
                }
            }
        }
        let slots = smt_with_entries(&entries);
        let st = AccountStorage { slots, types };
        proof {
            lemma_items_leaves_keys(items@);
            lemma_types_of_props(items@);
            assert(st.wf()) by {
                assert(st.leaves() == spec_storage_leaves(items@));
                assert forall|k: u64| #[trigger] st.leaves().contains_key(k) implies k < 256
                    && word_wf(st.leaves()[k]) by {
                    if k != SLOT_TYPES_COMMITMENT_INDEX as u64 {
                        assert(spec_items_leaves(items@).contains_key(k));
                        assert(st.leaves()[k] == spec_items_leaves(items@)[k]);
                    }
                }
            };
        }
        Ok(st)
    }

    /// Returns a commitment to this storage: the root of the slot tree.
    /// The root changes only when a leaf changes.
    pub fn root(&self) -> (r: Digest)
        requires
            self.wf(),
        ensures
            r.0 == self.spec_root(),
            r.wf(),
    {
        smt_root(&self.slots)
    }

    /// Returns an item from the storage at the specified index.
    ///
    /// If the item is not present in the storage, the zero word is
    /// returned; the call never fails since every byte index is in range.
    pub fn get_item(&self, index: u8) -> (r: Digest)
        requires
            self.wf(),
        ensures
            r.0 == self.spec_get_item(index),
            r.wf(),
    {
        let r = smt_get_leaf(&self.slots, index);
        proof {
            if self.leaves().contains_key(index as u64) {
                assert(word_wf(self.leaves()[index as u64]));
            }
        }
        r
    }

    /// Returns a reference to the sparse Merkle tree that backs the
    /// storage slots.
    pub fn slots(&self) -> (r: &SimpleSmt)
        requires
            self.wf(),
        ensures
            smt_leaves(*r) == self.leaves(),
            smt_depth(*r) == STORAGE_TREE_DEPTH,
    {
        &self.slots
    }

    /// Returns the slot types of this storage.
    pub fn slot_types(&self) -> (r: &Vec<StorageSlotType>)
        ensures
            r@ == self.types_seq(),
    {
        &self.types
    }

    /// Returns a commitment to the storage slot types. By the standing
    /// invariant this is always the value stored at the reserved slot.
    pub fn slot_types_commitment(&self) -> (r: Digest)
        requires
            self.wf(),
        ensures
            r.0 == spec_types_commitment(self.types_seq()),
            r.wf(),
    {
        let elements = slot_types_to_elements(&self.types);
        hash_elements(&elements)
    }

    /// Sets an item in the storage at the specified index and returns the
    /// previous value of the slot. The reserved slot may never be
    /// assigned; the slot's type is not changed. Writing a slot's current
    /// value back leaves the storage commitment unchanged.
    pub fn set_item(&mut self, index: u8, value: Word) -> (r: Word)
        requires
            old(self).wf(),
            index != SLOT_TYPES_COMMITMENT_INDEX,
            word_wf(value),
        ensures
            final(self).wf(),
            final(self).leaves() == old(self).leaves().insert(index as u64, value),
            final(self).types_seq() == old(self).types_seq(),
            r == old(self).spec_get_item(index),
            value == old(self).spec_get_item(index) ==> final(self).spec_root() == old(
                self,
            ).spec_root(),
    {
        let r = smt_update_leaf(&mut self.slots, index, value);
        proof {
            lemma_leaves_wf_insert(old(self).leaves(), index, value);
            assert(self.leaves() == old(self).leaves().insert(index as u64, value));
            assert(self.leaves()[SLOT_TYPES_COMMITMENT_INDEX as u64] == old(self).leaves()[
                SLOT_TYPES_COMMITMENT_INDEX as u64]);
            if value == old(self).spec_get_item(index) {
                if old(self).leaves().contains_key(index as u64) {
                    // rewriting a written slot with its current value
                    // leaves the leaf map, and with it the root, unchanged
                    assert(self.leaves() =~= old(self).leaves());
                }
                // otherwise the value is the zero word and the wrapper
                // guarantees the root of the tree did not move
            }
        }
        r
    }
}

/// Inserting a canonical word at a byte index preserves the bounds and
/// canonicity of every leaf.
proof fn lemma_leaves_wf_insert(m: Map<u64, Word>, index: u8, value: Word)
    requires
        forall|k: u64| #[trigger] m.contains_key(k) ==> k < 256 && word_wf(m[k]),
        word_wf(value),
    ensures
        forall|k: u64|
            #[trigger] m.insert(index as u64, value).contains_key(k) ==> k < 256 && word_wf(
                m.insert(index as u64, value)[k],
            ),
{
    assert forall|k: u64| #[trigger] m.insert(index as u64, value).contains_key(k) implies k < 256
        && word_wf(m.insert(index as u64, value)[k]) by {
        if k != index as u64 {
            assert(m.contains_key(k));
            assert(m.insert(index as u64, value)[k] == m[k]);
        } else {
            assert(m.insert(index as u64, value)[k] == value);
        }
    }
}

proof fn lemma_count_zero_for_all_false(s: Seq<bool>)
    requires
        forall|k: int| 0 <= k < s.len() ==> !(#[trigger] s[k]),
    ensures
        count_true(s) == 0,
    decreases s.len(),
{
    if s.len() > 0 {
        lemma_count_zero_for_all_false(s.drop_last());
    }
}

impl PartialEq for AccountStorage {
    /// Two storages are equal when they commit to the same state: equal
    /// slot-type tables and equal tree roots. Root equality stands in for
    /// leaf-map equality up to collision resistance of the hash.
    fn eq(&self, other: &AccountStorage) -> (r: bool) {
        if self.types.len() != other.types.len() {
            return false;
        }
        for i in 0..self.types.len()
            invariant
                self.types@.len() == other.types@.len(),
                forall|k: int| 0 <= k < i ==> self.types@[k] == other.types@[k],
            decreases self.types.len() - i,
        {
            if !(self.types[i] == other.types[i]) {
                return false;
            }
        }
        proof {
            assert(self.types@ =~= other.types@);
        }
        let self_root = smt_root(&self.slots);
        let other_root = smt_root(&other.slots);
        crate::word::word_eq(&self_root.0, &other_root.0)
    }
}

impl Eq for AccountStorage {

}

impl vstd::std_specs::cmp::PartialEqSpecImpl for AccountStorage {
    open spec fn obeys_eq_spec() -> bool {
        true
    }

    closed spec fn eq_spec(&self, other: &AccountStorage) -> bool {
        self.types@ == other.types@ && smt_root_of(smt_depth(self.slots), smt_leaves(self.slots))
            == smt_root_of(smt_depth(other.slots), smt_leaves(other.slots))
    }
}

/// What `==` on storages means, over the public view: equal type tables
/// and equal root commitments.
pub proof fn lemma_storage_eq_spec(a: AccountStorage, b: AccountStorage)
    requires
        a.wf(),
        b.wf(),
    ensures
        a.eq_spec(&b) <==> (a.types_seq() == b.types_seq() && a.spec_root() == b.spec_root()),
{
}

/// What the standing invariant guarantees, stated over the public view:
/// a 256-entry well-formed type table with the reserved slot's fixed
/// type, and a leaf map of canonical words at byte indices that always
/// holds the type-table commitment at the reserved slot.
pub proof fn lemma_storage_wf_properties(st: AccountStorage)
    requires
        st.wf(),
    ensures
        st.types_seq().len() == 256,
        st.types_seq()[SLOT_TYPES_COMMITMENT_INDEX as int] == spec_reserved_slot_type(),
        forall|i: int| 0 <= i < 256 ==> slot_type_wf(#[trigger] st.types_seq()[i]),
        forall|k: u64|
            #[trigger] st.leaves().contains_key(k) ==> k < 256 && word_wf(st.leaves()[k]),
        st.leaves().contains_key(SLOT_TYPES_COMMITMENT_INDEX as u64),
        st.leaves()[SLOT_TYPES_COMMITMENT_INDEX as u64] == spec_types_commitment(st.types_seq()),
        st.spec_root() == smt_root_of(STORAGE_TREE_DEPTH, st.leaves()),
        forall|index: u8| st.spec_get_item(index) == spec_leaf_word(st.leaves(), index as int),
{
    assert forall|index: u8| st.spec_get_item(index) == spec_leaf_word(
        st.leaves(),
        index as int,
    ) by {
        assert(st.spec_get_item(index) == if st.leaves().contains_key(index as u64) {
            st.leaves()[index as u64]
        } else {
            spec_zero_word()
        });
    }
}

/// The word a leaf map holds at an index: the written word, or the zero
/// word for an untouched leaf.
pub open spec fn spec_leaf_word(leaves: Map<u64, Word>, k: int) -> Word {
    if leaves.contains_key(k as u64) {
        leaves[k as u64]
    } else {
        spec_zero_word()
    }
}

/// Law: the reserved slot always reads back the commitment to the slot
/// types — for every storage satisfying the standing invariant, which
/// construction establishes and every mutation preserves.
pub proof fn lemma_reserved_slot_integrity(st: AccountStorage)
    requires
        st.wf(),
    ensures
        st.spec_get_item(SLOT_TYPES_COMMITMENT_INDEX) == spec_types_commitment(st.types_seq()),
{
}

} // verus!
