//! Typed storage slots.
//!
//! Each of the 256 storage slots carries a type tag that defines the size
//! and structure of the slot's content: a scalar value, a sparse array, or
//! a key-value map. A slot type is encoded as a two-byte tag whose high
//! byte distinguishes the kind (0 for a value, 1 for a map, a tree depth
//! of 2 to 64 for an array) and whose low byte is the value arity.

use vstd::prelude::*;

verus! {

/// The type of a storage slot.
#[derive(Debug, Clone, Copy, PartialEq, Eq, Structural)]
pub enum StorageSlotType {
    /// A scalar occupying up to `2^value_arity` words; arity 0 is the
    /// default slot type.
    Value { value_arity: u8 },
    /// A key-to-value map whose entries occupy up to `2^value_arity` words.
    MapSlot { value_arity: u8 },
    /// A sparse array of `2^depth` entries, each occupying up to
    /// `2^value_arity` words; the depth is between 2 and 64.
    Array { depth: u8, value_arity: u8 },
}

/// High byte of the tag of a value slot.
pub const VALUE_KIND: u8 = 0;

/// High byte of the tag of a map slot.
pub const MAP_KIND: u8 = 1;

/// Smallest admissible array depth.
pub const MIN_ARRAY_DEPTH: u8 = 2;

/// Largest admissible array depth.
pub const MAX_ARRAY_DEPTH: u8 = 64;

/// A slot type is well formed when an array depth lies in its admissible
/// range; value and map slots admit any arity.
pub open spec fn slot_type_wf(t: StorageSlotType) -> bool {
    match t {
        StorageSlotType::Value { .. } => true,
        StorageSlotType::MapSlot { .. } => true,
        StorageSlotType::Array { depth, .. } => MIN_ARRAY_DEPTH <= depth <= MAX_ARRAY_DEPTH,
    }
}

/// The default slot type: a scalar of arity 0.
pub open spec fn spec_default_slot_type() -> StorageSlotType {
    StorageSlotType::Value { value_arity: 0 }
}

/// The two-byte tag of a slot type: high byte the kind (or array depth),
/// low byte the value arity.
pub open spec fn spec_slot_type_tag(t: StorageSlotType) -> u16 {
    match t {
        StorageSlotType::Value { value_arity } => ((VALUE_KIND as u16) * 256 + value_arity as u16) as u16,
        StorageSlotType::MapSlot { value_arity } => ((MAP_KIND as u16) * 256 + value_arity as u16) as u16,
        StorageSlotType::Array { depth, value_arity } => ((depth as u16) * 256
            + value_arity as u16) as u16,
    }
}

/// The slot type a two-byte tag decodes to, if any: tags whose high byte
/// is neither a kind marker nor an admissible array depth are rejected.
pub open spec fn spec_slot_type_from_tag(tag: u16) -> Option<StorageSlotType> {
    let hi = (tag / 256) as u8;
    let lo = (tag % 256) as u8;
    if hi == VALUE_KIND {
        Some(StorageSlotType::Value { value_arity: lo })
    } else if hi == MAP_KIND {
        Some(StorageSlotType::MapSlot { value_arity: lo })
    } else if MIN_ARRAY_DEPTH <= hi <= MAX_ARRAY_DEPTH {
        Some(StorageSlotType::Array { depth: hi, value_arity: lo })
    } else {
        None
    }
}

/// Law: decoding inverts encoding on every well-formed slot type.
pub proof fn lemma_slot_type_tag_round_trip(t: StorageSlotType)
    requires
        slot_type_wf(t),
    ensures
        spec_slot_type_from_tag(spec_slot_type_tag(t)) == Some(t),
{
    let tag = spec_slot_type_tag(t);
    match t {
        StorageSlotType::Value { value_arity } => {
            assert(tag / 256 == 0 && tag % 256 == value_arity) by (nonlinear_arith)
                requires
                    tag == value_arity as u16,
                    value_arity < 256,
            ;
        },
        StorageSlotType::MapSlot { value_arity } => {
            assert(tag / 256 == 1 && tag % 256 == value_arity) by (nonlinear_arith)
                requires
                    tag == 256 + value_arity as u16,
                    value_arity < 256,
            ;
        },
        StorageSlotType::Array { depth, value_arity } => {
            assert(tag / 256 == depth && tag % 256 == value_arity) by (nonlinear_arith)
                requires
                    tag == (depth as u16) * 256 + value_arity as u16,
                    value_arity < 256,
                    2 <= depth <= 64,
            ;
        },
    }
}

impl StorageSlotType {
    /// Returns the two-byte tag of this slot type.
    pub fn tag(&self) -> (r: u16)
        ensures
            r == spec_slot_type_tag(*self),
    {
        match *self {
            StorageSlotType::Value { value_arity } => value_arity as u16,
            StorageSlotType::MapSlot { value_arity } => 256u16 + value_arity as u16,
            StorageSlotType::Array { depth, value_arity } => (depth as u16) * 256
                + value_arity as u16,
        }
    }

    /// Returns the slot type encoded by the given two-byte tag, or `None`
    /// for a malformed tag.
    pub fn from_tag(tag: u16) -> (r: Option<StorageSlotType>)
        ensures
            r == spec_slot_type_from_tag(tag),
            r matches Some(t) ==> slot_type_wf(t),
    {
        let hi = (tag / 256) as u8;
        let lo = (tag % 256) as u8;
        if hi == VALUE_KIND {
            Some(StorageSlotType::Value { value_arity: lo })
        } else if hi == MAP_KIND {
            Some(StorageSlotType::MapSlot { value_arity: lo })
        } else if MIN_ARRAY_DEPTH <= hi && hi <= MAX_ARRAY_DEPTH {
            Some(StorageSlotType::Array { depth: hi, value_arity: lo })
        } else {
            None
        }
    }

    /// Returns true iff this is the default slot type.
    pub fn is_default(&self) -> (r: bool)
        ensures
            r == (*self == spec_default_slot_type()),
    {
        match *self {
            StorageSlotType::Value { value_arity } => value_arity == 0,
            _ => false,
        }
    }
}

impl Default for StorageSlotType {
    /// Returns the default slot type: a scalar of arity 0.
    fn default() -> (r: Self)
        ensures
            r == spec_default_slot_type(),
    {
        StorageSlotType::Value { value_arity: 0 }
    }
}

/// The field elements committing to a sequence of slot types: each type's
/// tag widened to a field element.
pub open spec fn slot_types_elements(types: Seq<StorageSlotType>) -> Seq<u64> {
    types.map_values(|t: StorageSlotType| spec_slot_type_tag(t) as u64)
}

/// Returns the element sequence committing to the given slot types.
pub fn slot_types_to_elements(types: &Vec<StorageSlotType>) -> (r: Vec<u64>)
    ensures
        r@ == slot_types_elements(types@),
{
    let mut out: Vec<u64> = Vec::new();
    for i in 0..types.len()
        invariant
            out@ == slot_types_elements(types@.take(i as int)),
        decreases types.len() - i,
    {
        out.push(types[i].tag() as u64);
        proof {
            assert(out@ =~= slot_types_elements(types@.take(i + 1)));
        }
    }
    proof {
        assert(types@.take(types@.len() as int) =~= types@);
        assert(slot_types_elements(types@.take(types@.len() as int)) =~= slot_types_elements(
            types@,
        ));
    }
    out
}

} // verus!
