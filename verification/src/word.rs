//! Field elements, words and digests.
//!
//! All commitments in this crate are built from 4-element words over the
//! 64-bit prime field with modulus `2^64 - 2^32 + 1`. A field element is
//! modeled as a `u64` in canonical (reduced) form; a word is four of them.

use vstd::prelude::*;

verus! {

/// Modulus of the 64-bit prime field: `2^64 - 2^32 + 1`.
pub const FELT_MODULUS: u64 = 0xFFFF_FFFF_0000_0001;

/// A word: four field elements. Leaf values of the storage tree and the
/// material hashed into every commitment are words.
pub type Word = [u64; 4];

/// A `u64` is a valid field element when it is in canonical (reduced) form.
pub open spec fn felt_valid(x: u64) -> bool {
    x < FELT_MODULUS
}

/// All four elements of a word are canonical field elements.
pub open spec fn word_wf(w: Word) -> bool {
    felt_valid(w[0]) && felt_valid(w[1]) && felt_valid(w[2]) && felt_valid(w[3])
}

/// The all-zero word: the default value of an untouched storage slot.
pub open spec fn spec_zero_word() -> Word {
    [0u64, 0u64, 0u64, 0u64]
}

/// Returns the all-zero word.
pub fn zero_word() -> (r: Word)
    ensures
        r == spec_zero_word(),
{
    [0u64, 0u64, 0u64, 0u64]
}

/// Returns true iff the two words are equal element for element.
pub fn word_eq(a: &Word, b: &Word) -> (r: bool)
    ensures
        r == (*a == *b),
{
    let r = a[0] == b[0] && a[1] == b[1] && a[2] == b[2] && a[3] == b[3];
    proof {
        if r {
            assert(*a =~= *b);
        }
    }
    r
}

/// A digest: the 4-element output of the hash function, standing in for a
/// Merkle node, a content address or a procedure identity. Equality of
/// digests is exact equality of the four elements.
#[derive(Debug, Clone, Copy)]
pub struct Digest(pub Word);

impl Digest {
    /// All four elements of the digest are canonical field elements.
    pub open spec fn wf(&self) -> bool {
        word_wf(self.0)
    }

    /// Returns the elements of this digest.
    pub fn as_elements(&self) -> (r: &Word)
        ensures
            *r == self.0,
    {
        &self.0
    }

    /// Returns the digest as a word.
    pub fn as_word(&self) -> (r: Word)
        ensures
            r == self.0,
    {
        self.0
    }
}

impl PartialEq for Digest {
    fn eq(&self, other: &Digest) -> (r: bool) {
        word_eq(&self.0, &other.0)
    }
}

impl Eq for Digest {

}

impl vstd::std_specs::cmp::PartialEqSpecImpl for Digest {
    open spec fn obeys_eq_spec() -> bool {
        true
    }

    open spec fn eq_spec(&self, other: &Digest) -> bool {
        self.0 == other.0
    }
}

} // verus!
