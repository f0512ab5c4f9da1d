//! Trusted view of the sparse Merkle tree that backs the storage slots.
//!
//! The tree is an outside structure; this module gives it a mathematical
//! face: [`smt_leaves`] names the map of explicitly written leaves,
//! [`smt_depth`] the depth the tree was built with, and [`smt_root_of`]
//! the root commitment as a function of both. Every other module reasons
//! about the tree only through these names and the wrappers below.

use vstd::prelude::*;
use miden_crypto::merkle::{NodeIndex, SimpleSmt};
use miden_crypto::{Felt, StarkField};
use crate::word::{word_wf, Digest, Word};

verus! {

#[verifier::external_type_specification]
#[verifier::external_body]
pub struct ExSimpleSmt(SimpleSmt);

/// The map of leaves explicitly written into the tree. A key absent from
/// the map denotes an untouched leaf, whose value is the zero word.
pub uninterp spec fn smt_leaves(s: SimpleSmt) -> Map<u64, Word>;

/// The depth the tree was built with.
pub uninterp spec fn smt_depth(s: SimpleSmt) -> u8;

/// The root commitment of a tree of the given depth holding the given
/// leaves; the root is a deterministic function of both.
pub uninterp spec fn smt_root_of(depth: u8, leaves: Map<u64, Word>) -> Word;

/// The leaf map denoted by a list of (index, value) entries: each entry
/// written in order over an initially empty tree.
pub open spec fn entries_map(entries: Seq<(u64, Word)>) -> Map<u64, Word>
    decreases entries.len(),
{
    if entries.len() == 0 {
        Map::<u64, Word>::empty()
    } else {
        entries_map(entries.drop_last()).insert(entries.last().0, entries.last().1)
    }
}

/// Relies on SimpleSmt::with_leaves: builds a depth-8 tree whose leaf map
/// holds exactly the given entries; with at most 256 distinct keys below
/// 256 the call cannot fail. The values must be canonical: the tree
/// stores field elements, so a non-canonical word would be reduced.
#[verifier::external_body]
pub(crate) fn smt_with_entries(entries: &Vec<(u64, Word)>) -> (r: SimpleSmt)
    requires
        entries@.len() <= 256,
        forall|i: int| 0 <= i < entries@.len() ==> (#[trigger] entries@[i]).0 < 256,
        forall|i: int, j: int|
            0 <= i < j < entries@.len() ==> (#[trigger] entries@[i]).0 != (
            #[trigger] entries@[j]).0,
        forall|i: int| 0 <= i < entries@.len() ==> word_wf((#[trigger] entries@[i]).1),
    ensures
        smt_depth(r) == 8,
        smt_leaves(r) == entries_map(entries@),
{
    let mut felt_entries: Vec<(u64, miden_crypto::Word)> = Vec::with_capacity(entries.len());
    for (k, w) in entries.iter() {
        felt_entries.push((*k, [Felt::new(w[0]), Felt::new(w[1]), Felt::new(w[2]), Felt::new(w[3])]));
    }
    SimpleSmt::with_leaves(8, felt_entries).unwrap()
}

/// Relies on SimpleSmt::root: returns the root commitment of the tree,
/// a deterministic function of its depth and leaf map, with every element
/// in canonical form.
#[verifier::external_body]
pub(crate) fn smt_root(s: &SimpleSmt) -> (r: Digest)
    ensures
        r.0 == smt_root_of(smt_depth(*s), smt_leaves(*s)),
        r.wf(),
{
    let d = s.root();
    let e = d.as_elements();
    Digest([e[0].as_int(), e[1].as_int(), e[2].as_int(), e[3].as_int()])
}

/// Relies on NodeIndex::new and SimpleSmt::get_node: at leaf depth the
/// node value is the written leaf, or the zero word for an untouched
/// leaf; a leaf index below 256 is always in range for depth 8.
#[verifier::external_body]
pub(crate) fn smt_get_leaf(s: &SimpleSmt, index: u8) -> (r: Digest)
    requires
        smt_depth(*s) == 8,
    ensures
        r.0 == if smt_leaves(*s).contains_key(index as u64) {
            smt_leaves(*s)[index as u64]
        } else {
            crate::word::spec_zero_word()
        },
{
    let idx = NodeIndex::new(8, index as u64).expect("leaf index is in range for depth 8");
    let d = s.get_node(idx).expect("leaf index is in range for depth 8");
    let e = d.as_elements();
    Digest([e[0].as_int(), e[1].as_int(), e[2].as_int(), e[3].as_int()])
}

/// Relies on SimpleSmt::update_leaf: writes the value into the leaf map
/// and returns the previous value (the zero word for an untouched leaf);
/// a leaf index below 256 is always in range for depth 8. The value must
/// be canonical, since the tree stores field elements. Writing the zero
/// word into an untouched leaf leaves the root unchanged: the explicit
/// zero leaf and the absent leaf denote the same tree.
#[verifier::external_body]
pub(crate) fn smt_update_leaf(s: &mut SimpleSmt, index: u8, value: Word) -> (r: Word)
    requires
        smt_depth(*old(s)) == 8,
        word_wf(value),
    ensures
        smt_depth(*final(s)) == 8,
        smt_leaves(*final(s)) == smt_leaves(*old(s)).insert(index as u64, value),
        r == if smt_leaves(*old(s)).contains_key(index as u64) {
            smt_leaves(*old(s))[index as u64]
        } else {
            crate::word::spec_zero_word()
        },
        !smt_leaves(*old(s)).contains_key(index as u64) && value == crate::word::spec_zero_word()
            ==> smt_root_of(8, smt_leaves(*final(s))) == smt_root_of(8, smt_leaves(*old(s))),
{
    let felts = [Felt::new(value[0]), Felt::new(value[1]), Felt::new(value[2]), Felt::new(value[3])];
    let prev = s.update_leaf(index as u64, felts).expect("leaf index is in range for depth 8");
    [prev[0].as_int(), prev[1].as_int(), prev[2].as_int(), prev[3].as_int()]
}

} // verus!
