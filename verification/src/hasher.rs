//! The shared hashing primitive.
//!
//! Every commitment in this crate — storage roots, slot-type commitments,
//! note hashes and transaction identities — is produced by the same
//! collision-resistant hash over sequences of field elements. The hash
//! itself is an outside primitive; its output on a given element sequence
//! is named by [`rpo_hash`] and never restated.

use vstd::prelude::*;
use miden_crypto::hash::rpo::Rpo256;
use miden_crypto::{Felt, StarkField};
use crate::word::{Digest, Word};

verus! {

/// The output of the hash function on a sequence of field elements.
/// The result depends on the elements alone.
pub uninterp spec fn rpo_hash(elements: Seq<u64>) -> Word;

/// Relies on miden_crypto::hash::rpo::Rpo256::hash_elements: hashes a
/// sequence of field elements into a 4-element digest; the result depends
/// on the elements alone, and StarkField::as_int returns each output
/// element in canonical (reduced) form.
#[verifier::external_body]
pub fn hash_elements(elements: &Vec<u64>) -> (r: Digest)
    ensures
        r.0 == rpo_hash(elements@),
        r.wf(),
{
    let mut felts: Vec<Felt> = Vec::with_capacity(elements.len());
    for x in elements.iter() {
        felts.push(Felt::new(*x));
    }
    let digest = Rpo256::hash_elements(&felts);
    let e = digest.as_elements();
    Digest([e[0].as_int(), e[1].as_int(), e[2].as_int(), e[3].as_int()])
}

} // verus!
