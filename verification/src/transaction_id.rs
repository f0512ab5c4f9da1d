//! Transaction identity.
//!
//! A transaction is content-addressed by hashing the four commitments that
//! define it — initial account state, final account state, consumed-notes
//! commitment, created-notes commitment — concatenated in that fixed order.
//! The identity is derivable from public data alone.

use vstd::prelude::*;
use vstd::bytes::{
    lemma_auto_spec_u64_to_from_le_bytes, spec_u64_from_le_bytes, spec_u64_to_le_bytes,
    u64_from_le_bytes, u64_to_le_bytes,
};
use crate::codec::push_bytes;
use crate::error::DeserializationError;
use crate::hasher::{hash_elements, rpo_hash};
use crate::word::{felt_valid, Digest, Word};

verus! {

/// The 16 field elements hashed into a transaction identity: the four
/// input digests concatenated in fixed order.
pub open spec fn spec_id_elements(
    init_account_hash: Digest,
    final_account_hash: Digest,
    input_notes_hash: Digest,
    output_notes_hash: Digest,
) -> Seq<u64> {
    init_account_hash.0@ + final_account_hash.0@ + input_notes_hash.0@ + output_notes_hash.0@
}

/// The identity of a transaction with the given four commitments.
pub open spec fn spec_transaction_id(
    init_account_hash: Digest,
    final_account_hash: Digest,
    input_notes_hash: Digest,
    output_notes_hash: Digest,
) -> Word {
    rpo_hash(
        spec_id_elements(
            init_account_hash,
            final_account_hash,
            input_notes_hash,
            output_notes_hash,
        ),
    )
}

/// A unique identifier of a transaction.
///
/// Two transactions are identical if and only if they have the same ID,
/// up to collision resistance of the underlying hash.
#[derive(Debug, Clone, Copy)]
pub struct TransactionId(pub Digest);

impl TransactionId {
    /// Returns a new transaction ID instantiated from the provided
    /// transaction components: the hash of the four digests concatenated
    /// in fixed order.
    pub fn new(
        init_account_hash: Digest,
        final_account_hash: Digest,
        input_notes_hash: Digest,
        output_notes_hash: Digest,
    ) -> (r: Self)
        ensures
            r.0.0 == spec_transaction_id(
                init_account_hash,
                final_account_hash,
                input_notes_hash,
                output_notes_hash,
            ),
            r.0.wf(),
    {
        let mut elements: Vec<u64> = Vec::new();
        push_word(&mut elements, &init_account_hash.0);
        push_word(&mut elements, &final_account_hash.0);
        push_word(&mut elements, &input_notes_hash.0);
        push_word(&mut elements, &output_notes_hash.0);
        proof {
            assert(elements@ =~= spec_id_elements(
                init_account_hash,
                final_account_hash,
                input_notes_hash,
                output_notes_hash,
            ));
        }
        TransactionId(hash_elements(&elements))
    }

    /// Returns the elements of this transaction ID.
    pub fn as_elements(&self) -> (r: &Word)
        ensures
            *r == self.0.0,
    {
        self.0.as_elements()
    }

    /// Returns the digest defining this transaction ID.
    pub fn inner(&self) -> (r: Digest)
        ensures
            r == self.0,
    {
        self.0
    }
}

/// The 32-byte serialized form of a transaction ID: its four digest
/// elements, each as 8 little-endian bytes.
pub open spec fn spec_id_bytes(id: TransactionId) -> Seq<u8> {
    spec_u64_to_le_bytes(id.0.0[0]) + spec_u64_to_le_bytes(id.0.0[1]) + spec_u64_to_le_bytes(
        id.0.0[2],
    ) + spec_u64_to_le_bytes(id.0.0[3])
}

/// The transaction ID a 32-byte stream decodes to, if every element is
/// canonical.
pub open spec fn spec_id_from_bytes(bytes: Seq<u8>) -> Option<TransactionId> {
    if bytes.len() != 32 {
        None
    } else {
        let e0 = spec_u64_from_le_bytes(bytes.subrange(0, 8));
        let e1 = spec_u64_from_le_bytes(bytes.subrange(8, 16));
        let e2 = spec_u64_from_le_bytes(bytes.subrange(16, 24));
        let e3 = spec_u64_from_le_bytes(bytes.subrange(24, 32));
        if felt_valid(e0) && felt_valid(e1) && felt_valid(e2) && felt_valid(e3) {
            Some(TransactionId(Digest([e0, e1, e2, e3])))
        } else {
            None
        }
    }
}

impl TransactionId {
    /// Serializes this transaction ID into its 32-byte wire form.
    pub fn to_bytes(&self) -> (r: Vec<u8>)
        ensures
            r@ == spec_id_bytes(*self),
    {
        let mut out: Vec<u8> = Vec::new();
        let b0 = u64_to_le_bytes(self.0.0[0]);
        let b1 = u64_to_le_bytes(self.0.0[1]);
        let b2 = u64_to_le_bytes(self.0.0[2]);
        let b3 = u64_to_le_bytes(self.0.0[3]);
        push_bytes(&mut out, &b0);
        push_bytes(&mut out, &b1);
        push_bytes(&mut out, &b2);
        push_bytes(&mut out, &b3);
        proof {
            assert(out@ =~= spec_id_bytes(*self));
        }
        out
    }

    /// Deserializes a transaction ID from its wire form: exactly 32 bytes
    /// holding four canonical little-endian elements, rejected otherwise.
    pub fn read_from_bytes(bytes: &Vec<u8>) -> (r: Result<TransactionId, DeserializationError>)
        ensures
            match spec_id_from_bytes(bytes@) {
                Some(id) => r == Result::<TransactionId, DeserializationError>::Ok(id),
                None => r == Result::<TransactionId, DeserializationError>::Err(
                    DeserializationError::InvalidValue,
                ),
            },
    {
        if bytes.len() != 32 {
            return Err(DeserializationError::InvalidValue);
        }
        let e0 = u64_from_le_bytes(vstd::slice::slice_subrange(bytes.as_slice(), 0, 8));
        let e1 = u64_from_le_bytes(vstd::slice::slice_subrange(bytes.as_slice(), 8, 16));
        let e2 = u64_from_le_bytes(vstd::slice::slice_subrange(bytes.as_slice(), 16, 24));
        let e3 = u64_from_le_bytes(vstd::slice::slice_subrange(bytes.as_slice(), 24, 32));
        if e0 >= crate::word::FELT_MODULUS || e1 >= crate::word::FELT_MODULUS || e2
            >= crate::word::FELT_MODULUS || e3 >= crate::word::FELT_MODULUS {
            return Err(DeserializationError::InvalidValue);
        }
        Ok(TransactionId(Digest([e0, e1, e2, e3])))
    }
}

/// Law: the wire form of a transaction ID round-trips — decoding the
/// serialized bytes of any well-formed ID yields the same ID.
pub proof fn lemma_id_bytes_round_trip(id: TransactionId)
    requires
        id.0.wf(),
    ensures
        spec_id_from_bytes(spec_id_bytes(id)) == Some(id),
{
    lemma_auto_spec_u64_to_from_le_bytes();
    let bytes = spec_id_bytes(id);
    let l0 = spec_u64_to_le_bytes(id.0.0[0]);
    let l1 = spec_u64_to_le_bytes(id.0.0[1]);
    let l2 = spec_u64_to_le_bytes(id.0.0[2]);
    let l3 = spec_u64_to_le_bytes(id.0.0[3]);
    assert(bytes == l0 + l1 + l2 + l3);
    assert(bytes.len() == 32);
    assert(bytes.subrange(0, 8) =~= l0);
    assert(bytes.subrange(8, 16) =~= l1);
    assert(bytes.subrange(16, 24) =~= l2);
    assert(bytes.subrange(24, 32) =~= l3);
    let decoded = spec_id_from_bytes(bytes).unwrap();
    assert(decoded.0.0 =~= id.0.0);
}

impl PartialEq for TransactionId {
    fn eq(&self, other: &TransactionId) -> (r: bool) {
        self.0 == other.0
    }
}

impl Eq for TransactionId {

}

impl vstd::std_specs::cmp::PartialEqSpecImpl for TransactionId {
    open spec fn obeys_eq_spec() -> bool {
        true
    }

    open spec fn eq_spec(&self, other: &TransactionId) -> bool {
        self.0.0 == other.0.0
    }
}

/// Appends the four elements of a word to the element buffer.
fn push_word(elements: &mut Vec<u64>, w: &Word)
    ensures
        final(elements)@ == old(elements)@ + w@,
{
    elements.push(w[0]);
    elements.push(w[1]);
    elements.push(w[2]);
    elements.push(w[3]);
    proof {
        assert(elements@ =~= old(elements)@ + w@);
    }
}

/// The flat element sequence committing to a transaction's consumed notes:
/// for each consumed note, its nullifier followed by a zero word.
pub open spec fn spec_input_notes_elements(nullifiers: Seq<Digest>) -> Seq<u64>
    decreases nullifiers.len(),
{
    if nullifiers.len() == 0 {
        Seq::<u64>::empty()
    } else {
        spec_input_notes_elements(nullifiers.drop_last()) + nullifiers.last().0@ + seq![
            0u64,
            0u64,
            0u64,
            0u64,
        ]
    }
}

/// The flat element sequence committing to a transaction's created notes:
/// for each created note, its hash followed by its metadata word.
pub open spec fn spec_output_notes_elements(notes: Seq<(Digest, Word)>) -> Seq<u64>
    decreases notes.len(),
{
    if notes.len() == 0 {
        Seq::<u64>::empty()
    } else {
        spec_output_notes_elements(notes.drop_last()) + notes.last().0.0@ + notes.last().1@
    }
}

/// Returns the commitment to a transaction's consumed notes, recomputed
/// from their nullifiers.
pub fn input_notes_commitment(nullifiers: &Vec<Digest>) -> (r: Digest)
    ensures
        r.0 == rpo_hash(spec_input_notes_elements(nullifiers@)),
        r.wf(),
{
    let mut elements: Vec<u64> = Vec::new();
    let zero: Word = crate::word::zero_word();
    for i in 0..nullifiers.len()
        invariant
            elements@ == spec_input_notes_elements(nullifiers@.take(i as int)),
            zero == crate::word::spec_zero_word(),
        decreases nullifiers.len() - i,
    {
        push_word(&mut elements, &nullifiers[i].0);
        push_word(&mut elements, &zero);
        proof {
            assert(nullifiers@.take(i + 1).drop_last() =~= nullifiers@.take(i as int));
            assert(zero@ =~= seq![0u64, 0u64, 0u64, 0u64]);
        }
    }
    proof {
        assert(nullifiers@.take(nullifiers@.len() as int) =~= nullifiers@);
    }
    hash_elements(&elements)
}

/// Returns the commitment to a transaction's created notes, recomputed
/// from their (note hash, metadata) pairs.
pub fn output_notes_commitment(notes: &Vec<(Digest, Word)>) -> (r: Digest)
    ensures
        r.0 == rpo_hash(spec_output_notes_elements(notes@)),
        r.wf(),
{
    let mut elements: Vec<u64> = Vec::new();
    for i in 0..notes.len()
        invariant
            elements@ == spec_output_notes_elements(notes@.take(i as int)),
        decreases notes.len() - i,
    {
        push_word(&mut elements, &notes[i].0.0);
        push_word(&mut elements, &notes[i].1);
        proof {
            assert(notes@.take(i + 1).drop_last() =~= notes@.take(i as int));
        }
    }
    proof {
        assert(notes@.take(notes@.len() as int) =~= notes@);
    }
    hash_elements(&elements)
}

/// Returns the transaction ID of a proven transaction, recomputing the
/// consumed- and created-notes commitments from per-note data.
pub fn from_proven_parts(
    init_account_hash: Digest,
    final_account_hash: Digest,
    consumed_note_nullifiers: &Vec<Digest>,
    created_notes: &Vec<(Digest, Word)>,
) -> (r: TransactionId)
    ensures
        r.0.0 == spec_transaction_id(
            init_account_hash,
            final_account_hash,
            Digest(rpo_hash(spec_input_notes_elements(consumed_note_nullifiers@))),
            Digest(rpo_hash(spec_output_notes_elements(created_notes@))),
        ),
        r.0.wf(),
{
    let input_notes_hash = input_notes_commitment(consumed_note_nullifiers);
    let output_notes_hash = output_notes_commitment(created_notes);
    TransactionId::new(init_account_hash, final_account_hash, input_notes_hash, output_notes_hash)
}

/// Law: the transaction ID is a pure function of the four commitments, so
/// the ID recomputed from per-note data (the proven-transaction view)
/// equals the ID built from the already-computed commitments (the
/// transaction-result view) whenever those commitments match the notes.
pub proof fn lemma_id_views_agree(
    init_account_hash: Digest,
    final_account_hash: Digest,
    nullifiers: Seq<Digest>,
    notes: Seq<(Digest, Word)>,
    input_notes_hash: Digest,
    output_notes_hash: Digest,
)
    requires
        input_notes_hash.0 == rpo_hash(spec_input_notes_elements(nullifiers)),
        output_notes_hash.0 == rpo_hash(spec_output_notes_elements(notes)),
    ensures
        spec_transaction_id(
            init_account_hash,
            final_account_hash,
            Digest(rpo_hash(spec_input_notes_elements(nullifiers))),
            Digest(rpo_hash(spec_output_notes_elements(notes))),
        ) == spec_transaction_id(
            init_account_hash,
            final_account_hash,
            input_notes_hash,
            output_notes_hash,
        ),
{
    assert(Digest(rpo_hash(spec_input_notes_elements(nullifiers))).0 =~= input_notes_hash.0);
    assert(Digest(rpo_hash(spec_input_notes_elements(nullifiers))) == input_notes_hash);
    assert(Digest(rpo_hash(spec_output_notes_elements(notes))) == output_notes_hash);
}

/// Law: the fixed-order concatenation feeding the ID hash is injective in
/// the four input digests — two transactions hash the same input sequence
/// only if all four commitments coincide. Distinct commitments therefore
/// change the ID unless the underlying hash itself collides.
pub proof fn lemma_id_elements_injective(
    a: Digest,
    b: Digest,
    c: Digest,
    d: Digest,
    a2: Digest,
    b2: Digest,
    c2: Digest,
    d2: Digest,
)
    requires
        spec_id_elements(a, b, c, d) == spec_id_elements(a2, b2, c2, d2),
    ensures
        a.0 == a2.0 && b.0 == b2.0 && c.0 == c2.0 && d.0 == d2.0,
{
    broadcast use vstd::array::group_array_axioms;

    assert(a.0@.len() == 4 && b.0@.len() == 4 && c.0@.len() == 4 && d.0@.len() == 4);
    assert(a2.0@.len() == 4 && b2.0@.len() == 4 && c2.0@.len() == 4 && d2.0@.len() == 4);
    assert(spec_id_elements(a, b, c, d) == a.0@ + b.0@ + c.0@ + d.0@);
    assert(spec_id_elements(a2, b2, c2, d2) == a2.0@ + b2.0@ + c2.0@ + d2.0@);
    assert forall|i: int| 0 <= i < 4 implies #[trigger] a.0@[i] == a2.0@[i] by {
        assert((a.0@ + b.0@ + c.0@ + d.0@)[i] == (a.0@ + b.0@ + c.0@)[i]);
        assert((a.0@ + b.0@ + c.0@)[i] == (a.0@ + b.0@)[i]);
        assert((a.0@ + b.0@)[i] == a.0@[i]);
        assert((a2.0@ + b2.0@ + c2.0@ + d2.0@)[i] == (a2.0@ + b2.0@ + c2.0@)[i]);
        assert((a2.0@ + b2.0@ + c2.0@)[i] == (a2.0@ + b2.0@)[i]);
        assert((a2.0@ + b2.0@)[i] == a2.0@[i]);
    }
    assert forall|i: int| 0 <= i < 4 implies #[trigger] b.0@[i] == b2.0@[i] by {
        assert((a.0@ + b.0@ + c.0@ + d.0@)[i + 4] == (a.0@ + b.0@ + c.0@)[i + 4]);
        assert((a.0@ + b.0@ + c.0@)[i + 4] == (a.0@ + b.0@)[i + 4]);
        assert((a.0@ + b.0@)[i + 4] == b.0@[i]);
        assert((a2.0@ + b2.0@ + c2.0@ + d2.0@)[i + 4] == (a2.0@ + b2.0@ + c2.0@)[i + 4]);
        assert((a2.0@ + b2.0@ + c2.0@)[i + 4] == (a2.0@ + b2.0@)[i + 4]);
        assert((a2.0@ + b2.0@)[i + 4] == b2.0@[i]);
    }
    assert forall|i: int| 0 <= i < 4 implies #[trigger] c.0@[i] == c2.0@[i] by {
        assert((a.0@ + b.0@ + c.0@ + d.0@)[i + 8] == (a.0@ + b.0@ + c.0@)[i + 8]);
        assert((a.0@ + b.0@ + c.0@)[i + 8] == c.0@[i]);
        assert((a2.0@ + b2.0@ + c2.0@ + d2.0@)[i + 8] == (a2.0@ + b2.0@ + c2.0@)[i + 8]);
        assert((a2.0@ + b2.0@ + c2.0@)[i + 8] == c2.0@[i]);
    }
    assert forall|i: int| 0 <= i < 4 implies #[trigger] d.0@[i] == d2.0@[i] by {
        assert((a.0@ + b.0@ + c.0@ + d.0@)[i + 12] == d.0@[i]);
        assert((a2.0@ + b2.0@ + c2.0@ + d2.0@)[i + 12] == d2.0@[i]);
    }
    assert(a.0@ =~= a2.0@);
    assert(b.0@ =~= b2.0@);
    assert(c.0@ =~= c2.0@);
    assert(d.0@ =~= d2.0@);
    assert(a.0 =~= a2.0);
    assert(b.0 =~= b2.0);
    assert(c.0 =~= c2.0);
    assert(d.0 =~= d2.0);
}

} // verus!
