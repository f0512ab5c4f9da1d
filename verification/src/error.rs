//! Error types of the storage component.

use vstd::prelude::*;

verus! {

/// Errors returned when constructing account storage.
#[derive(Debug, Clone, Copy, PartialEq, Eq, Structural)]
pub enum AccountError {
    /// An input item addressed the reserved slot that holds the commitment
    /// to the slot types; carries the offending index.
    StorageSlotIsReserved(u8),
    /// Two input items share a slot index; carries the repeated index.
    DuplicateStorageItems(u8),
}

/// Error returned when decoding account storage from bytes: the stream was
/// truncated, held a malformed tag or element, or did not reconstruct.
#[derive(Debug, Clone, Copy, PartialEq, Eq, Structural)]
pub enum DeserializationError {
    InvalidValue,
}

} // verus!
