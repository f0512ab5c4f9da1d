//! Core of a transaction-construction layer for an account-based rollup:
//! a 256-slot Merkleized typed key-value store with a commitment scheme,
//! a static branch-compatibility analysis over compiled note scripts, and
//! a content-address for transactions.

pub mod assembler;
pub mod codec;
pub mod compiler;
pub mod error;
pub mod slot;
pub mod smt;
pub mod storage;
pub mod hasher;
pub mod memory;
pub mod transaction_id;
pub mod word;
