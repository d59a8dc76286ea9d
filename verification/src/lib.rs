//! Canonical wire representation and signing contract for the Sponsored
//! transaction variant of a typed, signable transaction family.
//!
//! The crate holds the transaction's fields in their fixed canonical order,
//! serializes and deserializes them under the self-describing variable-length
//! wire encoding, builds the exact byte sequence that is hashed and signed,
//! and answers the uniform fee and payload queries that execution logic asks
//! of every transaction variant.

pub mod compat;
pub mod primitives;
pub mod rlp;
pub mod sponsored;
