//! The error taxonomy of the swap protocol.
//!
//! Every protocol step either commits in full or surfaces exactly one of
//! these errors to the caller, with no partial effect on the ledger.

use vstd::prelude::*;

verus! {

/// The terminal outcome of a failed protocol step.
#[derive(Clone, Copy, Debug, PartialEq, Eq, Structural)]
pub enum ErrorCode {
    /// A balance check failed: the paying account is absent or holds less
    /// than the amount to be moved.
    InsufficientFunds,
    /// A supplied address or identifier does not match its expected
    /// deterministic derivation; catches spoofed maker, mint and vault
    /// references as well as unauthorized transfer authorities.
    AddressDerivationMismatch,
    /// The offer record or its vault is absent; covers "already taken" and
    /// "never existed" identically.
    RecordNotFound,
    /// An offer id was reused: creation would collide with an existing
    /// record at the same derived address.
    DuplicateRecord,
    /// The decimal precision declared for a transfer does not match the
    /// asset's registered precision.
    PrecisionMismatch,
}

} // verus!
