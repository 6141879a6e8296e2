//! Account addresses and deterministic address derivation.
//!
//! Ordinary parties hold key-pair accounts; escrow records and vaults live
//! at addresses derived from a program namespace, the maker's account and
//! the offer id. Derivation is a content-addressed composite key, so a
//! record can be located from its inputs alone, no registry needed, and two
//! distinct (maker, id) pairs can never collide.

use vstd::prelude::*;

verus! {

/// An account address on the modelled ledger.
#[derive(Clone, Copy, Debug, PartialEq, Eq, Structural)]
pub enum Address {
    /// An ordinary account controlled by a signing party.
    Account(u64),
    /// An address derived from a namespace and a seed tuple; no signing key
    /// exists for it, so only protocol logic can act as this authority.
    Derived { namespace: u64, maker: u64, id: u64, nonce: u8 },
}

/// The canonical derivation nonce for the record of offer `id` by `maker`
/// under `namespace`: the value that makes the derived address reproducible
/// from the seed tuple alone.
pub open spec fn spec_canonical_nonce(namespace: u64, maker: u64, id: u64) -> u8 {
    ((namespace ^ maker ^ id) % 256) as u8
}

/// Computes the canonical derivation nonce for (namespace, maker, id).
pub fn canonical_nonce(namespace: u64, maker: u64, id: u64) -> (r: u8)
    ensures
        r == spec_canonical_nonce(namespace, maker, id),
{
    (((namespace ^ maker) ^ id) % 256) as u8
}

/// The canonical derived address of the offer record for (maker, id) under
/// `namespace`. The record and its vault authority both live here.
pub open spec fn spec_offer_address(namespace: u64, maker: u64, id: u64) -> Address {
    Address::Derived {
        namespace,
        maker,
        id,
        nonce: spec_canonical_nonce(namespace, maker, id),
    }
}

/// Derives the canonical offer record address for (maker, id) under
/// `namespace`.
pub fn derive_offer_address(namespace: u64, maker: u64, id: u64) -> (r: Address)
    ensures
        r == spec_offer_address(namespace, maker, id),
{
    let nonce = canonical_nonce(namespace, maker, id);
    Address::Derived { namespace, maker, id, nonce }
}

/// Derivation is collision-resistant: within one namespace, two offers
/// reach the same derived address only if they agree on both the maker and
/// the id. Two offers from the same maker must therefore use distinct ids.
pub proof fn lemma_offer_address_injective(namespace: u64, maker1: u64, id1: u64, maker2: u64, id2: u64)
    ensures
        spec_offer_address(namespace, maker1, id1) == spec_offer_address(namespace, maker2, id2)
            ==> maker1 == maker2 && id1 == id2,
{
}

} // verus!
