//! Durable protocol state: the offer record.

use vstd::prelude::*;

verus! {

/// One outstanding swap: the maker escrows `token_mint_a` and asks for
/// `token_b_wanted_amount` of `token_mint_b`. Once created a record is
/// immutable; its only transitions are creation and destruction.
#[derive(Clone, Copy, Debug, PartialEq, Eq, Structural)]
pub struct Offer {
    /// Disambiguates multiple offers from the same maker.
    pub id: u64,
    /// The account of the party who created the offer and funded the vault.
    pub maker: u64,
    /// The asset identifier of the offered asset held in the vault.
    pub token_mint_a: u64,
    /// The asset identifier of the wanted asset.
    pub token_mint_b: u64,
    /// The quantity of `token_mint_b` required to claim the vault.
    pub token_b_wanted_amount: u64,
    /// The derivation nonce that makes this record's address canonical.
    pub bump: u8,
}

} // verus!
