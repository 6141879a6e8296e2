//! The Make-Offer protocol: creates an offer record and its escrow vault
//! together, and funds the vault from the maker's holdings, in one atomic
//! step. On any failure no state is created.

use vstd::prelude::*;
use crate::address::Address;
use crate::address::spec_offer_address;
use crate::address::spec_canonical_nonce;
use crate::address::canonical_nonce;
use crate::error::ErrorCode;
use crate::ledger::Ledger;
use crate::ledger::rec_keys_unique;
use crate::shared::spec_transfer_check;
use crate::shared::spec_transfer_balances;
use crate::shared::spec_transfer_fits;
use crate::shared::transfer_tokens;
use crate::state::Offer;

verus! {

/// The account bundle a maker presents: the maker itself (acting as the
/// transaction signer) and the two asset identifiers of the swap.
#[derive(Clone, Copy, Debug, PartialEq, Eq, Structural)]
pub struct MakeOffer {
    /// The account of the signing party creating the offer.
    pub maker: u64,
    /// The asset identifier of the offered asset.
    pub token_mint_a: u64,
    /// The asset identifier of the wanted asset.
    pub token_mint_b: u64,
}

/// The record a successful make step persists for (context, id): the
/// supplied fields plus the canonical derivation nonce.
pub open spec fn spec_made_offer(
    namespace: u64,
    context: MakeOffer,
    id: u64,
    token_b_wanted_amount: u64,
) -> Offer {
    Offer {
        id,
        maker: context.maker,
        token_mint_a: context.token_mint_a,
        token_mint_b: context.token_mint_b,
        token_b_wanted_amount,
        bump: spec_canonical_nonce(namespace, context.maker, id),
    }
}

/// The outcome a make step is obliged to produce, decided on the
/// pre-state: id reuse collides before anything else, an absent maker
/// holding account surfaces as `RecordNotFound`, a short balance as
/// `InsufficientFunds`, and `Ok` is owed otherwise.
pub open spec fn spec_make_offer_check(
    l: Ledger,
    context: MakeOffer,
    id: u64,
    token_a_offered_amount: u64,
) -> Result<(), ErrorCode> {
    if l.offers().contains_key((context.maker, id)) {
        Err(ErrorCode::DuplicateRecord)
    } else if !l.balances().dom().contains((Address::Account(context.maker), context.token_mint_a)) {
        Err(ErrorCode::RecordNotFound)
    } else if l.balances()[(Address::Account(context.maker), context.token_mint_a)]
        < token_a_offered_amount {
        Err(ErrorCode::InsufficientFunds)
    } else {
        Ok(())
    }
}

/// The outcome of the funding sub-step alone: an unregistered offered
/// asset cannot pass decimal verification, and otherwise the transfer into
/// the vault decides.
pub open spec fn spec_send_offered_check(
    l: Ledger,
    context: MakeOffer,
    id: u64,
    token_a_offered_amount: u64,
) -> Result<(), ErrorCode> {
    match l.decimals_of(context.token_mint_a) {
        None => Err(ErrorCode::PrecisionMismatch),
        Some(d) => spec_transfer_check(
            l,
            Address::Account(context.maker),
            spec_offer_address(l.namespace, context.maker, id),
            context.token_mint_a,
            token_a_offered_amount,
            d,
            Address::Account(context.maker),
        ),
    }
}

/// Transfers the offered amount of the offered asset from the maker's
/// holding account into the offer's vault — the account owned by the
/// record's derived address — with decimal-precision verification.
pub fn send_offered_tokens_to_vault(
    ledger: &mut Ledger,
    context: &MakeOffer,
    id: u64,
    token_a_offered_amount: u64,
) -> (r: Result<(), ErrorCode>)
    requires
        crate::ledger::acc_keys_unique(old(ledger).accounts@),
        old(ledger).decimals_of(context.token_mint_a) matches Some(d) ==> spec_transfer_fits(
            *old(ledger),
            Address::Account(context.maker),
            spec_offer_address(old(ledger).namespace, context.maker, id),
            context.token_mint_a,
            token_a_offered_amount,
            d,
            Address::Account(context.maker),
        ),
    ensures
        crate::ledger::acc_keys_unique(final(ledger).accounts@),
        old(ledger).wf() ==> final(ledger).wf(),
        final(ledger).namespace == old(ledger).namespace,
        final(ledger).mints@ == old(ledger).mints@,
        final(ledger).records@ == old(ledger).records@,
        final(ledger).offers() == old(ledger).offers(),
        r == spec_send_offered_check(*old(ledger), *context, id, token_a_offered_amount),
        r is Ok ==> final(ledger).balances() == spec_transfer_balances(
            old(ledger).balances(),
            Address::Account(context.maker),
            spec_offer_address(old(ledger).namespace, context.maker, id),
            context.token_mint_a,
            token_a_offered_amount,
        ),
        r is Err ==> *final(ledger) == *old(ledger),
{
    let declared_decimals = match ledger.registered_decimals(context.token_mint_a) {
        Some(d) => d,
        None => {
            return Err(ErrorCode::PrecisionMismatch);
        },
    };
    let vault_owner = crate::address::derive_offer_address(ledger.namespace, context.maker, id);
    transfer_tokens(
        ledger,
        Address::Account(context.maker),
        vault_owner,
        token_a_offered_amount,
        context.token_mint_a,
        declared_decimals,
        Address::Account(context.maker),
    )
}

/// Persists the offer record under its content-addressed (maker, id) key,
/// with the supplied fields and the canonical derivation nonce. The record
/// itself is immutable from here on: it can only be destroyed.
pub fn save_offer(
    ledger: &mut Ledger,
    context: &MakeOffer,
    id: u64,
    token_b_wanted_amount: u64,
) -> (r: Result<(), ErrorCode>)
    requires
        rec_keys_unique(old(ledger).records@),
        !old(ledger).offers().contains_key((context.maker, id)),
    ensures
        rec_keys_unique(final(ledger).records@),
        final(ledger).namespace == old(ledger).namespace,
        final(ledger).mints@ == old(ledger).mints@,
        final(ledger).accounts@ == old(ledger).accounts@,
        final(ledger).balances() == old(ledger).balances(),
        final(ledger).offers() == old(ledger).offers().insert(
            (context.maker, id),
            spec_made_offer(old(ledger).namespace, *context, id, token_b_wanted_amount),
        ),
        r == Ok::<(), ErrorCode>(()),
{
    let bump = canonical_nonce(ledger.namespace, context.maker, id);
    let offer = Offer {
        id,
        maker: context.maker,
        token_mint_a: context.token_mint_a,
        token_mint_b: context.token_mint_b,
        token_b_wanted_amount,
        bump,
    };
    ledger.push_record(offer);
    Ok(())
}

/// Funding invariant: the balances a successful make step leaves behind —
/// exactly those `make_offer` ensures — hold the offered amount in the
/// vault, show the maker's holding account short exactly that amount, and
/// leave every other balance, existing or not, untouched.
pub proof fn lemma_funding_invariant(
    pre: Ledger,
    post: Ledger,
    context: MakeOffer,
    id: u64,
    token_a_offered_amount: u64,
)
    requires
        pre.balances().dom().contains((Address::Account(context.maker), context.token_mint_a)),
        token_a_offered_amount <= pre.balances()[(
            Address::Account(context.maker),
            context.token_mint_a,
        )],
        post.balances() == pre.balances().insert(
            (Address::Account(context.maker), context.token_mint_a),
            (pre.balances()[(Address::Account(context.maker), context.token_mint_a)]
                - token_a_offered_amount) as u64,
        ).insert(
            (spec_offer_address(pre.namespace, context.maker, id), context.token_mint_a),
            token_a_offered_amount,
        ),
    ensures
        post.balances()[(
            spec_offer_address(pre.namespace, context.maker, id),
            context.token_mint_a,
        )] == token_a_offered_amount,
        post.balances()[(Address::Account(context.maker), context.token_mint_a)] == pre.balances()[
            (Address::Account(context.maker), context.token_mint_a)
        ] - token_a_offered_amount,
        forall|k: (Address, u64)|
            #![trigger post.balances().dom().contains(k)]
            k != (Address::Account(context.maker), context.token_mint_a) && k != (
            spec_offer_address(pre.namespace, context.maker, id),
            context.token_mint_a,
            ) ==> post.balances().dom().contains(k) == pre.balances().dom().contains(k) && (
            pre.balances().dom().contains(k) ==> post.balances()[k] == pre.balances()[k]),
{
}

} // verus!
