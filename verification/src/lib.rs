//! A trust-minimized two-party atomic asset swap.
//!
//! A maker escrows a quantity of one asset in a vault whose custody is held
//! by the protocol itself, in exchange for a fixed quantity of another asset.
//! Any taker who supplies the wanted amount may claim the vault's contents in
//! a single indivisible step. The ledger, asset accounts, and deterministic
//! address derivation are modelled explicitly, so every protocol step and
//! every invariant (no double spend, no partial settlement, no unauthorized
//! release) is stated and proved.

use vstd::prelude::*;
use vstd::map::*;

pub mod address;
pub mod error;
pub mod ledger;
pub mod make_offer;
pub mod shared;
pub mod state;
pub mod take_offer;

use crate::address::Address;
use crate::address::derive_offer_address;
use crate::address::spec_offer_address;
use crate::error::ErrorCode;
use crate::ledger::Ledger;
use crate::ledger::acc_find;
use crate::ledger::lemma_wf_after_make;
use crate::make_offer::MakeOffer;
use crate::make_offer::save_offer;
use crate::make_offer::send_offered_tokens_to_vault;
use crate::make_offer::spec_made_offer;
use crate::make_offer::spec_make_offer_check;
use crate::take_offer::TakeOffer;
use crate::take_offer::send_wanted_tokens_to_maker;
use crate::take_offer::spec_take_balances;
use crate::take_offer::spec_take_fits;
use crate::take_offer::spec_take_offer_check;
use crate::take_offer::spec_withdraw_fits;
use crate::take_offer::withdraw_and_close_vault;

verus! {

/// Make-Offer: derives the canonical record and vault addresses for
/// (maker, id), creates the vault with custody assigned to the record's
/// derived address, funds it with the offered amount from the maker's
/// holdings, and persists the offer record — one atomic step. An id reuse
/// collides before any transfer; a short maker balance leaves no state
/// behind.
pub fn make_offer(
    ledger: &mut Ledger,
    context: MakeOffer,
    id: u64,
    token_a_offered_amount: u64,
    token_b_wanted_amount: u64,
) -> (r: Result<(), ErrorCode>)
    requires
        old(ledger).wf(),
        old(ledger).decimals_of(context.token_mint_a) is Some,
        old(ledger).decimals_of(context.token_mint_b) is Some,
    ensures
        final(ledger).wf(),
        final(ledger).namespace == old(ledger).namespace,
        final(ledger).mints@ == old(ledger).mints@,
        r == spec_make_offer_check(*old(ledger), context, id, token_a_offered_amount),
        r is Err ==> *final(ledger) == *old(ledger),
        r is Ok ==> final(ledger).offers() == old(ledger).offers().insert(
            (context.maker, id),
            spec_made_offer(old(ledger).namespace, context, id, token_b_wanted_amount),
        ),
        r is Ok ==> final(ledger).balances() == old(ledger).balances().insert(
            (Address::Account(context.maker), context.token_mint_a),
            (old(ledger).balances()[(Address::Account(context.maker), context.token_mint_a)]
                - token_a_offered_amount) as u64,
        ).insert(
            (spec_offer_address(old(ledger).namespace, context.maker, id), context.token_mint_a),
            token_a_offered_amount,
        ),
{
    if ledger.get_offer(context.maker, id).is_some() {
        return Err(ErrorCode::DuplicateRecord);
    }
    let maker_account = Address::Account(context.maker);
    let maker_balance = match ledger.token_balance(maker_account, context.token_mint_a) {
        Some(b) => b,
        None => {
            return Err(ErrorCode::RecordNotFound);
        },
    };
    if maker_balance < token_a_offered_amount {
        return Err(ErrorCode::InsufficientFunds);
    }
    let ghost pre = *ledger;
    let vault_owner = derive_offer_address(ledger.namespace, context.maker, id);
    proof {
        if acc_find(ledger.accounts@, vault_owner, context.token_mint_a) is Some {
            assert(ledger.balances().dom().contains((vault_owner, context.token_mint_a)));
            assert(ledger.offers().contains_key((context.maker, id)));
            assert(false);
        }
    }
    ledger.create_account(vault_owner, context.token_mint_a, 0);
    let ghost funded_from = *ledger;
    let sent = send_offered_tokens_to_vault(ledger, &context, id, token_a_offered_amount);
    proof {
        assert(funded_from.balances()[(vault_owner, context.token_mint_a)] == 0);
        assert(sent is Ok);
    }
    match sent {
        Ok(_) => {},
        Err(e) => {
            return Err(e);
        },
    }
    let saved = save_offer(ledger, &context, id, token_b_wanted_amount);
    proof {
        let offer = spec_made_offer(pre.namespace, context, id, token_b_wanted_amount);
        assert_maps_equal!(ledger.balances(), pre.balances().insert(
            (Address::Account(context.maker), context.token_mint_a),
            (maker_balance - token_a_offered_amount) as u64,
        ).insert(
            (spec_offer_address(pre.namespace, context.maker, id), context.token_mint_a),
            token_a_offered_amount,
        ), k => {});
        lemma_wf_after_make(
            pre,
            *ledger,
            offer,
            (maker_balance - token_a_offered_amount) as u64,
            token_a_offered_amount,
        );
    }
    saved
}

/// Take-Offer: validates the presented record against the caller-supplied
/// maker and asset identifiers, moves the wanted amount from taker to
/// maker, re-derives the vault's custodial authority from the record's
/// stored nonce, releases the vault's entire balance to the taker, and
/// closes both the vault and the record — one atomic step. Any failure
/// leaves the record, the vault and every balance exactly as before.
pub fn take_offer(ledger: &mut Ledger, context: TakeOffer) -> (r: Result<(), ErrorCode>)
    requires
        old(ledger).wf(),
        spec_take_fits(*old(ledger), context),
    ensures
        final(ledger).wf(),
        final(ledger).namespace == old(ledger).namespace,
        final(ledger).mints@ == old(ledger).mints@,
        r == spec_take_offer_check(*old(ledger), context),
        r is Err ==> *final(ledger) == *old(ledger),
        r is Ok ==> final(ledger).offers() == old(ledger).offers().remove(
            (context.maker, context.id),
        ),
        r is Ok ==> final(ledger).balances() == spec_take_balances(*old(ledger), context),
{
    let ghost pre = *ledger;
    match send_wanted_tokens_to_maker(ledger, &context) {
        Ok(_) => {},
        Err(e) => {
            return Err(e);
        },
    }
    let ghost paid = *ledger;
    proof {
        assert(spec_take_offer_check(pre, context) is Ok);
        assert(spec_withdraw_fits(paid, context));
    }
    let r = withdraw_and_close_vault(ledger, context);
    proof {
        assert(r is Ok);
        assert(ledger.balances() == spec_take_balances(pre, context));
    }
    r
}

} // verus!
