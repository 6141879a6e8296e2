//! The shared transfer/authorization helper both protocols build on.
//!
//! A transfer moves units of one asset between two holding accounts. It
//! fails — leaving the ledger untouched — when the declared decimal
//! precision does not match the asset's registered precision, when either
//! account is absent, when the authority is not the paying account's owner,
//! or when the payer's balance is short.

use vstd::prelude::*;
use crate::address::Address;
use crate::error::ErrorCode;
use crate::ledger::Ledger;
use crate::ledger::acc_find;
use crate::ledger::lemma_acc_find_props;
use crate::ledger::lemma_wf_after_account_insert;

verus! {

/// The outcome a transfer is obliged to produce, decided on the pre-state:
/// the first failing check names the error, and `Ok` is owed otherwise.
pub open spec fn spec_transfer_check(
    l: Ledger,
    from_owner: Address,
    to_owner: Address,
    mint: u64,
    amount: u64,
    declared_decimals: u8,
    authority: Address,
) -> Result<(), ErrorCode> {
    if l.decimals_of(mint) != Some(declared_decimals) {
        Err(ErrorCode::PrecisionMismatch)
    } else if !l.balances().dom().contains((from_owner, mint)) {
        Err(ErrorCode::RecordNotFound)
    } else if !l.balances().dom().contains((to_owner, mint)) {
        Err(ErrorCode::RecordNotFound)
    } else if authority != from_owner {
        Err(ErrorCode::AddressDerivationMismatch)
    } else if l.balances()[(from_owner, mint)] < amount {
        Err(ErrorCode::InsufficientFunds)
    } else {
        Ok(())
    }
}

/// The balances after a successful transfer: the payer debited, then the
/// receiver credited (so a self-transfer leaves the balance unchanged).
pub open spec fn spec_transfer_balances(
    b: Map<(Address, u64), u64>,
    from_owner: Address,
    to_owner: Address,
    mint: u64,
    amount: u64,
) -> Map<(Address, u64), u64> {
    let b1 = b.insert((from_owner, mint), (b[(from_owner, mint)] - amount) as u64);
    b1.insert((to_owner, mint), (b1[(to_owner, mint)] + amount) as u64)
}

/// The machine limit on a transfer: a successful transfer must not carry
/// the receiving balance past the width of its integer.
pub open spec fn spec_transfer_fits(
    l: Ledger,
    from_owner: Address,
    to_owner: Address,
    mint: u64,
    amount: u64,
    declared_decimals: u8,
    authority: Address,
) -> bool {
    spec_transfer_check(l, from_owner, to_owner, mint, amount, declared_decimals, authority) is Ok
        && from_owner != to_owner ==> l.balances()[(to_owner, mint)] + amount <= u64::MAX
}

/// Moves `amount` units of `mint` from the account owned by `from_owner`
/// to the account owned by `to_owner`, after verifying the declared
/// decimal precision against the mint's registered precision and the
/// authority against the paying account's owner. On any failure the ledger
/// is left exactly as it was.
pub fn transfer_tokens(
    ledger: &mut Ledger,
    from_owner: Address,
    to_owner: Address,
    amount: u64,
    mint: u64,
    declared_decimals: u8,
    authority: Address,
) -> (r: Result<(), ErrorCode>)
    requires
        crate::ledger::acc_keys_unique(old(ledger).accounts@),
        spec_transfer_fits(
            *old(ledger),
            from_owner,
            to_owner,
            mint,
            amount,
            declared_decimals,
            authority,
        ),
    ensures
        crate::ledger::acc_keys_unique(final(ledger).accounts@),
        old(ledger).wf() ==> final(ledger).wf(),
        final(ledger).namespace == old(ledger).namespace,
        final(ledger).mints@ == old(ledger).mints@,
        final(ledger).records@ == old(ledger).records@,
        final(ledger).offers() == old(ledger).offers(),
        r == spec_transfer_check(
            *old(ledger),
            from_owner,
            to_owner,
            mint,
            amount,
            declared_decimals,
            authority,
        ),
        r is Ok ==> final(ledger).balances() == spec_transfer_balances(
            old(ledger).balances(),
            from_owner,
            to_owner,
            mint,
            amount,
        ),
        r is Err ==> *final(ledger) == *old(ledger),
{
    let declared_ok = match ledger.registered_decimals(mint) {
        Some(d) => d == declared_decimals,
        None => false,
    };
    if !declared_ok {
        return Err(ErrorCode::PrecisionMismatch);
    }
    let from_idx = match ledger.find_account_idx(from_owner, mint) {
        Some(i) => i,
        None => {
            return Err(ErrorCode::RecordNotFound);
        },
    };
    if ledger.find_account_idx(to_owner, mint).is_none() {
        return Err(ErrorCode::RecordNotFound);
    }
    if !(authority == from_owner) {
        return Err(ErrorCode::AddressDerivationMismatch);
    }
    let from_balance = ledger.accounts[from_idx].balance;
    if from_balance < amount {
        return Err(ErrorCode::InsufficientFunds);
    }
    let ghost pre = *ledger;
    proof {
        lemma_acc_find_props(pre.accounts@, from_owner, mint);
        assert(pre.balances()[(from_owner, mint)] == from_balance);
    }
    ledger.set_balance_at(from_idx, from_balance - amount);
    let ghost mid = *ledger;
    proof {
        if pre.wf() {
            lemma_wf_after_account_insert(
                pre,
                mid,
                from_owner,
                mint,
                (from_balance - amount) as u64,
            );
        }
    }
    let to_idx = match ledger.find_account_idx(to_owner, mint) {
        Some(i) => i,
        None => {
            proof {
                assert(mid.balances().dom().contains((to_owner, mint)));
                assert(false);
            }
            return Err(ErrorCode::RecordNotFound);
        },
    };
    let to_balance = ledger.accounts[to_idx].balance;
    proof {
        lemma_acc_find_props(mid.accounts@, to_owner, mint);
        assert(mid.balances()[(to_owner, mint)] == to_balance);
        if to_owner == from_owner {
            assert(to_balance == from_balance - amount);
        } else {
            assert(to_balance == pre.balances()[(to_owner, mint)]);
        }
        assert(to_balance + amount <= u64::MAX);
    }
    ledger.set_balance_at(to_idx, to_balance + amount);
    proof {
        if pre.wf() {
            lemma_wf_after_account_insert(
                mid,
                *ledger,
                to_owner,
                mint,
                (to_balance + amount) as u64,
            );
        }
        assert(ledger.balances() == spec_transfer_balances(
            pre.balances(),
            from_owner,
            to_owner,
            mint,
            amount,
        ));
    }
    Ok(())
}

} // verus!
