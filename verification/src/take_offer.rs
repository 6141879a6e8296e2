//! The Take-Offer protocol: validates a candidate offer record, moves the
//! wanted asset from taker to maker, releases the vault's entire balance
//! to the taker, and destroys both the vault and the record — one atomic
//! step. Every check precedes every effect, so any failure leaves the
//! ledger exactly as it was.

use vstd::prelude::*;
use crate::address::Address;
use crate::address::spec_offer_address;
use crate::error::ErrorCode;
use crate::ledger::Ledger;
use crate::ledger::lemma_acc_find_props;
use crate::ledger::lemma_wf_after_close;
use crate::shared::spec_transfer_balances;
use crate::shared::transfer_tokens;
use crate::state::Offer;

verus! {

/// The account bundle a taker presents: the taker (the transaction
/// signer), and the maker and both asset identifiers of the offer it
/// wants, supplied explicitly so the record's address can be re-derived
/// and its stored fields checked against them.
#[derive(Clone, Copy, Debug, PartialEq, Eq, Structural)]
pub struct TakeOffer {
    /// The account of the signing party accepting the offer.
    pub taker: u64,
    /// The claimed creator of the offer.
    pub maker: u64,
    /// The claimed offered-asset identifier.
    pub token_mint_a: u64,
    /// The claimed wanted-asset identifier.
    pub token_mint_b: u64,
    /// The offer id, which together with the maker locates the record.
    pub id: u64,
}

/// The balance held under `k`, or zero where no account exists yet.
pub open spec fn bal_or_zero(b: Map<(Address, u64), u64>, k: (Address, u64)) -> u64 {
    if b.dom().contains(k) {
        b[k]
    } else {
        0u64
    }
}

/// The outcome a take step is obliged to produce, decided on the
/// pre-state: a missing record fails first (this is how "already taken"
/// surfaces), then the spoofing guard on the stored maker and asset
/// identifiers, then the taker's funds — an absent taker holding account
/// surfaces as `RecordNotFound`, a short balance as `InsufficientFunds`.
/// `Ok` is owed otherwise.
pub open spec fn spec_take_offer_check(l: Ledger, context: TakeOffer) -> Result<(), ErrorCode> {
    if !l.offers().contains_key((context.maker, context.id)) {
        Err(ErrorCode::RecordNotFound)
    } else {
        let o = l.offers()[(context.maker, context.id)];
        if o.maker != context.maker || o.token_mint_a != context.token_mint_a || o.token_mint_b
            != context.token_mint_b {
            Err(ErrorCode::AddressDerivationMismatch)
        } else if !l.balances().dom().contains(
            (Address::Account(context.taker), o.token_mint_b),
        ) {
            Err(ErrorCode::RecordNotFound)
        } else if l.balances()[(Address::Account(context.taker), o.token_mint_b)]
            < o.token_b_wanted_amount {
            Err(ErrorCode::InsufficientFunds)
        } else {
            Ok(())
        }
    }
}

/// The balances after the wanted-asset leg: the maker's receiving account
/// is created if absent, then the wanted amount moves from taker to maker.
pub open spec fn spec_send_wanted_balances(
    b: Map<(Address, u64), u64>,
    taker: u64,
    maker: u64,
    mint_b: u64,
    wanted: u64,
) -> Map<(Address, u64), u64> {
    let mb = (Address::Account(maker), mint_b);
    let b0 = if b.dom().contains(mb) {
        b
    } else {
        b.insert(mb, 0u64)
    };
    spec_transfer_balances(b0, Address::Account(taker), Address::Account(maker), mint_b, wanted)
}

/// The balances after the vault leg: the taker's receiving account is
/// created if absent, the vault's entire current balance moves to the
/// taker, and the drained vault is destroyed.
pub open spec fn spec_withdraw_balances(
    b: Map<(Address, u64), u64>,
    vault_owner: Address,
    taker: u64,
    mint_a: u64,
) -> Map<(Address, u64), u64> {
    let ta = (Address::Account(taker), mint_a);
    let vk = (vault_owner, mint_a);
    let b2 = if b.dom().contains(ta) {
        b
    } else {
        b.insert(ta, 0u64)
    };
    let b3 = spec_transfer_balances(b2, vault_owner, Address::Account(taker), mint_a, b2[vk]);
    b3.remove(vk)
}

/// The balances after a whole successful take step: the wanted-asset leg,
/// then the vault leg.
pub open spec fn spec_take_balances(l: Ledger, context: TakeOffer) -> Map<(Address, u64), u64> {
    let o = l.offers()[(context.maker, context.id)];
    let b1 = spec_send_wanted_balances(
        l.balances(),
        context.taker,
        context.maker,
        o.token_mint_b,
        o.token_b_wanted_amount,
    );
    spec_withdraw_balances(
        b1,
        spec_offer_address(l.namespace, context.maker, context.id),
        context.taker,
        o.token_mint_a,
    )
}

/// The machine limit on the wanted-asset leg: the maker's balance must
/// have room for the wanted amount.
pub open spec fn spec_send_wanted_fits(l: Ledger, context: TakeOffer) -> bool {
    spec_take_offer_check(l, context) is Ok ==> {
        let o = l.offers()[(context.maker, context.id)];
        context.taker != context.maker ==> bal_or_zero(
            l.balances(),
            (Address::Account(context.maker), o.token_mint_b),
        ) + o.token_b_wanted_amount <= u64::MAX
    }
}

/// The machine limit on a whole take step: room for the wanted amount at
/// the maker and for the vault's balance at the taker.
pub open spec fn spec_take_fits(l: Ledger, context: TakeOffer) -> bool {
    spec_take_offer_check(l, context) is Ok ==> {
        let o = l.offers()[(context.maker, context.id)];
        let mb = (Address::Account(context.maker), o.token_mint_b);
        let ta = (Address::Account(context.taker), o.token_mint_a);
        let vk = (spec_offer_address(l.namespace, context.maker, context.id), o.token_mint_a);
        let b1 = spec_send_wanted_balances(
            l.balances(),
            context.taker,
            context.maker,
            o.token_mint_b,
            o.token_b_wanted_amount,
        );
        &&& (context.taker != context.maker ==> bal_or_zero(l.balances(), mb)
            + o.token_b_wanted_amount <= u64::MAX)
        &&& bal_or_zero(b1, ta) + b1[vk] <= u64::MAX
    }
}

/// The outcome of the vault leg alone, decided on its pre-state: a missing
/// record fails first, then the spoofing guard; the authority
/// re-derivation itself can never fail on a well-formed ledger, which is
/// proved rather than assumed.
pub open spec fn spec_withdraw_check(l: Ledger, context: TakeOffer) -> Result<(), ErrorCode> {
    if !l.offers().contains_key((context.maker, context.id)) {
        Err(ErrorCode::RecordNotFound)
    } else {
        let o = l.offers()[(context.maker, context.id)];
        if o.maker != context.maker || o.token_mint_a != context.token_mint_a || o.token_mint_b
            != context.token_mint_b {
            Err(ErrorCode::AddressDerivationMismatch)
        } else {
            Ok(())
        }
    }
}

/// The machine limit on the vault leg: room for the vault's balance at
/// the taker.
pub open spec fn spec_withdraw_fits(l: Ledger, context: TakeOffer) -> bool {
    spec_withdraw_check(l, context) is Ok ==> {
        let o = l.offers()[(context.maker, context.id)];
        let ta = (Address::Account(context.taker), o.token_mint_a);
        let vk = (spec_offer_address(l.namespace, context.maker, context.id), o.token_mint_a);
        bal_or_zero(l.balances(), ta) + bal_or_zero(l.balances(), vk) <= u64::MAX
    }
}

/// A capability to debit an offer's vault. It can be constructed only by
/// re-deriving the custodial address from the record's stored seeds and
/// nonce and matching it against a live vault account — the protocol's
/// substitute for a signing key the vault does not have.
pub struct VaultAuthority {
    authority: Address,
}

impl VaultAuthority {
    /// The re-derived address this capability acts as.
    pub closed spec fn address(self) -> Address {
        self.authority
    }

    /// Re-derives the custodial authority for `offer` from its stored
    /// nonce and matches it against the vault's actual owner; fails with
    /// `AddressDerivationMismatch` when no vault lives at the re-derived
    /// address.
    pub fn claim(ledger: &Ledger, offer: &Offer) -> (r: Result<VaultAuthority, ErrorCode>)
        ensures
            match r {
                Ok(cap) => {
                    &&& cap.address() == (Address::Derived {
                        namespace: ledger.namespace,
                        maker: offer.maker,
                        id: offer.id,
                        nonce: offer.bump,
                    })
                    &&& ledger.balances().dom().contains((cap.address(), offer.token_mint_a))
                },
                Err(e) => {
                    &&& e == ErrorCode::AddressDerivationMismatch
                    &&& !ledger.balances().dom().contains(
                        ((Address::Derived {
                            namespace: ledger.namespace,
                            maker: offer.maker,
                            id: offer.id,
                            nonce: offer.bump,
                        }), offer.token_mint_a),
                    )
                },
            },
    {
        let authority = Address::Derived {
            namespace: ledger.namespace,
            maker: offer.maker,
            id: offer.id,
            nonce: offer.bump,
        };
        match ledger.find_account_idx(authority, offer.token_mint_a) {
            Some(_) => Ok(VaultAuthority { authority }),
            None => Err(ErrorCode::AddressDerivationMismatch),
        }
    }

    /// The address this capability acts as, for signing the vault debit.
    pub fn authority_address(&self) -> (r: Address)
        ensures
            r == self.address(),
    {
        self.authority
    }
}

/// Step one of the take: transfers the wanted amount of the wanted asset
/// from the taker to the maker's receiving account (created if absent),
/// with decimal-precision verification. Decides the whole take step's
/// outcome: all of the take's checks run here, before any effect.
pub fn send_wanted_tokens_to_maker(ledger: &mut Ledger, context: &TakeOffer) -> (r: Result<
    (),
    ErrorCode,
>)
    requires
        old(ledger).wf(),
        spec_send_wanted_fits(*old(ledger), *context),
    ensures
        final(ledger).wf(),
        final(ledger).namespace == old(ledger).namespace,
        final(ledger).mints@ == old(ledger).mints@,
        final(ledger).offers() == old(ledger).offers(),
        r == spec_take_offer_check(*old(ledger), *context),
        r is Err ==> *final(ledger) == *old(ledger),
        r is Ok ==> final(ledger).balances() == spec_send_wanted_balances(
            old(ledger).balances(),
            context.taker,
            context.maker,
            old(ledger).offers()[(context.maker, context.id)].token_mint_b,
            old(ledger).offers()[(context.maker, context.id)].token_b_wanted_amount,
        ),
{
    let offer = match ledger.get_offer(context.maker, context.id) {
        Some(o) => o,
        None => {
            return Err(ErrorCode::RecordNotFound);
        },
    };
    if !(offer.maker == context.maker && offer.token_mint_a == context.token_mint_a
        && offer.token_mint_b == context.token_mint_b) {
        return Err(ErrorCode::AddressDerivationMismatch);
    }
    let taker_balance = match ledger.token_balance(
        Address::Account(context.taker),
        offer.token_mint_b,
    ) {
        Some(b) => b,
        None => {
            return Err(ErrorCode::RecordNotFound);
        },
    };
    if taker_balance < offer.token_b_wanted_amount {
        return Err(ErrorCode::InsufficientFunds);
    }
    let ghost pre = *ledger;
    ledger.ensure_account(context.maker, offer.token_mint_b);
    let declared_decimals = match ledger.registered_decimals(offer.token_mint_b) {
        Some(d) => d,
        None => {
            proof {
                assert(false);
            }
            return Err(ErrorCode::PrecisionMismatch);
        },
    };
    let sent = transfer_tokens(
        ledger,
        Address::Account(context.taker),
        Address::Account(context.maker),
        offer.token_b_wanted_amount,
        offer.token_mint_b,
        declared_decimals,
        Address::Account(context.taker),
    );
    proof {
        assert(sent is Ok);
    }
    match sent {
        Ok(_) => Ok(()),
        Err(e) => Err(e),
    }
}

/// Step two of the take: claims the vault's custodial authority by
/// re-deriving it from the record's stored nonce, releases the vault's
/// entire current balance — the vault, not a stored amount, is the source
/// of truth — to the taker's receiving account (created if absent), and
/// closes both the vault and the offer record. Afterwards neither exists,
/// which is what makes a second take fail with `RecordNotFound`.
pub fn withdraw_and_close_vault(ledger: &mut Ledger, context: TakeOffer) -> (r: Result<
    (),
    ErrorCode,
>)
    requires
        old(ledger).wf(),
        spec_withdraw_fits(*old(ledger), context),
    ensures
        final(ledger).wf(),
        final(ledger).namespace == old(ledger).namespace,
        final(ledger).mints@ == old(ledger).mints@,
        r == spec_withdraw_check(*old(ledger), context),
        r is Err ==> *final(ledger) == *old(ledger),
        r is Ok ==> final(ledger).offers() == old(ledger).offers().remove(
            (context.maker, context.id),
        ),
        r is Ok ==> final(ledger).balances() == spec_withdraw_balances(
            old(ledger).balances(),
            spec_offer_address(old(ledger).namespace, context.maker, context.id),
            context.taker,
            old(ledger).offers()[(context.maker, context.id)].token_mint_a,
        ),
{
    let offer = match ledger.get_offer(context.maker, context.id) {
        Some(o) => o,
        None => {
            return Err(ErrorCode::RecordNotFound);
        },
    };
    if !(offer.maker == context.maker && offer.token_mint_a == context.token_mint_a
        && offer.token_mint_b == context.token_mint_b) {
        return Err(ErrorCode::AddressDerivationMismatch);
    }
    let ghost pre = *ledger;
    let cap = match VaultAuthority::claim(ledger, &offer) {
        Ok(c) => c,
        Err(e) => {
            proof {
                assert(pre.offers().contains_key((context.maker, context.id)));
                assert(pre.balances().dom().contains(
                    (
                        spec_offer_address(pre.namespace, context.maker, context.id),
                        offer.token_mint_a,
                    ),
                ));
                assert(false);
            }
            return Err(e);
        },
    };
    let vault_owner = cap.authority_address();
    proof {
        assert(pre.offers().contains_key((context.maker, context.id)));
        assert(vault_owner == spec_offer_address(pre.namespace, context.maker, context.id));
    }
    ledger.ensure_account(context.taker, offer.token_mint_a);
    let ghost funded = *ledger;
    let vault_balance = match ledger.token_balance(vault_owner, offer.token_mint_a) {
        Some(b) => b,
        None => {
            proof {
                assert(funded.balances().dom().contains((vault_owner, offer.token_mint_a)));
                assert(false);
            }
            return Err(ErrorCode::RecordNotFound);
        },
    };
    let declared_decimals = match ledger.registered_decimals(offer.token_mint_a) {
        Some(d) => d,
        None => {
            proof {
                assert(pre.decimals_of(offer.token_mint_a) is Some);
                assert(false);
            }
            return Err(ErrorCode::PrecisionMismatch);
        },
    };
    let sent = transfer_tokens(
        ledger,
        vault_owner,
        Address::Account(context.taker),
        vault_balance,
        offer.token_mint_a,
        declared_decimals,
        vault_owner,
    );
    proof {
        assert(sent is Ok);
    }
    match sent {
        Ok(_) => {},
        Err(e) => {
            return Err(e);
        },
    }
    let ghost drained = *ledger;
    let vault_idx = match ledger.find_account_idx(vault_owner, offer.token_mint_a) {
        Some(i) => i,
        None => {
            proof {
                assert(drained.balances().dom().contains((vault_owner, offer.token_mint_a)));
                assert(false);
            }
            return Err(ErrorCode::RecordNotFound);
        },
    };
    proof {
        lemma_acc_find_props(drained.accounts@, vault_owner, offer.token_mint_a);
    }
    ledger.remove_account_at(vault_idx);
    let record_idx = match ledger.find_record_idx(context.maker, context.id) {
        Some(i) => i,
        None => {
            proof {
                assert(false);
            }
            return Err(ErrorCode::RecordNotFound);
        },
    };
    proof {
        crate::ledger::lemma_rec_find_props(ledger.records@, context.maker, context.id);
    }
    ledger.remove_record_at(record_idx);
    proof {
        lemma_wf_after_close(drained, *ledger, context.maker, context.id);
    }
    Ok(())
}

/// Single settlement: once the record for (maker, id) is gone — as it is
/// after any successful take, whose contract removes it — every take
/// against the same (maker, id) is owed exactly `RecordNotFound`,
/// whatever taker and asset identifiers it supplies, and by `take_offer`'s
/// contract it changes nothing.
pub proof fn lemma_single_settlement(l: Ledger, context: TakeOffer)
    requires
        !l.offers().contains_key((context.maker, context.id)),
    ensures
        spec_take_offer_check(l, context) == Err::<(), ErrorCode>(ErrorCode::RecordNotFound),
{
}

/// Atomic failure: a take whose taker holds less of the wanted asset than
/// the record asks for is owed exactly `InsufficientFunds` — and by
/// `take_offer`'s contract an erring call leaves the record, the vault
/// and every balance exactly as they were.
pub proof fn lemma_atomic_failure(l: Ledger, context: TakeOffer)
    requires
        l.offers().contains_key((context.maker, context.id)),
        l.offers()[(context.maker, context.id)].maker == context.maker,
        l.offers()[(context.maker, context.id)].token_mint_a == context.token_mint_a,
        l.offers()[(context.maker, context.id)].token_mint_b == context.token_mint_b,
        l.balances().dom().contains(
            (
                Address::Account(context.taker),
                l.offers()[(context.maker, context.id)].token_mint_b,
            ),
        ),
        l.balances()[(
            Address::Account(context.taker),
            l.offers()[(context.maker, context.id)].token_mint_b,
        )] < l.offers()[(context.maker, context.id)].token_b_wanted_amount,
    ensures
        spec_take_offer_check(l, context) == Err::<(), ErrorCode>(ErrorCode::InsufficientFunds),
{
}

/// Mint/maker spoofing guard: a take that supplies a maker or asset
/// identifier differing from the stored record is owed exactly
/// `AddressDerivationMismatch` — decided before any transfer, and by
/// `take_offer`'s contract it changes nothing.
pub proof fn lemma_spoofing_guard(l: Ledger, context: TakeOffer)
    requires
        l.offers().contains_key((context.maker, context.id)),
        l.offers()[(context.maker, context.id)].maker != context.maker || l.offers()[(
            context.maker,
            context.id,
        )].token_mint_a != context.token_mint_a || l.offers()[(
            context.maker,
            context.id,
        )].token_mint_b != context.token_mint_b,
    ensures
        spec_take_offer_check(l, context) == Err::<(), ErrorCode>(
            ErrorCode::AddressDerivationMismatch,
        ),
{
}

} // verus!
