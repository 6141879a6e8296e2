use swap::address::derive_offer_address;
use swap::address::Address;
use swap::error::ErrorCode;
use swap::ledger::Ledger;
use swap::make_offer::MakeOffer;
use swap::take_offer::TakeOffer;

const NAMESPACE: u64 = 7;
const MAKER: u64 = 10;
const TAKER: u64 = 20;
const MINT_A: u64 = 1;
const MINT_B: u64 = 2;

fn setup() -> Ledger {
    let mut ledger = Ledger::new(NAMESPACE);
    ledger.register_mint(MINT_A, 6).unwrap();
    ledger.register_mint(MINT_B, 9).unwrap();
    ledger
}

fn make_context() -> MakeOffer {
    MakeOffer { maker: MAKER, token_mint_a: MINT_A, token_mint_b: MINT_B }
}

fn take_context(taker: u64) -> TakeOffer {
    TakeOffer { taker, maker: MAKER, token_mint_a: MINT_A, token_mint_b: MINT_B, id: 1 }
}

fn setup_with_offer() -> Ledger {
    let mut ledger = setup();
    ledger.open_token_account(MAKER, MINT_A, 100).unwrap();
    swap::make_offer(&mut ledger, make_context(), 1, 100, 50).unwrap();
    ledger
}

#[test]
fn scenario_make_offer_funds_vault() {
    let mut ledger = setup();
    ledger.open_token_account(MAKER, MINT_A, 100).unwrap();
    swap::make_offer(&mut ledger, make_context(), 1, 100, 50).unwrap();

    let vault_owner = derive_offer_address(NAMESPACE, MAKER, 1);
    assert_eq!(ledger.token_balance(vault_owner, MINT_A), Some(100));
    assert_eq!(ledger.token_balance(Address::Account(MAKER), MINT_A), Some(0));

    let offer = ledger.get_offer(MAKER, 1).unwrap();
    assert_eq!(offer.id, 1);
    assert_eq!(offer.maker, MAKER);
    assert_eq!(offer.token_mint_a, MINT_A);
    assert_eq!(offer.token_mint_b, MINT_B);
    assert_eq!(offer.token_b_wanted_amount, 50);
}

#[test]
fn scenario_take_offer_settles() {
    let mut ledger = setup_with_offer();
    ledger.open_token_account(TAKER, MINT_B, 50).unwrap();

    swap::take_offer(&mut ledger, take_context(TAKER)).unwrap();

    assert_eq!(ledger.token_balance(Address::Account(MAKER), MINT_B), Some(50));
    assert_eq!(ledger.token_balance(Address::Account(TAKER), MINT_B), Some(0));
    assert_eq!(ledger.token_balance(Address::Account(TAKER), MINT_A), Some(100));
    let vault_owner = derive_offer_address(NAMESPACE, MAKER, 1);
    assert_eq!(ledger.token_balance(vault_owner, MINT_A), None);
    assert!(ledger.get_offer(MAKER, 1).is_none());
}

#[test]
fn scenario_second_take_fails() {
    let mut ledger = setup_with_offer();
    ledger.open_token_account(TAKER, MINT_B, 50).unwrap();
    swap::take_offer(&mut ledger, take_context(TAKER)).unwrap();

    let second_taker: u64 = 30;
    ledger.open_token_account(second_taker, MINT_B, 80).unwrap();
    let r = swap::take_offer(&mut ledger, take_context(second_taker));
    assert_eq!(r, Err(ErrorCode::RecordNotFound));

    assert_eq!(ledger.token_balance(Address::Account(second_taker), MINT_B), Some(80));
    assert_eq!(ledger.token_balance(Address::Account(MAKER), MINT_B), Some(50));
    assert_eq!(ledger.token_balance(Address::Account(TAKER), MINT_A), Some(100));
}

#[test]
fn scenario_insufficient_taker_balance() {
    let mut ledger = setup_with_offer();
    ledger.open_token_account(TAKER, MINT_B, 40).unwrap();

    let r = swap::take_offer(&mut ledger, take_context(TAKER));
    assert_eq!(r, Err(ErrorCode::InsufficientFunds));

    let vault_owner = derive_offer_address(NAMESPACE, MAKER, 1);
    assert_eq!(ledger.token_balance(vault_owner, MINT_A), Some(100));
    assert_eq!(ledger.token_balance(Address::Account(TAKER), MINT_B), Some(40));
    assert!(ledger.get_offer(MAKER, 1).is_some());
}

#[test]
fn duplicate_offer_id_rejected() {
    let mut ledger = setup();
    ledger.open_token_account(MAKER, MINT_A, 100).unwrap();
    swap::make_offer(&mut ledger, make_context(), 1, 60, 50).unwrap();

    let r = swap::make_offer(&mut ledger, make_context(), 1, 10, 5);
    assert_eq!(r, Err(ErrorCode::DuplicateRecord));
    assert_eq!(ledger.token_balance(Address::Account(MAKER), MINT_A), Some(40));

    swap::make_offer(&mut ledger, make_context(), 2, 10, 5).unwrap();
    assert_eq!(ledger.token_balance(Address::Account(MAKER), MINT_A), Some(30));
}

#[test]
fn spoofed_mint_rejected() {
    let mut ledger = setup_with_offer();
    ledger.register_mint(3, 4).unwrap();
    ledger.open_token_account(TAKER, MINT_B, 50).unwrap();

    let spoofed = TakeOffer { taker: TAKER, maker: MAKER, token_mint_a: MINT_A, token_mint_b: 3, id: 1 };
    let r = swap::take_offer(&mut ledger, spoofed);
    assert_eq!(r, Err(ErrorCode::AddressDerivationMismatch));

    let spoofed_a = TakeOffer { taker: TAKER, maker: MAKER, token_mint_a: 3, token_mint_b: MINT_B, id: 1 };
    let r = swap::take_offer(&mut ledger, spoofed_a);
    assert_eq!(r, Err(ErrorCode::AddressDerivationMismatch));

    assert_eq!(ledger.token_balance(Address::Account(TAKER), MINT_B), Some(50));
    let vault_owner = derive_offer_address(NAMESPACE, MAKER, 1);
    assert_eq!(ledger.token_balance(vault_owner, MINT_A), Some(100));
}

#[test]
fn spoofed_maker_not_found() {
    let mut ledger = setup_with_offer();
    ledger.open_token_account(TAKER, MINT_B, 50).unwrap();

    let wrong_maker = TakeOffer { taker: TAKER, maker: 11, token_mint_a: MINT_A, token_mint_b: MINT_B, id: 1 };
    let r = swap::take_offer(&mut ledger, wrong_maker);
    assert_eq!(r, Err(ErrorCode::RecordNotFound));
    assert_eq!(ledger.token_balance(Address::Account(TAKER), MINT_B), Some(50));
}

#[test]
fn make_offer_insufficient_maker_balance() {
    let mut ledger = setup();
    ledger.open_token_account(MAKER, MINT_A, 100).unwrap();

    let r = swap::make_offer(&mut ledger, make_context(), 1, 150, 50);
    assert_eq!(r, Err(ErrorCode::InsufficientFunds));
    assert_eq!(ledger.token_balance(Address::Account(MAKER), MINT_A), Some(100));
    assert!(ledger.get_offer(MAKER, 1).is_none());
    let vault_owner = derive_offer_address(NAMESPACE, MAKER, 1);
    assert_eq!(ledger.token_balance(vault_owner, MINT_A), None);
}

#[test]
fn make_offer_missing_maker_account() {
    let mut ledger = setup();
    let r = swap::make_offer(&mut ledger, make_context(), 1, 100, 50);
    assert_eq!(r, Err(ErrorCode::RecordNotFound));
    assert!(ledger.get_offer(MAKER, 1).is_none());
}

#[test]
fn vault_current_balance_is_released() {
    // The vault, not a recorded amount, is the source of truth for how
    // much a take releases: a top-up after creation goes to the taker.
    let mut ledger = setup_with_offer();
    let helper: u64 = 40;
    ledger.open_token_account(helper, MINT_A, 20).unwrap();
    let vault_owner = derive_offer_address(NAMESPACE, MAKER, 1);
    swap::shared::transfer_tokens(
        &mut ledger,
        Address::Account(helper),
        vault_owner,
        20,
        MINT_A,
        6,
        Address::Account(helper),
    )
    .unwrap();
    assert_eq!(ledger.token_balance(vault_owner, MINT_A), Some(120));

    ledger.open_token_account(TAKER, MINT_B, 50).unwrap();
    swap::take_offer(&mut ledger, take_context(TAKER)).unwrap();
    assert_eq!(ledger.token_balance(Address::Account(TAKER), MINT_A), Some(120));
}

#[test]
fn maker_takes_own_offer() {
    let mut ledger = setup_with_offer();
    ledger.open_token_account(MAKER, MINT_B, 50).unwrap();

    swap::take_offer(&mut ledger, take_context(MAKER)).unwrap();

    // the maker pays itself the wanted amount and reclaims the escrow
    assert_eq!(ledger.token_balance(Address::Account(MAKER), MINT_B), Some(50));
    assert_eq!(ledger.token_balance(Address::Account(MAKER), MINT_A), Some(100));
    assert!(ledger.get_offer(MAKER, 1).is_none());
}
