use swap::address::canonical_nonce;
use swap::address::derive_offer_address;
use swap::address::Address;
use swap::error::ErrorCode;
use swap::ledger::Ledger;
use swap::shared::transfer_tokens;

#[test]
fn derivation_is_deterministic_and_collision_resistant() {
    let a = derive_offer_address(7, 10, 1);
    let b = derive_offer_address(7, 10, 1);
    assert_eq!(a, b);
    assert_ne!(derive_offer_address(7, 10, 1), derive_offer_address(7, 10, 2));
    assert_ne!(derive_offer_address(7, 10, 1), derive_offer_address(7, 11, 1));
    assert_ne!(derive_offer_address(7, 10, 1), derive_offer_address(8, 10, 1));
    assert_eq!(canonical_nonce(7, 10, 1), ((7u64 ^ 10 ^ 1) % 256) as u8);
    // a derived address is never an ordinary account
    assert_ne!(derive_offer_address(7, 10, 1), Address::Account(10));
}

#[test]
fn register_mint_rejects_duplicates() {
    let mut ledger = Ledger::new(7);
    ledger.register_mint(1, 6).unwrap();
    assert_eq!(ledger.register_mint(1, 9), Err(ErrorCode::DuplicateRecord));
    assert_eq!(ledger.registered_decimals(1), Some(6));
    assert_eq!(ledger.registered_decimals(2), None);
}

#[test]
fn open_token_account_checks_mint_and_uniqueness() {
    let mut ledger = Ledger::new(7);
    assert_eq!(ledger.open_token_account(10, 1, 5), Err(ErrorCode::RecordNotFound));
    ledger.register_mint(1, 6).unwrap();
    ledger.open_token_account(10, 1, 5).unwrap();
    assert_eq!(ledger.open_token_account(10, 1, 9), Err(ErrorCode::DuplicateRecord));
    assert_eq!(ledger.token_balance(Address::Account(10), 1), Some(5));
}

#[test]
fn transfer_moves_exact_amount() {
    let mut ledger = Ledger::new(7);
    ledger.register_mint(1, 6).unwrap();
    ledger.open_token_account(10, 1, 30).unwrap();
    ledger.open_token_account(20, 1, 4).unwrap();
    transfer_tokens(
        &mut ledger,
        Address::Account(10),
        Address::Account(20),
        12,
        1,
        6,
        Address::Account(10),
    )
    .unwrap();
    assert_eq!(ledger.token_balance(Address::Account(10), 1), Some(18));
    assert_eq!(ledger.token_balance(Address::Account(20), 1), Some(16));
}

#[test]
fn transfer_rejects_wrong_declared_precision() {
    let mut ledger = Ledger::new(7);
    ledger.register_mint(1, 6).unwrap();
    ledger.open_token_account(10, 1, 30).unwrap();
    ledger.open_token_account(20, 1, 0).unwrap();
    let r = transfer_tokens(
        &mut ledger,
        Address::Account(10),
        Address::Account(20),
        12,
        1,
        5,
        Address::Account(10),
    );
    assert_eq!(r, Err(ErrorCode::PrecisionMismatch));
    assert_eq!(ledger.token_balance(Address::Account(10), 1), Some(30));
}

#[test]
fn transfer_rejects_foreign_authority() {
    let mut ledger = Ledger::new(7);
    ledger.register_mint(1, 6).unwrap();
    ledger.open_token_account(10, 1, 30).unwrap();
    ledger.open_token_account(20, 1, 0).unwrap();
    let r = transfer_tokens(
        &mut ledger,
        Address::Account(10),
        Address::Account(20),
        12,
        1,
        6,
        Address::Account(20),
    );
    assert_eq!(r, Err(ErrorCode::AddressDerivationMismatch));
    assert_eq!(ledger.token_balance(Address::Account(10), 1), Some(30));
}

#[test]
fn transfer_rejects_missing_accounts_and_short_balance() {
    let mut ledger = Ledger::new(7);
    ledger.register_mint(1, 6).unwrap();
    ledger.open_token_account(10, 1, 30).unwrap();
    let missing_to = transfer_tokens(
        &mut ledger,
        Address::Account(10),
        Address::Account(20),
        12,
        1,
        6,
        Address::Account(10),
    );
    assert_eq!(missing_to, Err(ErrorCode::RecordNotFound));
    ledger.open_token_account(20, 1, 0).unwrap();
    let short = transfer_tokens(
        &mut ledger,
        Address::Account(10),
        Address::Account(20),
        31,
        1,
        6,
        Address::Account(10),
    );
    assert_eq!(short, Err(ErrorCode::InsufficientFunds));
    assert_eq!(ledger.token_balance(Address::Account(10), 1), Some(30));
    assert_eq!(ledger.token_balance(Address::Account(20), 1), Some(0));
}

#[test]
fn namespaces_are_independent() {
    let mut first = Ledger::new(7);
    let mut second = Ledger::new(8);
    first.register_mint(1, 6).unwrap();
    second.register_mint(1, 0).unwrap();
    assert_eq!(first.registered_decimals(1), Some(6));
    assert_eq!(second.registered_decimals(1), Some(0));
    assert_ne!(derive_offer_address(7, 10, 1), derive_offer_address(8, 10, 1));
}
