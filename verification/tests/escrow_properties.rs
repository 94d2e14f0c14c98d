//! Edge cases and error behaviour: each error variant from an input that
//! produces it, the expiry boundary, a zero refund, independent orders, and
//! failed operations leaving the ledger untouched.

use payment_escrow::escrow::EscrowError;
use payment_escrow::escrow::EscrowStatus;
use payment_escrow::ledger::EscrowLedger;

const CUSTOMER: u64 = 1;
const RESTAURANT: u64 = 2;
const OTHER: u64 = 3;
const CUSTODY: u64 = 100;
const TOKEN: u64 = 7;

fn setup() -> EscrowLedger {
    let mut ledger = EscrowLedger::new(CUSTODY);
    ledger.mint(TOKEN, CUSTOMER, 10000).unwrap();
    ledger
}

fn setup_locked() -> EscrowLedger {
    let mut ledger = setup();
    ledger
        .create_escrow(1, CUSTOMER, RESTAURANT, 1000, TOKEN, CUSTOMER, 0)
        .unwrap();
    ledger
}

#[test]
fn test_create_rejects_nonpositive_amount() {
    let mut ledger = setup();
    let zero = ledger.create_escrow(1, CUSTOMER, RESTAURANT, 0, TOKEN, CUSTOMER, 0);
    assert_eq!(zero, Err(EscrowError::InvalidArgument));
    let negative = ledger.create_escrow(1, CUSTOMER, RESTAURANT, -5, TOKEN, CUSTOMER, 0);
    assert_eq!(negative, Err(EscrowError::InvalidArgument));
    assert_eq!(ledger.get_escrow_details(1), Err(EscrowError::NotFound));
}

#[test]
fn test_create_requires_payer_authorization() {
    let mut ledger = setup();
    let r = ledger.create_escrow(1, CUSTOMER, RESTAURANT, 1000, TOKEN, RESTAURANT, 0);
    assert_eq!(r, Err(EscrowError::AuthorizationFailure));
    assert_eq!(ledger.balance(TOKEN, CUSTOMER), 10000);
}

#[test]
fn test_create_fails_on_insufficient_funds() {
    let mut ledger = setup();
    let r = ledger.create_escrow(1, CUSTOMER, RESTAURANT, 20000, TOKEN, CUSTOMER, 0);
    assert_eq!(r, Err(EscrowError::TransferFailure));
    assert_eq!(ledger.balance(TOKEN, CUSTOMER), 10000);
    assert_eq!(ledger.balance(TOKEN, CUSTODY), 0);
    assert_eq!(ledger.get_escrow_details(1), Err(EscrowError::NotFound));
}

#[test]
fn test_cancel_before_expiry_rejects_other_callers() {
    let mut ledger = setup_locked();
    let by_customer = ledger.cancel_order(1, CUSTOMER, 10);
    assert_eq!(by_customer, Err(EscrowError::AuthorizationFailure));
    let by_other = ledger.cancel_order(1, OTHER, 86399);
    assert_eq!(by_other, Err(EscrowError::AuthorizationFailure));

    let escrow = ledger.get_escrow_details(1).unwrap();
    assert_eq!(escrow.status, EscrowStatus::Locked);
    assert_eq!(ledger.balance(TOKEN, CUSTODY), 1000);
}

#[test]
fn test_cancel_at_exact_expiry_succeeds_for_any_caller() {
    let mut ledger = setup();
    ledger
        .create_escrow(1, CUSTOMER, RESTAURANT, 1000, TOKEN, CUSTOMER, 5)
        .unwrap();
    ledger.cancel_order(1, OTHER, 5 + 86400).unwrap();
    let escrow = ledger.get_escrow_details(1).unwrap();
    assert_eq!(escrow.status, EscrowStatus::Refunded);
    assert_eq!(ledger.balance(TOKEN, CUSTOMER), 10000);
}

#[test]
fn test_operations_on_unknown_order_fail_not_found() {
    let mut ledger = setup();
    assert_eq!(ledger.complete_order(42, RESTAURANT), Err(EscrowError::NotFound));
    assert_eq!(ledger.cancel_order(42, RESTAURANT, 0), Err(EscrowError::NotFound));
    assert_eq!(ledger.partial_refund(42, 1, RESTAURANT), Err(EscrowError::NotFound));
}

#[test]
fn test_partial_refund_of_zero_releases_everything_to_payee() {
    let mut ledger = setup_locked();
    ledger.partial_refund(1, 0, RESTAURANT).unwrap();
    let escrow = ledger.get_escrow_details(1).unwrap();
    assert_eq!(escrow.status, EscrowStatus::PartialRefunded);
    assert_eq!(ledger.balance(TOKEN, CUSTOMER), 9000);
    assert_eq!(ledger.balance(TOKEN, RESTAURANT), 1000);
    assert_eq!(ledger.balance(TOKEN, CUSTODY), 0);
}

#[test]
fn test_partial_refund_rejects_negative_amount() {
    let mut ledger = setup_locked();
    let r = ledger.partial_refund(1, -1, RESTAURANT);
    assert_eq!(r, Err(EscrowError::InvalidArgument));
    let escrow = ledger.get_escrow_details(1).unwrap();
    assert_eq!(escrow.status, EscrowStatus::Locked);
}

#[test]
fn test_partial_refund_requires_payee_authorization() {
    let mut ledger = setup_locked();
    let r = ledger.partial_refund(1, 300, CUSTOMER);
    assert_eq!(r, Err(EscrowError::AuthorizationFailure));
    assert_eq!(ledger.balance(TOKEN, CUSTODY), 1000);
}

#[test]
fn test_terminal_record_rejects_every_transition() {
    let mut ledger = setup_locked();
    ledger.cancel_order(1, RESTAURANT, 0).unwrap();

    assert_eq!(ledger.complete_order(1, RESTAURANT), Err(EscrowError::InvalidState));
    assert_eq!(ledger.cancel_order(1, OTHER, 90000), Err(EscrowError::InvalidState));
    assert_eq!(ledger.partial_refund(1, 300, RESTAURANT), Err(EscrowError::InvalidState));

    // The terminal record persists as an audit record, so its id stays taken.
    let again = ledger.create_escrow(1, CUSTOMER, RESTAURANT, 500, TOKEN, CUSTOMER, 0);
    assert_eq!(again, Err(EscrowError::DuplicateKey));
}

#[test]
fn test_failed_partial_refund_leaves_funds_in_custody() {
    let mut ledger = setup_locked();
    let r = ledger.partial_refund(1, 2000, RESTAURANT);
    assert_eq!(r, Err(EscrowError::InvalidArgument));
    let escrow = ledger.get_escrow_details(1).unwrap();
    assert_eq!(escrow.status, EscrowStatus::Locked);
    assert_eq!(ledger.balance(TOKEN, CUSTODY), 1000);
    assert_eq!(ledger.balance(TOKEN, CUSTOMER), 9000);
    assert_eq!(ledger.balance(TOKEN, RESTAURANT), 0);
}

#[test]
fn test_two_orders_are_independent() {
    let mut ledger = setup();
    ledger
        .create_escrow(1, CUSTOMER, RESTAURANT, 1000, TOKEN, CUSTOMER, 0)
        .unwrap();
    ledger
        .create_escrow(2, CUSTOMER, RESTAURANT, 2000, TOKEN, CUSTOMER, 0)
        .unwrap();
    assert_eq!(ledger.balance(TOKEN, CUSTODY), 3000);

    ledger.complete_order(1, RESTAURANT).unwrap();
    assert_eq!(ledger.balance(TOKEN, CUSTODY), 2000);
    assert_eq!(ledger.balance(TOKEN, RESTAURANT), 1000);
    assert_eq!(
        ledger.get_escrow_details(2).unwrap().status,
        EscrowStatus::Locked
    );

    ledger.cancel_order(2, OTHER, 90000).unwrap();
    assert_eq!(ledger.balance(TOKEN, CUSTODY), 0);
    assert_eq!(ledger.balance(TOKEN, CUSTOMER), 7000 + 2000);
}

#[test]
fn test_mint_rejects_negative_and_oversized_amounts() {
    let mut ledger = EscrowLedger::new(CUSTODY);
    assert_eq!(ledger.mint(TOKEN, CUSTOMER, -1), Err(EscrowError::InvalidArgument));
    ledger.mint(TOKEN, CUSTOMER, i128::MAX).unwrap();
    // The asset's total supply may not outgrow an i128.
    assert_eq!(ledger.mint(TOKEN, OTHER, 1), Err(EscrowError::TransferFailure));
    assert_eq!(ledger.balance(TOKEN, OTHER), 0);
}

#[test]
fn test_assets_are_kept_apart() {
    let mut ledger = setup();
    ledger.mint(8, CUSTOMER, 500).unwrap();
    ledger
        .create_escrow(1, CUSTOMER, RESTAURANT, 500, 8, CUSTOMER, 0)
        .unwrap();
    assert_eq!(ledger.balance(8, CUSTOMER), 0);
    assert_eq!(ledger.balance(8, CUSTODY), 500);
    assert_eq!(ledger.balance(TOKEN, CUSTOMER), 10000);
    assert_eq!(ledger.balance(TOKEN, CUSTODY), 0);
}
