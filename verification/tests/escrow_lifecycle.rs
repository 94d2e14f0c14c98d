//! The escrow lifecycle end to end: create, complete, cancel before and
//! after the timeout, partial refund, and the query.

use payment_escrow::escrow::EscrowError;
use payment_escrow::escrow::EscrowStatus;
use payment_escrow::ledger::EscrowLedger;

const CUSTOMER: u64 = 1;
const RESTAURANT: u64 = 2;
const OTHER: u64 = 3;
const CUSTODY: u64 = 100;
const TOKEN: u64 = 7;

/// A ledger whose custody account is `CUSTODY`, with the customer funded.
fn setup() -> EscrowLedger {
    let mut ledger = EscrowLedger::new(CUSTODY);
    ledger.mint(TOKEN, CUSTOMER, 10000).unwrap();
    ledger
}

#[test]
fn test_create_escrow_success() {
    let mut ledger = setup();

    let order_id = 1u64;
    let amount = 1000i128;

    ledger
        .create_escrow(order_id, CUSTOMER, RESTAURANT, amount, TOKEN, CUSTOMER, 0)
        .unwrap();

    let escrow = ledger.get_escrow_details(order_id).unwrap();
    assert_eq!(escrow.payer, CUSTOMER);
    assert_eq!(escrow.payee, RESTAURANT);
    assert_eq!(escrow.amount, amount);
    assert_eq!(escrow.status, EscrowStatus::Locked);

    assert_eq!(ledger.balance(TOKEN, CUSTODY), amount);
    assert_eq!(ledger.balance(TOKEN, CUSTOMER), 10000 - amount);
}

#[test]
fn test_create_escrow_duplicate() {
    let mut ledger = setup();

    let order_id = 1u64;
    let amount = 1000i128;

    ledger
        .create_escrow(order_id, CUSTOMER, RESTAURANT, amount, TOKEN, CUSTOMER, 0)
        .unwrap();
    let second = ledger.create_escrow(order_id, CUSTOMER, RESTAURANT, amount, TOKEN, CUSTOMER, 0);
    assert_eq!(second, Err(EscrowError::DuplicateKey));
}

#[test]
fn test_complete_order_success() {
    let mut ledger = setup();

    let order_id = 1u64;
    let amount = 1000i128;

    ledger
        .create_escrow(order_id, CUSTOMER, RESTAURANT, amount, TOKEN, CUSTOMER, 0)
        .unwrap();

    ledger.complete_order(order_id, RESTAURANT).unwrap();

    let escrow = ledger.get_escrow_details(order_id).unwrap();
    assert_eq!(escrow.status, EscrowStatus::Completed);

    assert_eq!(ledger.balance(TOKEN, RESTAURANT), amount);
    assert_eq!(ledger.balance(TOKEN, CUSTODY), 0);
}

#[test]
fn test_complete_order_already_completed() {
    let mut ledger = setup();

    let order_id = 1u64;
    let amount = 1000i128;

    ledger
        .create_escrow(order_id, CUSTOMER, RESTAURANT, amount, TOKEN, CUSTOMER, 0)
        .unwrap();
    ledger.complete_order(order_id, RESTAURANT).unwrap();

    let again = ledger.complete_order(order_id, RESTAURANT);
    assert_eq!(again, Err(EscrowError::InvalidState));
}

#[test]
fn test_cancel_order_before_timeout_with_restaurant_auth() {
    let mut ledger = setup();

    let order_id = 1u64;
    let amount = 1000i128;

    ledger
        .create_escrow(order_id, CUSTOMER, RESTAURANT, amount, TOKEN, CUSTOMER, 0)
        .unwrap();

    // Before the timeout only the payee (the restaurant) may cancel.
    ledger.cancel_order(order_id, RESTAURANT, 0).unwrap();

    let escrow = ledger.get_escrow_details(order_id).unwrap();
    assert_eq!(escrow.status, EscrowStatus::Refunded);
    assert_eq!(ledger.balance(TOKEN, CUSTOMER), 10000);
    assert_eq!(ledger.balance(TOKEN, CUSTODY), 0);
}

#[test]
fn test_cancel_order_after_timeout() {
    let mut ledger = setup();

    let order_id = 1u64;
    let amount = 1000i128;

    ledger
        .create_escrow(order_id, CUSTOMER, RESTAURANT, amount, TOKEN, CUSTOMER, 0)
        .unwrap();

    // 25 hours later, past the 24-hour expiry, anyone may cancel.
    let later = 25 * 60 * 60;
    ledger.cancel_order(order_id, OTHER, later).unwrap();

    let escrow = ledger.get_escrow_details(order_id).unwrap();
    assert_eq!(escrow.status, EscrowStatus::Refunded);
    assert_eq!(ledger.balance(TOKEN, CUSTOMER), 10000);
}

#[test]
fn test_partial_refund_success() {
    let mut ledger = setup();

    let order_id = 1u64;
    let amount = 1000i128;
    let refund_amount = 300i128;

    ledger
        .create_escrow(order_id, CUSTOMER, RESTAURANT, amount, TOKEN, CUSTOMER, 0)
        .unwrap();

    ledger
        .partial_refund(order_id, refund_amount, RESTAURANT)
        .unwrap();

    let escrow = ledger.get_escrow_details(order_id).unwrap();
    assert_eq!(escrow.status, EscrowStatus::PartialRefunded);

    assert_eq!(ledger.balance(TOKEN, CUSTOMER), 10000 - amount + refund_amount);
    assert_eq!(ledger.balance(TOKEN, RESTAURANT), amount - refund_amount);
    assert_eq!(ledger.balance(TOKEN, CUSTODY), 0);
}

#[test]
fn test_partial_refund_exceeds_amount() {
    let mut ledger = setup();

    let order_id = 1u64;
    let amount = 1000i128;

    ledger
        .create_escrow(order_id, CUSTOMER, RESTAURANT, amount, TOKEN, CUSTOMER, 0)
        .unwrap();

    // A refund equal to the full amount is rejected, not routed to a full
    // refund.
    let r = ledger.partial_refund(order_id, 1000, RESTAURANT);
    assert_eq!(r, Err(EscrowError::InvalidArgument));
}

#[test]
fn test_get_nonexistent_order() {
    let ledger = EscrowLedger::new(CUSTODY);
    let r = ledger.get_escrow_details(999);
    assert_eq!(r, Err(EscrowError::NotFound));
}

#[test]
fn test_escrow_expiry_set_correctly() {
    let mut ledger = setup();

    let order_id = 1u64;
    let amount = 1000i128;
    let start_time = 5000u64;

    ledger
        .create_escrow(order_id, CUSTOMER, RESTAURANT, amount, TOKEN, CUSTOMER, start_time)
        .unwrap();

    let escrow = ledger.get_escrow_details(order_id).unwrap();
    assert_eq!(escrow.expiry, start_time + (24 * 60 * 60));
    assert_eq!(escrow.created_at, start_time);
}
