//! The escrow record, its status, and the error taxonomy of the ledger.

use vstd::prelude::*;

verus! {

/// How long funds stay locked before cancellation opens up to any caller:
/// 24 hours, in seconds.
pub const LOCK_DURATION: u64 = 86400;

/// Lifecycle status of one escrow. `Locked` is the sole initial state; the
/// other three are terminal and have no outgoing transitions.
#[derive(Clone, Copy, PartialEq, Eq, Structural, Debug)]
pub enum EscrowStatus {
    Locked,
    Completed,
    Refunded,
    PartialRefunded,
}

/// Why an operation was refused. Every error aborts the whole invocation:
/// no record is changed and no funds move.
#[derive(Clone, Copy, PartialEq, Eq, Structural, Debug)]
pub enum EscrowError {
    /// A record already exists for the order id given to `create_escrow`.
    DuplicateKey,
    /// No record exists for the order id.
    NotFound,
    /// The record is not in the `Locked` state.
    InvalidState,
    /// An amount is outside its allowed range.
    InvalidArgument,
    /// The caller lacks the authorization the operation demands.
    AuthorizationFailure,
    /// The value-transfer step could not be carried out.
    TransferFailure,
}

/// One escrow record: funds of `asset` held in custody for `order_id`,
/// paid in by `payer`, owed to `payee` once the order is judged fulfilled.
#[derive(Clone, Copy, PartialEq, Eq, Structural, Debug)]
pub struct Escrow {
    pub order_id: u64,
    pub payer: u64,
    pub payee: u64,
    pub asset: u64,
    /// The amount locked at creation. While `status` is `Locked` this much is
    /// held by custody for this order; afterwards it is the historical amount.
    pub amount: i128,
    pub status: EscrowStatus,
    pub created_at: u64,
    pub expiry: u64,
}

/// One account's holding of one asset in the modelled balance book.
#[derive(Clone, Copy, PartialEq, Eq, Structural, Debug)]
pub struct BalanceEntry {
    pub asset: u64,
    pub account: u64,
    pub amount: i128,
}

/// The record a successful create writes: locked, stamped with the creation
/// time, expiring one lock duration later.
pub open spec fn new_escrow(
    order_id: u64,
    payer: u64,
    payee: u64,
    amount: i128,
    asset: u64,
    now: u64,
) -> Escrow {
    Escrow {
        order_id,
        payer,
        payee,
        asset,
        amount,
        status: EscrowStatus::Locked,
        created_at: now,
        expiry: (now + LOCK_DURATION) as u64,
    }
}

/// Well-formedness of one stored record: a positive locked amount, an expiry
/// exactly one lock duration after creation, and parties distinct from the
/// custody account (custody is the ledger's own account, never a party).
pub open spec fn escrow_ok(custody: u64, e: Escrow) -> bool {
    &&& e.amount > 0
    &&& e.expiry == e.created_at + LOCK_DURATION
    &&& e.payer != custody
    &&& e.payee != custody
}

} // verus!
