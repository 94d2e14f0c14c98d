//! The ledger's laws: each lifecycle guarantee stated once, over the same
//! spec functions the operations' contracts use, and proved from them.

use vstd::prelude::*;

use crate::escrow::escrow_ok;
use crate::escrow::new_escrow;
use crate::escrow::Escrow;
use crate::escrow::EscrowError;
use crate::escrow::EscrowStatus;
use crate::escrow::LOCK_DURATION;
use crate::ledger::cancel_applied;
use crate::ledger::cancel_outcome;
use crate::ledger::complete_applied;
use crate::ledger::complete_outcome;
use crate::ledger::create_applied;
use crate::ledger::create_outcome;
use crate::ledger::partial_refund_applied;
use crate::ledger::partial_refund_outcome;
use crate::ledger::query_outcome;
use crate::ledger::EscrowLedger;
use crate::model::lemma_escrow_found_in_seq;

verus! {

/// A record the registry returns satisfies the per-record invariant; in
/// particular its parties are distinct from the custody account.
proof fn lemma_found_escrow_ok(pre: EscrowLedger, order_id: u64, e: Escrow)
    requires
        pre.wf(),
        pre.escrow_of(order_id) == Some(e),
    ensures
        escrow_ok(pre.custody, e),
{
    lemma_escrow_found_in_seq(pre.escrows@, order_id, e);
    let i = choose|i: int| 0 <= i < pre.escrows@.len() && pre.escrows@[i] == e;
    assert(escrow_ok(pre.custody, pre.escrows@[i]));
}

/// Immediately after a valid create, querying the order returns a record
/// that is `Locked`, holds the requested amount, and expires exactly one
/// lock duration after its creation time.
pub proof fn lemma_create_then_query(
    pre: EscrowLedger,
    post: EscrowLedger,
    order_id: u64,
    payer: u64,
    payee: u64,
    amount: i128,
    asset: u64,
    auth: u64,
    now: u64,
)
    requires
        now + LOCK_DURATION <= u64::MAX,
        create_outcome(pre, order_id, payer, payee, amount, asset, auth, now) is Ok,
        create_applied(pre, post, order_id, payer, payee, amount, asset, now),
    ensures
        query_outcome(post, order_id) == Ok::<Escrow, EscrowError>(
            new_escrow(order_id, payer, payee, amount, asset, now),
        ),
        new_escrow(order_id, payer, payee, amount, asset, now).status == EscrowStatus::Locked,
        new_escrow(order_id, payer, payee, amount, asset, now).amount == amount,
        new_escrow(order_id, payer, payee, amount, asset, now).created_at == now,
        new_escrow(order_id, payer, payee, amount, asset, now).expiry == now + LOCK_DURATION,
{
}

/// Creating a second escrow under an order id that already holds one always
/// fails with `DuplicateKey`, whatever the other arguments of the second
/// call are. (That a failed create changes nothing — the first escrow stays
/// as it was — is the `Err` clause of `create_escrow`'s own contract.)
pub proof fn lemma_duplicate_create_fails(
    pre: EscrowLedger,
    post: EscrowLedger,
    order_id: u64,
    payer: u64,
    payee: u64,
    amount: i128,
    asset: u64,
    now: u64,
    payer2: u64,
    payee2: u64,
    amount2: i128,
    asset2: u64,
    auth2: u64,
    now2: u64,
)
    requires
        create_applied(pre, post, order_id, payer, payee, amount, asset, now),
        amount2 > 0,
    ensures
        create_outcome(post, order_id, payer2, payee2, amount2, asset2, auth2, now2) == Err::<
            (),
            EscrowError,
        >(EscrowError::DuplicateKey),
{
}

/// Completing a locked escrow moves the full amount from custody to the
/// payee, so custody no longer holds anything for that order; completing the
/// same order again fails with `InvalidState`, whoever calls.
pub proof fn lemma_complete_pays_payee(
    pre: EscrowLedger,
    post: EscrowLedger,
    order_id: u64,
    e: Escrow,
    auth: u64,
)
    requires
        pre.wf(),
        pre.escrow_of(order_id) == Some(e),
        complete_outcome(pre, order_id, auth) is Ok,
        complete_applied(pre, post, order_id),
    ensures
        post.bal(e.asset, e.payee) == pre.bal(e.asset, e.payee) + e.amount,
        post.bal(e.asset, pre.custody) == pre.bal(e.asset, pre.custody) - e.amount,
        post.escrow_of(order_id) == Some(Escrow { status: EscrowStatus::Completed, ..e }),
        forall|auth2: u64| #[trigger]
            complete_outcome(post, order_id, auth2) == Err::<(), EscrowError>(
                EscrowError::InvalidState,
            ),
{
    lemma_found_escrow_ok(pre, order_id, e);
}

/// Before expiry, cancellation demands the payee's authorization: any other
/// caller is refused with `AuthorizationFailure` and nothing changes.
pub proof fn lemma_cancel_before_expiry_needs_payee(
    pre: EscrowLedger,
    order_id: u64,
    e: Escrow,
    auth: u64,
    now: u64,
)
    requires
        pre.escrow_of(order_id) == Some(e),
        e.status == EscrowStatus::Locked,
        now < e.expiry,
        auth != e.payee,
    ensures
        cancel_outcome(pre, order_id, auth, now) == Err::<(), EscrowError>(
            EscrowError::AuthorizationFailure,
        ),
{
}

/// From expiry on, cancellation of a locked escrow succeeds for any caller:
/// the timeout is a dead-man's switch, so funds are never stuck.
pub proof fn lemma_cancel_after_expiry_any_caller(
    pre: EscrowLedger,
    order_id: u64,
    e: Escrow,
    auth: u64,
    now: u64,
)
    requires
        pre.escrow_of(order_id) == Some(e),
        e.status == EscrowStatus::Locked,
        now >= e.expiry,
    ensures
        cancel_outcome(pre, order_id, auth, now) is Ok,
{
}

/// A successful cancellation, early or late, returns the full amount from
/// custody to the payer and marks the record `Refunded`.
pub proof fn lemma_cancel_refunds_payer(
    pre: EscrowLedger,
    post: EscrowLedger,
    order_id: u64,
    e: Escrow,
)
    requires
        pre.wf(),
        pre.escrow_of(order_id) == Some(e),
        cancel_applied(pre, post, order_id),
    ensures
        post.bal(e.asset, e.payer) == pre.bal(e.asset, e.payer) + e.amount,
        post.bal(e.asset, pre.custody) == pre.bal(e.asset, pre.custody) - e.amount,
        post.escrow_of(order_id) == Some(Escrow { status: EscrowStatus::Refunded, ..e }),
{
    lemma_found_escrow_ok(pre, order_id, e);
}

/// A partial refund splits the locked funds exactly: the payer receives the
/// refund, the payee the remainder, the two releases sum to the full amount,
/// custody gives up exactly that amount, and the record turns
/// `PartialRefunded`.
pub proof fn lemma_partial_refund_splits(
    pre: EscrowLedger,
    post: EscrowLedger,
    order_id: u64,
    e: Escrow,
    refund_amount: i128,
)
    requires
        pre.wf(),
        pre.escrow_of(order_id) == Some(e),
        0 <= refund_amount < e.amount,
        partial_refund_applied(pre, post, order_id, refund_amount),
    ensures
        refund_amount + (e.amount - refund_amount) == e.amount,
        e.payer != e.payee ==> post.bal(e.asset, e.payer) == pre.bal(e.asset, e.payer)
            + refund_amount,
        e.payer != e.payee ==> post.bal(e.asset, e.payee) == pre.bal(e.asset, e.payee) + (e.amount
            - refund_amount),
        e.payer == e.payee ==> post.bal(e.asset, e.payer) == pre.bal(e.asset, e.payer) + e.amount,
        post.bal(e.asset, pre.custody) == pre.bal(e.asset, pre.custody) - e.amount,
        post.escrow_of(order_id) == Some(Escrow { status: EscrowStatus::PartialRefunded, ..e }),
{
    lemma_found_escrow_ok(pre, order_id, e);
}

/// A refund of the full locked amount or more is always refused with
/// `InvalidArgument`; the operation's `Err` clause then leaves the record
/// locked and the funds in custody.
pub proof fn lemma_partial_refund_excess_rejected(
    pre: EscrowLedger,
    order_id: u64,
    e: Escrow,
    refund_amount: i128,
    auth: u64,
)
    requires
        pre.escrow_of(order_id) == Some(e),
        e.status == EscrowStatus::Locked,
        refund_amount >= e.amount,
    ensures
        partial_refund_outcome(pre, order_id, refund_amount, auth) == Err::<(), EscrowError>(
            EscrowError::InvalidArgument,
        ),
{
}

/// Querying an order id that holds no record always fails with `NotFound`.
pub proof fn lemma_query_missing(pre: EscrowLedger, order_id: u64)
    requires
        pre.escrow_of(order_id) is None,
    ensures
        query_outcome(pre, order_id) == Err::<Escrow, EscrowError>(EscrowError::NotFound),
{
}

} // verus!
