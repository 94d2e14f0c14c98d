//! The escrow ledger: the registry of escrow records, the modelled balance
//! book of the value-transfer service, and the transition engine that moves
//! records through their lifecycle while moving the funds they govern.
//!
//! Time and authorization are injected: every operation takes the current
//! logical time and the account that authorized the call as plain arguments,
//! and the whole operation either succeeds as one atomic unit or leaves the
//! ledger exactly as it was.

use vstd::prelude::*;

use crate::escrow::escrow_ok;
use crate::escrow::new_escrow;
use crate::escrow::LOCK_DURATION;
use crate::escrow::BalanceEntry;
use crate::escrow::Escrow;
use crate::escrow::EscrowError;
use crate::escrow::EscrowStatus;
use crate::model::asset_total;
use crate::model::has_balance_entry;
use crate::model::lock_contrib;
use crate::model::locked_total;
use crate::model::lookup_balance;
use crate::model::lookup_escrow;
use crate::model::nonneg_balances;
use crate::model::unique_balance_keys;
use crate::model::unique_order_ids;
use crate::model::lemma_asset_total_nonneg;
use crate::model::lemma_asset_total_push;
use crate::model::lemma_asset_total_update;
use crate::model::lemma_balance_first_match;
use crate::model::lemma_balance_le_total;
use crate::model::lemma_balance_no_match;
use crate::model::lemma_balance_nonneg;
use crate::model::lemma_balance_pair_le_total;
use crate::model::lemma_balance_push;
use crate::model::lemma_balance_update;
use crate::model::lemma_escrow_first_match;
use crate::model::lemma_escrow_no_match;
use crate::model::lemma_escrow_none_no_match;
use crate::model::lemma_escrow_push;
use crate::model::lemma_escrow_update;
use crate::model::lemma_locked_le_total;
use crate::model::lemma_locked_total_push;
use crate::model::lemma_locked_total_update;

verus! {

/// The escrow ledger. `custody` is the account the ledger itself controls:
/// locked funds sit there between creation and disposition.
pub struct EscrowLedger {
    pub custody: u64,
    pub escrows: Vec<Escrow>,
    pub balances: Vec<BalanceEntry>,
}

impl EscrowLedger {
    /// The record stored for `order_id`, if any.
    pub open spec fn escrow_of(self, order_id: u64) -> Option<Escrow> {
        lookup_escrow(self.escrows@, order_id)
    }

    /// The balance `account` holds of `asset`.
    pub open spec fn bal(self, asset: u64, account: u64) -> int {
        lookup_balance(self.balances@, asset, account)
    }

    /// Well-formedness of the balance book: one entry per key, nothing
    /// negative, and each asset's total supply fits an `i128` (so a transfer
    /// between two accounts can never overflow the recipient).
    pub open spec fn bal_wf(self) -> bool {
        &&& unique_balance_keys(self.balances@)
        &&& nonneg_balances(self.balances@)
        &&& forall|a: u64| asset_total(self.balances@, a) <= i128::MAX
    }

    /// Well-formedness of the registry: one record per order id, each record
    /// internally sound for this ledger's custody account.
    pub open spec fn esc_wf(self) -> bool {
        &&& unique_order_ids(self.escrows@)
        &&& forall|i: int|
            0 <= i < self.escrows@.len() ==> escrow_ok(self.custody, #[trigger] self.escrows@[i])
    }

    /// Custody covers every locked record: for each asset, what custody holds
    /// is at least the sum of the amounts still locked. This is what makes a
    /// release or refund of a locked escrow always payable.
    pub open spec fn solvent(self) -> bool {
        forall|a: u64| #[trigger] locked_total(self.escrows@, a) <= self.bal(a, self.custody)
    }

    /// The ledger invariant: every operation requires it and preserves it.
    pub open spec fn wf(self) -> bool {
        self.bal_wf() && self.esc_wf() && self.solvent()
    }

    /// An empty ledger around the given custody account.
    pub fn new(custody: u64) -> (r: EscrowLedger)
        ensures
            r.wf(),
            r.custody == custody,
            forall|id: u64| #[trigger] r.escrow_of(id) is None,
            forall|a: u64, acct: u64| #[trigger] r.bal(a, acct) == 0,
            forall|a: u64| #[trigger] asset_total(r.balances@, a) == 0,
    {
        let r = EscrowLedger { custody, escrows: Vec::new(), balances: Vec::new() };
        proof {
            assert(forall|id: u64| #[trigger] r.escrow_of(id) is None);
            assert(forall|a: u64, acct: u64| #[trigger] r.bal(a, acct) == 0);
            assert(forall|a: u64| asset_total(r.balances@, a) == 0);
        }
        r
    }

    /// Index of the record for `order_id`, if one is stored.
    fn find_escrow(&self, order_id: u64) -> (r: Option<usize>)
        ensures
            match r {
                Some(i) => i < self.escrows@.len() && self.escrows@[i as int].order_id == order_id
                    && self.escrow_of(order_id) == Some(self.escrows@[i as int]),
                None => self.escrow_of(order_id) is None,
            },
    {
        let n = self.escrows.len();
        let mut i: usize = 0;
        while i < n
            invariant
                i <= n,
                n == self.escrows@.len(),
                forall|k: int| 0 <= k < i ==> self.escrows@[k].order_id != order_id,
            decreases n - i,
        {
            if self.escrows[i].order_id == order_id {
                proof {
                    lemma_escrow_first_match(self.escrows@, i as int, order_id);
                }
                return Some(i);
            }
            i += 1;
        }
        proof {
            lemma_escrow_no_match(self.escrows@, order_id);
        }
        None
    }

    /// Index of the balance entry for this asset and account, if one exists.
    fn find_balance(&self, asset: u64, account: u64) -> (r: Option<usize>)
        ensures
            match r {
                Some(i) => i < self.balances@.len() && self.balances@[i as int].asset == asset
                    && self.balances@[i as int].account == account
                    && self.bal(asset, account) == self.balances@[i as int].amount as int,
                None => self.bal(asset, account) == 0 && !has_balance_entry(
                    self.balances@,
                    asset,
                    account,
                ) && forall|k: int|
                    0 <= k < self.balances@.len() ==> !(self.balances@[k].asset == asset
                        && self.balances@[k].account == account),
            },
    {
        let n = self.balances.len();
        let mut i: usize = 0;
        while i < n
            invariant
                i <= n,
                n == self.balances@.len(),
                forall|k: int|
                    0 <= k < i ==> !(self.balances@[k].asset == asset && self.balances@[k].account
                        == account),
            decreases n - i,
        {
            if self.balances[i].asset == asset && self.balances[i].account == account {
                proof {
                    lemma_balance_first_match(self.balances@, i as int, asset, account);
                }
                return Some(i);
            }
            i += 1;
        }
        proof {
            lemma_balance_no_match(self.balances@, asset, account);
        }
        None
    }

    /// The balance `account` holds of `asset`; zero when no entry exists.
    pub fn balance(&self, asset: u64, account: u64) -> (r: i128)
        ensures
            r as int == self.bal(asset, account),
    {
        match self.find_balance(asset, account) {
            Some(i) => self.balances[i].amount,
            None => 0,
        }
    }

    /// The total supply of `asset` over every account of the book.
    pub fn asset_supply(&self, asset: u64) -> (r: i128)
        requires
            self.bal_wf(),
        ensures
            r as int == asset_total(self.balances@, asset),
    {
        let ghost s = self.balances@;
        let n = self.balances.len();
        let mut total: i128 = 0;
        let mut i: usize = 0;
        proof {
            assert(s.skip(0) =~= s);
        }
        while i < n
            invariant
                i <= n,
                n == s.len(),
                s == self.balances@,
                self.bal_wf(),
                0 <= total as int,
                total as int + asset_total(s.skip(i as int), asset) == asset_total(s, asset),
            decreases n - i,
        {
            proof {
                assert(s.skip(i as int)[0] == s[i as int]);
                assert(s.skip(i as int).drop_first() =~= s.skip(i as int + 1));
                assert(forall|k: int|
                    0 <= k < s.skip(i as int + 1).len() ==> #[trigger] s.skip(i as int + 1)[k]
                        == s[k + i + 1]);
                lemma_asset_total_nonneg(s.skip(i as int + 1), asset);
                assert(asset_total(s, asset) <= i128::MAX);
            }
            if self.balances[i].asset == asset {
                total = total + self.balances[i].amount;
            }
            i += 1;
        }
        proof {
            assert(s.skip(n as int) =~= Seq::<BalanceEntry>::empty());
        }
        total
    }

    /// Index of the entry for this key, adding a zero entry when none exists.
    /// No balance changes.
    fn ensure_entry(&mut self, asset: u64, account: u64) -> (i: usize)
        requires
            old(self).bal_wf(),
        ensures
            final(self).bal_wf(),
            final(self).custody == old(self).custody,
            final(self).escrows@ == old(self).escrows@,
            i < final(self).balances@.len(),
            final(self).balances@[i as int].asset == asset,
            final(self).balances@[i as int].account == account,
            final(self).balances@[i as int].amount as int == old(self).bal(asset, account),
            old(self).balances@.len() <= final(self).balances@.len(),
            forall|k: int|
                0 <= k < old(self).balances@.len() ==> final(self).balances@[k] == old(
                    self,
                ).balances@[k],
            forall|a: u64, acct: u64| #[trigger] final(self).bal(a, acct) == old(self).bal(a, acct),
            forall|a: u64|
                #[trigger] asset_total(final(self).balances@, a) == asset_total(
                    old(self).balances@,
                    a,
                ),
    {
        match self.find_balance(asset, account) {
            Some(i) => i,
            None => {
                let e = BalanceEntry { asset, account, amount: 0 };
                let ghost s0 = self.balances@;
                let i = self.balances.len();
                self.balances.push(e);
                proof {
                    assert forall|a: u64, acct: u64| #[trigger]
                        self.bal(a, acct) == lookup_balance(s0, a, acct) by {
                        lemma_balance_push(s0, e, a, acct);
                    }
                    assert forall|a: u64| #[trigger]
                        asset_total(self.balances@, a) == asset_total(s0, a) by {
                        lemma_asset_total_push(s0, e, a);
                    }
                    assert(unique_balance_keys(self.balances@)) by {
                        assert(forall|k: int| 0 <= k < s0.len() ==> self.balances@[k] == s0[k]);
                        assert(self.balances@[i as int] == e);
                    }
                }
                i
            },
        }
    }

    /// Move `amount` of `asset` from one account of the book to another,
    /// distinct one. The caller shows the source can pay; a bounded total
    /// supply rules out overflow on the recipient side.
    fn transfer(&mut self, asset: u64, from: u64, to: u64, amount: i128)
        requires
            old(self).bal_wf(),
            from != to,
            0 <= amount,
            amount <= old(self).bal(asset, from),
        ensures
            final(self).bal_wf(),
            final(self).custody == old(self).custody,
            final(self).escrows@ == old(self).escrows@,
            moved(*old(self), *final(self), asset, from, to, amount as int),
            forall|a: u64|
                #[trigger] asset_total(final(self).balances@, a) == asset_total(
                    old(self).balances@,
                    a,
                ),
    {
        let i = self.ensure_entry(asset, from);
        let j = self.ensure_entry(asset, to);
        let ghost mid = *self;
        let from_amt = self.balances[i].amount;
        let to_amt = self.balances[j].amount;
        proof {
            assert(i != j);
            assert(self.bal(asset, from) == from_amt as int);
            assert(self.bal(asset, to) == to_amt as int);
            lemma_balance_pair_le_total(self.balances@, asset, from, to);
            assert(asset_total(self.balances@, asset) <= i128::MAX);
            lemma_balance_nonneg(self.balances@, asset, to);
            assert(to_amt as int + amount as int <= i128::MAX);
        }
        let v1 = BalanceEntry { asset, account: from, amount: from_amt - amount };
        let v2 = BalanceEntry { asset, account: to, amount: to_amt + amount };
        let ghost s1 = self.balances@;
        self.balances.set(i, v1);
        let ghost s2 = self.balances@;
        proof {
            assert(unique_balance_keys(s2)) by {
                assert(forall|k: int|
                    0 <= k < s2.len() ==> (s2[k].asset == s1[k].asset && s2[k].account
                        == s1[k].account));
            }
            assert(s2[j as int] == s1[j as int]);
        }
        self.balances.set(j, v2);
        proof {
            let s3 = self.balances@;
            assert forall|a: u64, acct: u64| #[trigger]
                self.bal(a, acct) == old(self).bal(a, acct) + (if a == asset && acct == to {
                    amount as int
                } else {
                    0
                }) - (if a == asset && acct == from {
                    amount as int
                } else {
                    0
                }) by {
                lemma_balance_update(s1, i as int, v1, a, acct);
                lemma_balance_update(s2, j as int, v2, a, acct);
                assert(mid.bal(a, acct) == old(self).bal(a, acct));
                assert(mid.bal(a, acct) == lookup_balance(s1, a, acct));
                assert(self.bal(a, acct) == lookup_balance(s3, a, acct));
            }
            assert forall|a: u64| #[trigger] asset_total(s3, a) == asset_total(s1, a) by {
                lemma_asset_total_update(s1, i as int, v1, a);
                lemma_asset_total_update(s2, j as int, v2, a);
            }
            assert(unique_balance_keys(s3)) by {
                assert(forall|k: int|
                    0 <= k < s3.len() ==> (s3[k].asset == s2[k].asset && s3[k].account
                        == s2[k].account));
            }
            assert(nonneg_balances(s3)) by {
                assert(forall|k: int|
                    0 <= k < s3.len() ==> (k != i && k != j ==> s3[k] == s1[k]));
            }
        }
    }

    /// Create `amount` new units of `asset` in `account`'s balance, as the
    /// asset's issuer would when funding a party. Refused when the amount is
    /// negative or when the asset's total supply would no longer fit an
    /// `i128` (the bound that keeps every later transfer free of overflow).
    pub fn mint(&mut self, asset: u64, account: u64, amount: i128) -> (r: Result<(), EscrowError>)
        requires
            old(self).wf(),
        ensures
            final(self).wf(),
            final(self).custody == old(self).custody,
            final(self).escrows@ == old(self).escrows@,
            forall|id: u64| #[trigger] final(self).escrow_of(id) == old(self).escrow_of(id),
            r == mint_outcome(*old(self), asset, amount),
            r is Err ==> unchanged(*old(self), *final(self)),
            r is Ok ==> forall|a: u64, acct: u64| #[trigger]
                final(self).bal(a, acct) == old(self).bal(a, acct) + (if a == asset && acct
                    == account {
                    amount as int
                } else {
                    0
                }),
    {
        if amount < 0 {
            return Err(EscrowError::InvalidArgument);
        }
        let total = self.asset_supply(asset);
        proof {
            lemma_asset_total_nonneg(self.balances@, asset);
        }
        if amount > i128::MAX - total {
            return Err(EscrowError::TransferFailure);
        }
        let i = self.ensure_entry(asset, account);
        let ghost mid = *self;
        let cur = self.balances[i].amount;
        proof {
            assert(self.bal(asset, account) == cur as int);
            lemma_balance_le_total(self.balances@, asset, account);
            lemma_balance_nonneg(self.balances@, asset, account);
            assert(asset_total(self.balances@, asset) == asset_total(old(self).balances@, asset));
            assert(cur as int + amount as int <= i128::MAX);
        }
        let v = BalanceEntry { asset, account, amount: cur + amount };
        let ghost s1 = self.balances@;
        self.balances.set(i, v);
        proof {
            let s2 = self.balances@;
            assert forall|a: u64, acct: u64| #[trigger]
                self.bal(a, acct) == old(self).bal(a, acct) + (if a == asset && acct == account {
                    amount as int
                } else {
                    0
                }) by {
                lemma_balance_update(s1, i as int, v, a, acct);
                assert(mid.bal(a, acct) == old(self).bal(a, acct));
                assert(mid.bal(a, acct) == lookup_balance(s1, a, acct));
                assert(self.bal(a, acct) == lookup_balance(s2, a, acct));
            }
            assert forall|a: u64| #[trigger]
                asset_total(s2, a) == asset_total(s1, a) + (if a == asset {
                    amount as int
                } else {
                    0
                }) by {
                lemma_asset_total_update(s1, i as int, v, a);
            }
            assert(unique_balance_keys(s2)) by {
                assert(forall|k: int|
                    0 <= k < s2.len() ==> (s2[k].asset == s1[k].asset && s2[k].account
                        == s1[k].account));
            }
            assert(nonneg_balances(s2)) by {
                assert(forall|k: int| 0 <= k < s2.len() ==> (k != i ==> s2[k] == s1[k]));
            }
            assert forall|a: u64| #[trigger] asset_total(s2, a) <= i128::MAX by {
                assert(asset_total(s1, a) == asset_total(old(self).balances@, a));
                assert(asset_total(old(self).balances@, a) <= i128::MAX);
            }
            assert forall|a: u64| #[trigger]
                locked_total(self.escrows@, a) <= self.bal(a, self.custody) by {
                assert(locked_total(self.escrows@, a) == locked_total(old(self).escrows@, a));
                assert(self.bal(a, self.custody) >= old(self).bal(a, self.custody));
            }
        }
        Ok(())
    }

    /// Create a new escrow: move `amount` of `asset` from the payer into
    /// custody and store a locked record expiring one lock duration from
    /// `now`. `auth` is the account that authorized the call; the payer must
    /// authorize the debit of its own funds. On any error nothing changes.
    pub fn create_escrow(
        &mut self,
        order_id: u64,
        payer: u64,
        payee: u64,
        amount: i128,
        asset: u64,
        auth: u64,
        now: u64,
    ) -> (r: Result<(), EscrowError>)
        requires
            old(self).wf(),
            payer != old(self).custody,
            payee != old(self).custody,
            now + LOCK_DURATION <= u64::MAX,
        ensures
            final(self).wf(),
            final(self).custody == old(self).custody,
            r == create_outcome(*old(self), order_id, payer, payee, amount, asset, auth, now),
            r is Err ==> unchanged(*old(self), *final(self)),
            r is Ok ==> create_applied(
                *old(self),
                *final(self),
                order_id,
                payer,
                payee,
                amount,
                asset,
                now,
            ),
    {
        if amount <= 0 {
            return Err(EscrowError::InvalidArgument);
        }
        if self.find_escrow(order_id).is_some() {
            return Err(EscrowError::DuplicateKey);
        }
        if auth != payer {
            return Err(EscrowError::AuthorizationFailure);
        }
        if self.balance(asset, payer) < amount {
            return Err(EscrowError::TransferFailure);
        }
        let custody = self.custody;
        self.transfer(asset, payer, custody, amount);
        let ghost mid = *self;
        let e = Escrow {
            order_id,
            payer,
            payee,
            asset,
            amount,
            status: EscrowStatus::Locked,
            created_at: now,
            expiry: now + LOCK_DURATION,
        };
        let ghost s1 = self.escrows@;
        self.escrows.push(e);
        proof {
            assert(e == new_escrow(order_id, payer, payee, amount, asset, now));
            // The push touched only the registry; every balance is as the
            // transfer left it.
            assert forall|a: u64, acct: u64| #[trigger]
                self.bal(a, acct) == mid.bal(a, acct) by {}
            assert forall|id: u64| #[trigger]
                self.escrow_of(id) == (if id == order_id {
                    Some(e)
                } else {
                    old(self).escrow_of(id)
                }) by {
                lemma_escrow_push(s1, e, id);
            }
            assert forall|a: u64| #[trigger]
                locked_total(self.escrows@, a) == locked_total(s1, a) + lock_contrib(e, a) by {
                lemma_locked_total_push(s1, e, a);
            }
            lemma_escrow_none_no_match(s1, order_id);
            assert(unique_order_ids(self.escrows@)) by {
                assert(forall|k: int| 0 <= k < s1.len() ==> self.escrows@[k] == s1[k]);
                assert(self.escrows@[s1.len() as int] == e);
            }
            assert(forall|k: int|
                0 <= k < self.escrows@.len() ==> (k < s1.len() ==> self.escrows@[k] == s1[k]));
            assert forall|a: u64| #[trigger]
                locked_total(self.escrows@, a) <= self.bal(a, self.custody) by {
                assert(self.bal(a, self.custody) == mid.bal(a, mid.custody));
                assert(mid.bal(a, mid.custody) == old(self).bal(a, old(self).custody) + (if a
                    == asset {
                    amount as int
                } else {
                    0
                }));
                assert(locked_total(s1, a) <= old(self).bal(a, old(self).custody));
            }
        }
        Ok(())
    }

    /// Release a locked escrow to the payee: the order was judged fulfilled
    /// and the payee (the releasing party) authorized the claim. Moves the
    /// full amount from custody to the payee and marks the record
    /// `Completed`. On any error nothing changes.
    pub fn complete_order(&mut self, order_id: u64, auth: u64) -> (r: Result<(), EscrowError>)
        requires
            old(self).wf(),
        ensures
            final(self).wf(),
            final(self).custody == old(self).custody,
            r == complete_outcome(*old(self), order_id, auth),
            r is Err ==> unchanged(*old(self), *final(self)),
            r is Ok ==> complete_applied(*old(self), *final(self), order_id),
    {
        let i = match self.find_escrow(order_id) {
            Some(i) => i,
            None => {
                return Err(EscrowError::NotFound);
            },
        };
        let e = self.escrows[i];
        if !(e.status == EscrowStatus::Locked) {
            return Err(EscrowError::InvalidState);
        }
        if auth != e.payee {
            return Err(EscrowError::AuthorizationFailure);
        }
        let custody = self.custody;
        proof {
            assert(escrow_ok(custody, e));
            lemma_locked_le_total(self.escrows@, order_id, e);
            assert(locked_total(self.escrows@, e.asset) <= self.bal(e.asset, custody));
        }
        self.transfer(e.asset, custody, e.payee, e.amount);
        let ghost mid = *self;
        let mut e2 = e;
        e2.status = EscrowStatus::Completed;
        let ghost s1 = self.escrows@;
        self.escrows.set(i, e2);
        proof {
            self.lemma_after_disposition(*old(self), mid, s1, i as int, e, e2, order_id, e.payee);
        }
        Ok(())
    }

    /// Cancel a locked escrow and refund the payer in full. Before expiry
    /// only the payee may authorize this (it is conceding the order); at or
    /// after expiry any caller may trigger it, so funds can never be stuck.
    /// Marks the record `Refunded`. On any error nothing changes.
    pub fn cancel_order(&mut self, order_id: u64, auth: u64, now: u64) -> (r: Result<
        (),
        EscrowError,
    >)
        requires
            old(self).wf(),
        ensures
            final(self).wf(),
            final(self).custody == old(self).custody,
            r == cancel_outcome(*old(self), order_id, auth, now),
            r is Err ==> unchanged(*old(self), *final(self)),
            r is Ok ==> cancel_applied(*old(self), *final(self), order_id),
    {
        let i = match self.find_escrow(order_id) {
            Some(i) => i,
            None => {
                return Err(EscrowError::NotFound);
            },
        };
        let e = self.escrows[i];
        if !(e.status == EscrowStatus::Locked) {
            return Err(EscrowError::InvalidState);
        }
        if now < e.expiry && auth != e.payee {
            return Err(EscrowError::AuthorizationFailure);
        }
        let custody = self.custody;
        proof {
            assert(escrow_ok(custody, e));
            lemma_locked_le_total(self.escrows@, order_id, e);
            assert(locked_total(self.escrows@, e.asset) <= self.bal(e.asset, custody));
        }
        self.transfer(e.asset, custody, e.payer, e.amount);
        let ghost mid = *self;
        let mut e2 = e;
        e2.status = EscrowStatus::Refunded;
        let ghost s1 = self.escrows@;
        self.escrows.set(i, e2);
        proof {
            self.lemma_after_disposition(*old(self), mid, s1, i as int, e, e2, order_id, e.payer);
        }
        Ok(())
    }

    /// Split a locked escrow: refund `refund_amount` to the payer and release
    /// the remainder to the payee, both from custody, as one atomic unit. The
    /// refund must be at least zero and strictly below the locked amount; the
    /// payee authorizes the reduced settlement. Marks the record
    /// `PartialRefunded`. On any error nothing changes.
    pub fn partial_refund(&mut self, order_id: u64, refund_amount: i128, auth: u64) -> (r: Result<
        (),
        EscrowError,
    >)
        requires
            old(self).wf(),
        ensures
            final(self).wf(),
            final(self).custody == old(self).custody,
            r == partial_refund_outcome(*old(self), order_id, refund_amount, auth),
            r is Err ==> unchanged(*old(self), *final(self)),
            r is Ok ==> partial_refund_applied(*old(self), *final(self), order_id, refund_amount),
    {
        let i = match self.find_escrow(order_id) {
            Some(i) => i,
            None => {
                return Err(EscrowError::NotFound);
            },
        };
        let e = self.escrows[i];
        if !(e.status == EscrowStatus::Locked) {
            return Err(EscrowError::InvalidState);
        }
        if refund_amount < 0 || refund_amount >= e.amount {
            return Err(EscrowError::InvalidArgument);
        }
        if auth != e.payee {
            return Err(EscrowError::AuthorizationFailure);
        }
        let custody = self.custody;
        proof {
            assert(escrow_ok(custody, e));
            lemma_locked_le_total(self.escrows@, order_id, e);
            assert(locked_total(self.escrows@, e.asset) <= self.bal(e.asset, custody));
        }
        let remainder = e.amount - refund_amount;
        self.transfer(e.asset, custody, e.payer, refund_amount);
        let ghost mid1 = *self;
        proof {
            assert(mid1.bal(e.asset, custody) == old(self).bal(e.asset, custody)
                - refund_amount as int);
        }
        self.transfer(e.asset, custody, e.payee, remainder);
        let ghost mid2 = *self;
        let mut e2 = e;
        e2.status = EscrowStatus::PartialRefunded;
        let ghost s1 = self.escrows@;
        self.escrows.set(i, e2);
        proof {
            assert forall|a: u64, acct: u64| #[trigger]
                self.bal(a, acct) == old(self).bal(a, acct) + (if a == e.asset && acct == e.payer {
                    refund_amount as int
                } else {
                    0
                }) + (if a == e.asset && acct == e.payee {
                    remainder as int
                } else {
                    0
                }) - (if a == e.asset && acct == custody {
                    refund_amount as int + remainder as int
                } else {
                    0
                }) by {
                assert(self.bal(a, acct) == mid2.bal(a, acct));
                assert(mid2.bal(a, acct) == mid1.bal(a, acct) + (if a == e.asset && acct
                    == e.payee {
                    remainder as int
                } else {
                    0
                }) - (if a == e.asset && acct == custody {
                    remainder as int
                } else {
                    0
                }));
                assert(mid1.bal(a, acct) == old(self).bal(a, acct) + (if a == e.asset && acct
                    == e.payer {
                    refund_amount as int
                } else {
                    0
                }) - (if a == e.asset && acct == custody {
                    refund_amount as int
                } else {
                    0
                }));
            }
            assert forall|id: u64| #[trigger]
                self.escrow_of(id) == (if id == order_id {
                    Some(e2)
                } else {
                    old(self).escrow_of(id)
                }) by {
                lemma_escrow_update(s1, i as int, e2, id);
            }
            assert forall|a: u64| #[trigger]
                locked_total(self.escrows@, a) == locked_total(s1, a) - lock_contrib(e, a)
                    + lock_contrib(e2, a) by {
                lemma_locked_total_update(s1, i as int, e2, a);
            }
            assert(unique_order_ids(self.escrows@)) by {
                assert(forall|k: int|
                    0 <= k < self.escrows@.len() ==> self.escrows@[k].order_id
                        == s1[k].order_id);
            }
            assert(forall|k: int|
                0 <= k < self.escrows@.len() ==> (k != i ==> self.escrows@[k] == s1[k]));
            assert forall|a: u64| #[trigger]
                locked_total(self.escrows@, a) <= self.bal(a, self.custody) by {
                assert(locked_total(s1, a) <= old(self).bal(a, old(self).custody));
            }
        }
        Ok(())
    }

    /// The full stored record for `order_id`; read-only, no authorization
    /// required.
    pub fn get_escrow_details(&self, order_id: u64) -> (r: Result<Escrow, EscrowError>)
        ensures
            r == query_outcome(*self, order_id),
    {
        match self.find_escrow(order_id) {
            Some(i) => Ok(self.escrows[i]),
            None => Err(EscrowError::NotFound),
        }
    }

    /// Shared tail of the three dispositions of a locked record `e` at index
    /// `i`: after the funds moved (state `mid`) the record was overwritten
    /// with `e2`, equal to `e` but for a terminal status. Re-establishes the
    /// registry view, the locked totals, and the full invariant.
    proof fn lemma_after_disposition(
        &self,
        pre: EscrowLedger,
        mid: EscrowLedger,
        s1: Seq<Escrow>,
        i: int,
        e: Escrow,
        e2: Escrow,
        order_id: u64,
        to: u64,
    )
        requires
            pre.wf(),
            0 <= i < s1.len(),
            s1 == pre.escrows@,
            s1[i] == e,
            e.order_id == order_id,
            e.status == EscrowStatus::Locked,
            e2.order_id == e.order_id && e2.payer == e.payer && e2.payee == e.payee && e2.asset
                == e.asset && e2.amount == e.amount && e2.created_at == e.created_at && e2.expiry
                == e.expiry && e2.status != EscrowStatus::Locked,
            self.custody == pre.custody,
            self.balances@ == mid.balances@,
            self.escrows@ == s1.update(i, e2),
            mid.custody == pre.custody,
            mid.bal_wf(),
            to != pre.custody,
            moved(pre, mid, e.asset, pre.custody, to, e.amount as int),
        ensures
            self.wf(),
            moved(pre, *self, e.asset, pre.custody, to, e.amount as int),
            forall|id: u64| #[trigger]
                self.escrow_of(id) == (if id == order_id {
                    Some(e2)
                } else {
                    pre.escrow_of(id)
                }),
            forall|a: u64| #[trigger]
                locked_total(self.escrows@, a) == locked_total(s1, a) - lock_contrib(e, a)
                    + lock_contrib(e2, a),
    {
        assert forall|a: u64, acct: u64| #[trigger]
            self.bal(a, acct) == pre.bal(a, acct) + (if a == e.asset && acct == to {
                e.amount as int
            } else {
                0
            }) - (if a == e.asset && acct == pre.custody {
                e.amount as int
            } else {
                0
            }) by {
            assert(self.bal(a, acct) == mid.bal(a, acct));
        }
        assert(unique_order_ids(s1));
        assert forall|id: u64| #[trigger]
            self.escrow_of(id) == (if id == order_id {
                Some(e2)
            } else {
                pre.escrow_of(id)
            }) by {
            lemma_escrow_update(s1, i, e2, id);
        }
        assert forall|a: u64| #[trigger]
            locked_total(self.escrows@, a) == locked_total(s1, a) - lock_contrib(e, a)
                + lock_contrib(e2, a) by {
            lemma_locked_total_update(s1, i, e2, a);
        }
        assert(unique_order_ids(self.escrows@)) by {
            assert(forall|k: int|
                0 <= k < self.escrows@.len() ==> self.escrows@[k].order_id == s1[k].order_id);
        }
        assert(forall|k: int|
            0 <= k < self.escrows@.len() ==> (k != i ==> self.escrows@[k] == s1[k]));
        assert(escrow_ok(self.custody, e2));
        assert forall|a: u64| #[trigger]
            locked_total(self.escrows@, a) <= self.bal(a, self.custody) by {
            assert(locked_total(s1, a) <= pre.bal(a, pre.custody));
            assert(self.bal(a, self.custody) == mid.bal(a, pre.custody));
            assert(mid.bal(a, pre.custody) == pre.bal(a, pre.custody) - (if a == e.asset {
                e.amount as int
            } else {
                0
            }));
        }
    }
}

/// Which result `create_escrow` returns, decided on the state before the
/// call. The checks run in this order: a positive amount, a fresh order id,
/// the payer's authorization, then the payer's funds.
pub open spec fn create_outcome(
    pre: EscrowLedger,
    order_id: u64,
    payer: u64,
    payee: u64,
    amount: i128,
    asset: u64,
    auth: u64,
    now: u64,
) -> Result<(), EscrowError> {
    if amount <= 0 {
        Err(EscrowError::InvalidArgument)
    } else if pre.escrow_of(order_id) is Some {
        Err(EscrowError::DuplicateKey)
    } else if auth != payer {
        Err(EscrowError::AuthorizationFailure)
    } else if pre.bal(asset, payer) < amount {
        Err(EscrowError::TransferFailure)
    } else {
        Ok(())
    }
}

/// What a successful create did: the new record is stored locked, every
/// other record is untouched, and the amount moved from the payer into
/// custody with no other balance changed and no supply created.
pub open spec fn create_applied(
    pre: EscrowLedger,
    post: EscrowLedger,
    order_id: u64,
    payer: u64,
    payee: u64,
    amount: i128,
    asset: u64,
    now: u64,
) -> bool {
    &&& post.custody == pre.custody
    &&& post.escrow_of(order_id) == Some(new_escrow(order_id, payer, payee, amount, asset, now))
    &&& (forall|id: u64| id != order_id ==> #[trigger] post.escrow_of(id) == pre.escrow_of(id))
    &&& moved(pre, post, asset, payer, pre.custody, amount as int)
    &&& (forall|a: u64| #[trigger] asset_total(post.balances@, a) == asset_total(pre.balances@, a))
}

/// Which result `complete_order` returns: the record must exist, still be
/// locked, and the payee must have authorized the release.
pub open spec fn complete_outcome(pre: EscrowLedger, order_id: u64, auth: u64) -> Result<
    (),
    EscrowError,
> {
    match pre.escrow_of(order_id) {
        None => Err(EscrowError::NotFound),
        Some(e) => if e.status != EscrowStatus::Locked {
            Err(EscrowError::InvalidState)
        } else if auth != e.payee {
            Err(EscrowError::AuthorizationFailure)
        } else {
            Ok(())
        },
    }
}

/// What a successful completion did: the record turned `Completed` with all
/// other fields kept, every other record is untouched, and the full amount
/// moved from custody to the payee.
pub open spec fn complete_applied(pre: EscrowLedger, post: EscrowLedger, order_id: u64) -> bool {
    let e = pre.escrow_of(order_id)->Some_0;
    &&& pre.escrow_of(order_id) is Some
    &&& post.custody == pre.custody
    &&& post.escrow_of(order_id) == Some(Escrow { status: EscrowStatus::Completed, ..e })
    &&& (forall|id: u64| id != order_id ==> #[trigger] post.escrow_of(id) == pre.escrow_of(id))
    &&& moved(pre, post, e.asset, pre.custody, e.payee, e.amount as int)
    &&& (forall|a: u64| #[trigger] asset_total(post.balances@, a) == asset_total(pre.balances@, a))
}

/// Which result `cancel_order` returns: the record must exist and still be
/// locked; before expiry only the payee may cancel, from expiry on anyone.
pub open spec fn cancel_outcome(pre: EscrowLedger, order_id: u64, auth: u64, now: u64) -> Result<
    (),
    EscrowError,
> {
    match pre.escrow_of(order_id) {
        None => Err(EscrowError::NotFound),
        Some(e) => if e.status != EscrowStatus::Locked {
            Err(EscrowError::InvalidState)
        } else if now < e.expiry && auth != e.payee {
            Err(EscrowError::AuthorizationFailure)
        } else {
            Ok(())
        },
    }
}

/// What a successful cancellation did: the record turned `Refunded` and the
/// full amount moved from custody back to the payer.
pub open spec fn cancel_applied(pre: EscrowLedger, post: EscrowLedger, order_id: u64) -> bool {
    let e = pre.escrow_of(order_id)->Some_0;
    &&& pre.escrow_of(order_id) is Some
    &&& post.custody == pre.custody
    &&& post.escrow_of(order_id) == Some(Escrow { status: EscrowStatus::Refunded, ..e })
    &&& (forall|id: u64| id != order_id ==> #[trigger] post.escrow_of(id) == pre.escrow_of(id))
    &&& moved(pre, post, e.asset, pre.custody, e.payer, e.amount as int)
    &&& (forall|a: u64| #[trigger] asset_total(post.balances@, a) == asset_total(pre.balances@, a))
}

/// Which result `partial_refund` returns: the record must exist and still be
/// locked, the refund must satisfy `0 <= refund_amount < amount` (a refund of
/// the full amount is rejected, not routed to a full refund), and the payee
/// must have authorized the reduced settlement.
pub open spec fn partial_refund_outcome(
    pre: EscrowLedger,
    order_id: u64,
    refund_amount: i128,
    auth: u64,
) -> Result<(), EscrowError> {
    match pre.escrow_of(order_id) {
        None => Err(EscrowError::NotFound),
        Some(e) => if e.status != EscrowStatus::Locked {
            Err(EscrowError::InvalidState)
        } else if refund_amount < 0 || refund_amount >= e.amount {
            Err(EscrowError::InvalidArgument)
        } else if auth != e.payee {
            Err(EscrowError::AuthorizationFailure)
        } else {
            Ok(())
        },
    }
}

/// What a successful partial refund did: the record turned `PartialRefunded`,
/// the refund went from custody to the payer, the remainder from custody to
/// the payee — the two releases sum to exactly the locked amount.
pub open spec fn partial_refund_applied(
    pre: EscrowLedger,
    post: EscrowLedger,
    order_id: u64,
    refund_amount: i128,
) -> bool {
    let e = pre.escrow_of(order_id)->Some_0;
    &&& pre.escrow_of(order_id) is Some
    &&& post.custody == pre.custody
    &&& post.escrow_of(order_id) == Some(Escrow { status: EscrowStatus::PartialRefunded, ..e })
    &&& (forall|id: u64| id != order_id ==> #[trigger] post.escrow_of(id) == pre.escrow_of(id))
    &&& split_moved(
        pre,
        post,
        e.asset,
        pre.custody,
        e.payer,
        refund_amount as int,
        e.payee,
        e.amount - refund_amount,
    )
    &&& (forall|a: u64| #[trigger] asset_total(post.balances@, a) == asset_total(pre.balances@, a))
}

/// Which result `get_escrow_details` returns: the stored record, or
/// `NotFound` when no record exists. The query changes nothing.
pub open spec fn query_outcome(pre: EscrowLedger, order_id: u64) -> Result<Escrow, EscrowError> {
    match pre.escrow_of(order_id) {
        None => Err(EscrowError::NotFound),
        Some(e) => Ok(e),
    }
}

/// Every balance moves by exactly what the two-way split says: `amt1` of
/// `asset` goes from `from` to `to1`, `amt2` from `from` to `to2`, and no
/// other balance changes.
pub open spec fn split_moved(
    pre: EscrowLedger,
    post: EscrowLedger,
    asset: u64,
    from: u64,
    to1: u64,
    amt1: int,
    to2: u64,
    amt2: int,
) -> bool {
    forall|a: u64, acct: u64| #[trigger]
        post.bal(a, acct) == pre.bal(a, acct) + (if a == asset && acct == to1 {
            amt1
        } else {
            0
        }) + (if a == asset && acct == to2 {
            amt2
        } else {
            0
        }) - (if a == asset && acct == from {
            amt1 + amt2
        } else {
            0
        })
}

/// The two ledgers hold exactly the same records and balances.
pub open spec fn unchanged(pre: EscrowLedger, post: EscrowLedger) -> bool {
    &&& post.custody == pre.custody
    &&& post.escrows@ == pre.escrows@
    &&& post.balances@ == pre.balances@
}

/// Every balance moves by exactly what the transfer says: `amt` of `asset`
/// leaves `from`, arrives at `to`, and no other balance changes.
pub open spec fn moved(
    pre: EscrowLedger,
    post: EscrowLedger,
    asset: u64,
    from: u64,
    to: u64,
    amt: int,
) -> bool {
    forall|a: u64, acct: u64| #[trigger]
        post.bal(a, acct) == pre.bal(a, acct) + (if a == asset && acct == to {
            amt
        } else {
            0
        }) - (if a == asset && acct == from {
            amt
        } else {
            0
        })
}

/// Which result `mint` returns, decided on the state before the call.
pub open spec fn mint_outcome(pre: EscrowLedger, asset: u64, amount: i128) -> Result<
    (),
    EscrowError,
> {
    if amount < 0 {
        Err(EscrowError::InvalidArgument)
    } else if asset_total(pre.balances@, asset) + amount > i128::MAX {
        Err(EscrowError::TransferFailure)
    } else {
        Ok(())
    }
}

} // verus!
