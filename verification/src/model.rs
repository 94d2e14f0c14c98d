//! The mathematical model of the two stores: first-match lookup over the
//! registry and the balance book, per-asset sums, and the lemmas that relate
//! them to point updates and pushes.

use vstd::prelude::*;

use crate::escrow::BalanceEntry;
use crate::escrow::Escrow;
use crate::escrow::EscrowStatus;

verus! {

/// The record stored for `order_id`, if any.
pub open spec fn lookup_escrow(s: Seq<Escrow>, order_id: u64) -> Option<Escrow>
    decreases s.len(),
{
    if s.len() == 0 {
        None
    } else if s[0].order_id == order_id {
        Some(s[0])
    } else {
        lookup_escrow(s.drop_first(), order_id)
    }
}

/// The balance `account` holds of `asset`; zero when no entry exists.
pub open spec fn lookup_balance(s: Seq<BalanceEntry>, asset: u64, account: u64) -> int
    decreases s.len(),
{
    if s.len() == 0 {
        0
    } else if s[0].asset == asset && s[0].account == account {
        s[0].amount as int
    } else {
        lookup_balance(s.drop_first(), asset, account)
    }
}

/// Whether the book holds an entry for this asset and account (its amount
/// may be zero, so this is not the same as a nonzero balance).
pub open spec fn has_balance_entry(s: Seq<BalanceEntry>, asset: u64, account: u64) -> bool
    decreases s.len(),
{
    if s.len() == 0 {
        false
    } else if s[0].asset == asset && s[0].account == account {
        true
    } else {
        has_balance_entry(s.drop_first(), asset, account)
    }
}

/// What one entry contributes to the total supply of `asset`.
pub open spec fn bal_contrib(e: BalanceEntry, asset: u64) -> int {
    if e.asset == asset {
        e.amount as int
    } else {
        0
    }
}

/// The total supply of `asset` across every account.
pub open spec fn asset_total(s: Seq<BalanceEntry>, asset: u64) -> int
    decreases s.len(),
{
    if s.len() == 0 {
        0
    } else {
        bal_contrib(s[0], asset) + asset_total(s.drop_first(), asset)
    }
}

/// What one record contributes to the funds custody must hold for `asset`:
/// its amount while locked, nothing once terminal.
pub open spec fn lock_contrib(e: Escrow, asset: u64) -> int {
    if e.asset == asset && e.status == EscrowStatus::Locked {
        e.amount as int
    } else {
        0
    }
}

/// The funds custody owes across every locked record of `asset`.
pub open spec fn locked_total(s: Seq<Escrow>, asset: u64) -> int
    decreases s.len(),
{
    if s.len() == 0 {
        0
    } else {
        lock_contrib(s[0], asset) + locked_total(s.drop_first(), asset)
    }
}

/// No two entries of the balance book share an (asset, account) key.
pub open spec fn unique_balance_keys(s: Seq<BalanceEntry>) -> bool {
    forall|i: int, j: int|
        0 <= i < j < s.len() ==> !(s[i].asset == s[j].asset && s[i].account == s[j].account)
}

/// No two records of the registry share an order id.
pub open spec fn unique_order_ids(s: Seq<Escrow>) -> bool {
    forall|i: int, j: int| 0 <= i < j < s.len() ==> s[i].order_id != s[j].order_id
}

/// Every entry of the balance book is non-negative.
pub open spec fn nonneg_balances(s: Seq<BalanceEntry>) -> bool {
    forall|i: int| 0 <= i < s.len() ==> s[i].amount >= 0
}

/// A match at `i` with no match before it is the match lookup returns.
pub proof fn lemma_escrow_first_match(s: Seq<Escrow>, i: int, order_id: u64)
    requires
        0 <= i < s.len(),
        s[i].order_id == order_id,
        forall|k: int| 0 <= k < i ==> s[k].order_id != order_id,
    ensures
        lookup_escrow(s, order_id) == Some(s[i]),
    decreases i,
{
    if i > 0 {
        assert(forall|k: int|
            0 <= k < i - 1 ==> s.drop_first()[k].order_id != order_id) by {
            assert(forall|k: int| 0 <= k < i - 1 ==> s.drop_first()[k] == s[k + 1]);
        }
        lemma_escrow_first_match(s.drop_first(), i - 1, order_id);
    }
}

/// Without any match, lookup finds nothing.
pub proof fn lemma_escrow_no_match(s: Seq<Escrow>, order_id: u64)
    requires
        forall|k: int| 0 <= k < s.len() ==> s[k].order_id != order_id,
    ensures
        lookup_escrow(s, order_id) is None,
    decreases s.len(),
{
    if s.len() > 0 {
        assert(forall|k: int| 0 <= k < s.len() - 1 ==> s.drop_first()[k] == s[k + 1]);
        lemma_escrow_no_match(s.drop_first(), order_id);
    }
}

/// When lookup finds nothing, no entry matches.
pub proof fn lemma_escrow_none_no_match(s: Seq<Escrow>, order_id: u64)
    requires
        lookup_escrow(s, order_id) is None,
    ensures
        forall|k: int| 0 <= k < s.len() ==> s[k].order_id != order_id,
    decreases s.len(),
{
    if s.len() > 0 {
        lemma_escrow_none_no_match(s.drop_first(), order_id);
        assert forall|k: int| 0 <= k < s.len() implies s[k].order_id != order_id by {
            if k > 0 {
                assert(s.drop_first()[k - 1] == s[k]);
            }
        }
    }
}

/// The record lookup returns is one of the stored records.
pub proof fn lemma_escrow_found_in_seq(s: Seq<Escrow>, order_id: u64, e: Escrow)
    requires
        lookup_escrow(s, order_id) == Some(e),
    ensures
        exists|i: int| 0 <= i < s.len() && s[i] == e,
    decreases s.len(),
{
    if s[0].order_id == order_id {
        assert(s[0] == e);
    } else {
        lemma_escrow_found_in_seq(s.drop_first(), order_id, e);
        let j = choose|j: int| 0 <= j < s.drop_first().len() && s.drop_first()[j] == e;
        assert(s[j + 1] == e);
    }
}

/// A first match for a balance key fixes the balance lookup.
pub proof fn lemma_balance_first_match(s: Seq<BalanceEntry>, i: int, asset: u64, account: u64)
    requires
        0 <= i < s.len(),
        s[i].asset == asset && s[i].account == account,
        forall|k: int| 0 <= k < i ==> !(s[k].asset == asset && s[k].account == account),
    ensures
        lookup_balance(s, asset, account) == s[i].amount as int,
        has_balance_entry(s, asset, account),
    decreases i,
{
    if i > 0 {
        assert(forall|k: int| 0 <= k < i - 1 ==> s.drop_first()[k] == s[k + 1]);
        lemma_balance_first_match(s.drop_first(), i - 1, asset, account);
    }
}

/// Without any match, the balance is zero and no entry exists.
pub proof fn lemma_balance_no_match(s: Seq<BalanceEntry>, asset: u64, account: u64)
    requires
        forall|k: int| 0 <= k < s.len() ==> !(s[k].asset == asset && s[k].account == account),
    ensures
        lookup_balance(s, asset, account) == 0,
        !has_balance_entry(s, asset, account),
    decreases s.len(),
{
    if s.len() > 0 {
        assert(forall|k: int| 0 <= k < s.len() - 1 ==> s.drop_first()[k] == s[k + 1]);
        lemma_balance_no_match(s.drop_first(), asset, account);
    }
}

/// Overwriting entry `i` with an entry of the same key moves that key's
/// balance to the new amount and leaves every other balance alone.
pub proof fn lemma_balance_update(
    s: Seq<BalanceEntry>,
    i: int,
    v: BalanceEntry,
    asset: u64,
    account: u64,
)
    requires
        0 <= i < s.len(),
        v.asset == s[i].asset,
        v.account == s[i].account,
        unique_balance_keys(s),
    ensures
        lookup_balance(s.update(i, v), asset, account) == if asset == v.asset && account
            == v.account {
            v.amount as int
        } else {
            lookup_balance(s, asset, account)
        },
    decreases i,
{
    let t = s.update(i, v);
    if i == 0 {
        assert(t.drop_first() =~= s.drop_first());
    } else {
        assert(t[0] == s[0]);
        if s[0].asset == asset && s[0].account == account {
            // By key uniqueness the updated slot cannot share this key.
            assert(!(s[0].asset == s[i].asset && s[0].account == s[i].account));
        } else {
            assert(t.drop_first() =~= s.drop_first().update(i - 1, v));
            assert(forall|a: int, b: int|
                0 <= a < b < s.drop_first().len() ==> s.drop_first()[a] == s[a + 1]
                    && s.drop_first()[b] == s[b + 1]);
            lemma_balance_update(s.drop_first(), i - 1, v, asset, account);
        }
    }
}

/// Overwriting one entry shifts each asset total by the difference of the
/// old and new contributions.
pub proof fn lemma_asset_total_update(s: Seq<BalanceEntry>, i: int, v: BalanceEntry, asset: u64)
    requires
        0 <= i < s.len(),
    ensures
        asset_total(s.update(i, v), asset) == asset_total(s, asset) - bal_contrib(s[i], asset)
            + bal_contrib(v, asset),
    decreases i,
{
    let t = s.update(i, v);
    if i == 0 {
        assert(t.drop_first() =~= s.drop_first());
    } else {
        assert(t[0] == s[0]);
        assert(t.drop_first() =~= s.drop_first().update(i - 1, v));
        assert(s.drop_first()[i - 1] == s[i]);
        lemma_asset_total_update(s.drop_first(), i - 1, v, asset);
    }
}

/// Appending an entry whose key is absent sets that key's balance to the new
/// amount and leaves every other balance alone.
pub proof fn lemma_balance_push(s: Seq<BalanceEntry>, e: BalanceEntry, asset: u64, account: u64)
    requires
        forall|k: int| 0 <= k < s.len() ==> !(s[k].asset == e.asset && s[k].account == e.account),
    ensures
        lookup_balance(s.push(e), asset, account) == if asset == e.asset && account == e.account {
            e.amount as int
        } else {
            lookup_balance(s, asset, account)
        },
    decreases s.len(),
{
    let t = s.push(e);
    if s.len() == 0 {
        assert(t[0] == e);
        assert(t.drop_first() =~= s);
    } else {
        assert(t[0] == s[0]);
        assert(t.drop_first() =~= s.drop_first().push(e));
        assert(forall|k: int| 0 <= k < s.len() - 1 ==> s.drop_first()[k] == s[k + 1]);
        lemma_balance_push(s.drop_first(), e, asset, account);
    }
}

/// Appending an entry adds its contribution to each asset total.
pub proof fn lemma_asset_total_push(s: Seq<BalanceEntry>, e: BalanceEntry, asset: u64)
    ensures
        asset_total(s.push(e), asset) == asset_total(s, asset) + bal_contrib(e, asset),
    decreases s.len(),
{
    let t = s.push(e);
    if s.len() == 0 {
        assert(t[0] == e);
        assert(t.drop_first() =~= s);
    } else {
        assert(t[0] == s[0]);
        assert(t.drop_first() =~= s.drop_first().push(e));
        lemma_asset_total_push(s.drop_first(), e, asset);
    }
}

/// With non-negative entries, each asset total is non-negative.
pub proof fn lemma_asset_total_nonneg(s: Seq<BalanceEntry>, asset: u64)
    requires
        nonneg_balances(s),
    ensures
        asset_total(s, asset) >= 0,
    decreases s.len(),
{
    if s.len() > 0 {
        assert(forall|k: int| 0 <= k < s.len() - 1 ==> s.drop_first()[k] == s[k + 1]);
        lemma_asset_total_nonneg(s.drop_first(), asset);
    }
}

/// With non-negative entries, each balance is non-negative.
pub proof fn lemma_balance_nonneg(s: Seq<BalanceEntry>, asset: u64, account: u64)
    requires
        nonneg_balances(s),
    ensures
        lookup_balance(s, asset, account) >= 0,
    decreases s.len(),
{
    if s.len() > 0 {
        assert(forall|k: int| 0 <= k < s.len() - 1 ==> s.drop_first()[k] == s[k + 1]);
        lemma_balance_nonneg(s.drop_first(), asset, account);
    }
}

/// With non-negative entries, no single balance exceeds its asset's total.
pub proof fn lemma_balance_le_total(s: Seq<BalanceEntry>, asset: u64, account: u64)
    requires
        nonneg_balances(s),
    ensures
        lookup_balance(s, asset, account) <= asset_total(s, asset),
    decreases s.len(),
{
    if s.len() > 0 {
        assert(forall|k: int| 0 <= k < s.len() - 1 ==> s.drop_first()[k] == s[k + 1]);
        lemma_balance_le_total(s.drop_first(), asset, account);
        lemma_asset_total_nonneg(s.drop_first(), asset);
        lemma_balance_nonneg(s.drop_first(), asset, account);
    }
}

/// With non-negative entries, two distinct accounts together hold at most
/// the asset's total: moving one's balance onto the other cannot overflow
/// a book whose totals are bounded.
pub proof fn lemma_balance_pair_le_total(s: Seq<BalanceEntry>, asset: u64, acct1: u64, acct2: u64)
    requires
        nonneg_balances(s),
        acct1 != acct2,
    ensures
        lookup_balance(s, asset, acct1) + lookup_balance(s, asset, acct2) <= asset_total(
            s,
            asset,
        ),
    decreases s.len(),
{
    if s.len() > 0 {
        assert(forall|k: int| 0 <= k < s.len() - 1 ==> s.drop_first()[k] == s[k + 1]);
        if s[0].asset == asset && s[0].account == acct1 {
            lemma_balance_le_total(s.drop_first(), asset, acct2);
        } else if s[0].asset == asset && s[0].account == acct2 {
            lemma_balance_le_total(s.drop_first(), asset, acct1);
        } else {
            lemma_balance_pair_le_total(s.drop_first(), asset, acct1, acct2);
        }
    }
}

/// Overwriting record `i` with a record of the same order id moves that id's
/// lookup to the new record and leaves every other lookup alone.
pub proof fn lemma_escrow_update(s: Seq<Escrow>, i: int, v: Escrow, order_id: u64)
    requires
        0 <= i < s.len(),
        v.order_id == s[i].order_id,
        unique_order_ids(s),
    ensures
        lookup_escrow(s.update(i, v), order_id) == if order_id == v.order_id {
            Some(v)
        } else {
            lookup_escrow(s, order_id)
        },
    decreases i,
{
    let t = s.update(i, v);
    if i == 0 {
        assert(t.drop_first() =~= s.drop_first());
    } else {
        assert(t[0] == s[0]);
        if s[0].order_id == order_id {
            assert(s[0].order_id != s[i].order_id);
        } else {
            assert(t.drop_first() =~= s.drop_first().update(i - 1, v));
            lemma_escrow_update(s.drop_first(), i - 1, v, order_id);
        }
    }
}

/// Overwriting one record shifts each locked total by the difference of the
/// old and new contributions.
pub proof fn lemma_locked_total_update(s: Seq<Escrow>, i: int, v: Escrow, asset: u64)
    requires
        0 <= i < s.len(),
    ensures
        locked_total(s.update(i, v), asset) == locked_total(s, asset) - lock_contrib(s[i], asset)
            + lock_contrib(v, asset),
    decreases i,
{
    let t = s.update(i, v);
    if i == 0 {
        assert(t.drop_first() =~= s.drop_first());
    } else {
        assert(t[0] == s[0]);
        assert(t.drop_first() =~= s.drop_first().update(i - 1, v));
        assert(s.drop_first()[i - 1] == s[i]);
        lemma_locked_total_update(s.drop_first(), i - 1, v, asset);
    }
}

/// Appending a record whose order id is absent makes that id's lookup find
/// it and leaves every other lookup alone.
pub proof fn lemma_escrow_push(s: Seq<Escrow>, e: Escrow, order_id: u64)
    requires
        lookup_escrow(s, e.order_id) is None,
    ensures
        lookup_escrow(s.push(e), order_id) == if order_id == e.order_id {
            Some(e)
        } else {
            lookup_escrow(s, order_id)
        },
    decreases s.len(),
{
    let t = s.push(e);
    if s.len() == 0 {
        assert(t[0] == e);
        assert(t.drop_first() =~= s);
    } else {
        assert(t[0] == s[0]);
        assert(t.drop_first() =~= s.drop_first().push(e));
        lemma_escrow_push(s.drop_first(), e, order_id);
    }
}

/// Appending a record adds its contribution to each locked total.
pub proof fn lemma_locked_total_push(s: Seq<Escrow>, e: Escrow, asset: u64)
    ensures
        locked_total(s.push(e), asset) == locked_total(s, asset) + lock_contrib(e, asset),
    decreases s.len(),
{
    let t = s.push(e);
    if s.len() == 0 {
        assert(t[0] == e);
        assert(t.drop_first() =~= s);
    } else {
        assert(t[0] == s[0]);
        assert(t.drop_first() =~= s.drop_first().push(e));
        lemma_locked_total_push(s.drop_first(), e, asset);
    }
}

/// With positive locked amounts, each locked total is non-negative.
pub proof fn lemma_locked_total_nonneg(s: Seq<Escrow>, asset: u64)
    requires
        forall|k: int| 0 <= k < s.len() ==> s[k].amount > 0,
    ensures
        locked_total(s, asset) >= 0,
    decreases s.len(),
{
    if s.len() > 0 {
        assert(forall|k: int| 0 <= k < s.len() - 1 ==> s.drop_first()[k] == s[k + 1]);
        lemma_locked_total_nonneg(s.drop_first(), asset);
    }
}

/// A locked record's amount is covered by the locked total of its asset.
pub proof fn lemma_locked_le_total(s: Seq<Escrow>, order_id: u64, e: Escrow)
    requires
        lookup_escrow(s, order_id) == Some(e),
        e.status == EscrowStatus::Locked,
        forall|k: int| 0 <= k < s.len() ==> s[k].amount > 0,
    ensures
        e.amount <= locked_total(s, e.asset),
    decreases s.len(),
{
    assert(forall|k: int| 0 <= k < s.len() - 1 ==> s.drop_first()[k] == s[k + 1]);
    if s[0].order_id == order_id {
        lemma_locked_total_nonneg(s.drop_first(), e.asset);
    } else {
        lemma_locked_le_total(s.drop_first(), order_id, e);
        lemma_locked_total_nonneg(s.drop_first(), e.asset);
        assert(lock_contrib(s[0], e.asset) >= 0);
    }
}

} // verus!
