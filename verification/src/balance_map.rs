use vstd::prelude::*;

verus! {

/// One balance record: the quantity of `asset` the ledger holds for `account`.
#[derive(Clone, Copy)]
pub struct BalanceEntry {
    pub asset: u64,
    pub account: u64,
    pub amount: u64,
}

/// Whether `e` is the record keyed by `(asset, account)`.
pub open spec fn is_balance(e: BalanceEntry, asset: u64, account: u64) -> bool {
    e.asset == asset && e.account == account
}

/// At most one record per `(asset, account)` key.
pub open spec fn balance_keys_unique(s: Seq<BalanceEntry>) -> bool {
    forall|i: int, j: int| #![trigger s[i], s[j]]
        0 <= i < s.len() && 0 <= j < s.len() && i != j ==> !(s[i].asset == s[j].asset
            && s[i].account == s[j].account)
}

/// Whether some record is keyed by `(asset, account)`.
pub open spec fn has_balance(s: Seq<BalanceEntry>, asset: u64, account: u64) -> bool {
    exists|i: int| 0 <= i < s.len() && is_balance(#[trigger] s[i], asset, account)
}

/// The balance held for `(asset, account)`; an absent record counts as zero.
pub open spec fn balance_of(s: Seq<BalanceEntry>, asset: u64, account: u64) -> u64 {
    if has_balance(s, asset, account) {
        let i = choose|i: int| 0 <= i < s.len() && is_balance(#[trigger] s[i], asset, account);
        s[i].amount
    } else {
        0
    }
}

/// The sum of all balances recorded for `asset`, across every account.
pub open spec fn asset_total(s: Seq<BalanceEntry>, asset: u64) -> int
    decreases s.len(),
{
    if s.len() == 0 {
        0
    } else {
        asset_total(s.drop_last(), asset) + if s.last().asset == asset {
            s.last().amount as int
        } else {
            0
        }
    }
}

pub proof fn lemma_asset_total_nonneg(s: Seq<BalanceEntry>, asset: u64)
    ensures
        asset_total(s, asset) >= 0,
    decreases s.len(),
{
    if s.len() != 0 {
        lemma_asset_total_nonneg(s.drop_last(), asset);
    }
}

/// Each single record contributes no more than the whole per-asset total.
pub proof fn lemma_entry_le_asset_total(s: Seq<BalanceEntry>, asset: u64, i: int)
    requires
        0 <= i < s.len(),
        s[i].asset == asset,
    ensures
        s[i].amount as int <= asset_total(s, asset),
    decreases s.len(),
{
    if i == s.len() - 1 {
        lemma_asset_total_nonneg(s.drop_last(), asset);
    } else {
        assert(s.drop_last()[i] == s[i]);
        lemma_entry_le_asset_total(s.drop_last(), asset, i);
    }
}

proof fn lemma_two_entries_le_asset_total_ordered(s: Seq<BalanceEntry>, asset: u64, i: int, j: int)
    requires
        0 <= i < j < s.len(),
        s[i].asset == asset,
        s[j].asset == asset,
    ensures
        s[i].amount + s[j].amount <= asset_total(s, asset),
    decreases s.len(),
{
    if j == s.len() - 1 {
        assert(s.drop_last()[i] == s[i]);
        lemma_entry_le_asset_total(s.drop_last(), asset, i);
    } else {
        assert(s.drop_last()[i] == s[i]);
        assert(s.drop_last()[j] == s[j]);
        lemma_two_entries_le_asset_total_ordered(s.drop_last(), asset, i, j);
    }
}

/// Two distinct records together contribute no more than the per-asset total.
pub proof fn lemma_two_entries_le_asset_total(s: Seq<BalanceEntry>, asset: u64, i: int, j: int)
    requires
        0 <= i < s.len(),
        0 <= j < s.len(),
        i != j,
        s[i].asset == asset,
        s[j].asset == asset,
    ensures
        s[i].amount + s[j].amount <= asset_total(s, asset),
{
    if i < j {
        lemma_two_entries_le_asset_total_ordered(s, asset, i, j);
    } else {
        lemma_two_entries_le_asset_total_ordered(s, asset, j, i);
    }
}

proof fn lemma_asset_total_update_one(s: Seq<BalanceEntry>, i: int, e: BalanceEntry, a: u64)
    requires
        0 <= i < s.len(),
    ensures
        asset_total(s.update(i, e), a) == asset_total(s, a) - (if s[i].asset == a {
            s[i].amount as int
        } else {
            0
        }) + (if e.asset == a {
            e.amount as int
        } else {
            0
        }),
    decreases s.len(),
{
    let s2 = s.update(i, e);
    if i == s.len() - 1 {
        assert(s2.drop_last() =~= s.drop_last());
        assert(s2.last() == e);
    } else {
        assert(s2.drop_last() =~= s.drop_last().update(i, e));
        assert(s.drop_last()[i] == s[i]);
        lemma_asset_total_update_one(s.drop_last(), i, e, a);
        assert(s2.last() == s.last());
    }
}

/// Replacing the record at `i` moves each per-asset total by the difference
/// between the new and the old record's contribution.
pub proof fn lemma_asset_total_update(s: Seq<BalanceEntry>, i: int, e: BalanceEntry)
    requires
        0 <= i < s.len(),
    ensures
        forall|a: u64|
            #[trigger] asset_total(s.update(i, e), a) == asset_total(s, a) - (if s[i].asset == a {
                s[i].amount as int
            } else {
                0
            }) + (if e.asset == a {
                e.amount as int
            } else {
                0
            }),
{
    assert forall|a: u64|
        #[trigger] asset_total(s.update(i, e), a) == asset_total(s, a) - (if s[i].asset == a {
            s[i].amount as int
        } else {
            0
        }) + (if e.asset == a {
            e.amount as int
        } else {
            0
        }) by {
        lemma_asset_total_update_one(s, i, e, a);
    }
}

/// Appending a record adds its contribution to each per-asset total.
pub proof fn lemma_asset_total_push(s: Seq<BalanceEntry>, e: BalanceEntry)
    ensures
        forall|a: u64|
            #[trigger] asset_total(s.push(e), a) == asset_total(s, a) + (if e.asset == a {
                e.amount as int
            } else {
                0
            }),
{
    assert forall|a: u64|
        #[trigger] asset_total(s.push(e), a) == asset_total(s, a) + (if e.asset == a {
            e.amount as int
        } else {
            0
        }) by {
        assert(s.push(e).drop_last() =~= s);
        assert(s.push(e).last() == e);
    }
}

/// A single account's balance never exceeds the per-asset total.
pub proof fn lemma_balance_le_asset_total(s: Seq<BalanceEntry>, asset: u64, account: u64)
    requires
        balance_keys_unique(s),
    ensures
        balance_of(s, asset, account) as int <= asset_total(s, asset),
{
    if has_balance(s, asset, account) {
        let w = choose|w: int| 0 <= w < s.len() && is_balance(#[trigger] s[w], asset, account);
        lemma_balance_of_at(s, asset, account, w);
        lemma_entry_le_asset_total(s, asset, w);
    } else {
        lemma_asset_total_nonneg(s, asset);
    }
}

/// Two different accounts' balances together never exceed the per-asset total.
pub proof fn lemma_two_balances_le_asset_total(s: Seq<BalanceEntry>, asset: u64, c1: u64, c2: u64)
    requires
        balance_keys_unique(s),
        c1 != c2,
    ensures
        balance_of(s, asset, c1) + balance_of(s, asset, c2) <= asset_total(s, asset),
{
    if has_balance(s, asset, c1) && has_balance(s, asset, c2) {
        let w1 = choose|w: int| 0 <= w < s.len() && is_balance(#[trigger] s[w], asset, c1);
        let w2 = choose|w: int| 0 <= w < s.len() && is_balance(#[trigger] s[w], asset, c2);
        lemma_balance_of_at(s, asset, c1, w1);
        lemma_balance_of_at(s, asset, c2, w2);
        lemma_two_entries_le_asset_total(s, asset, w1, w2);
    } else if has_balance(s, asset, c1) {
        lemma_balance_le_asset_total(s, asset, c1);
    } else {
        lemma_balance_le_asset_total(s, asset, c2);
    }
}

/// With unique keys, the record at a matching index is the record looked up.
pub proof fn lemma_balance_of_at(s: Seq<BalanceEntry>, asset: u64, account: u64, i: int)
    requires
        balance_keys_unique(s),
        0 <= i < s.len(),
        is_balance(s[i], asset, account),
    ensures
        has_balance(s, asset, account),
        balance_of(s, asset, account) == s[i].amount,
{
    assert(has_balance(s, asset, account));
    let j = choose|j: int| 0 <= j < s.len() && is_balance(#[trigger] s[j], asset, account);
    assert(j == i);
}

/// Replacing the record at `i` by one with the same key changes exactly that
/// key's balance and no other observation of the store.
pub proof fn lemma_balance_update(s: Seq<BalanceEntry>, i: int, e: BalanceEntry)
    requires
        balance_keys_unique(s),
        0 <= i < s.len(),
        e.asset == s[i].asset,
        e.account == s[i].account,
    ensures
        balance_keys_unique(s.update(i, e)),
        balance_of(s.update(i, e), e.asset, e.account) == e.amount,
        forall|a: u64, c: u64|
            #[trigger] has_balance(s.update(i, e), a, c) == has_balance(s, a, c),
        forall|a: u64, c: u64|
            !(a == e.asset && c == e.account) ==> #[trigger] balance_of(s.update(i, e), a, c)
                == balance_of(s, a, c),
{
    let s2 = s.update(i, e);
    assert forall|p: int, q: int| #![trigger s2[p], s2[q]]
        0 <= p < s2.len() && 0 <= q < s2.len() && p != q implies !(s2[p].asset == s2[q].asset
        && s2[p].account == s2[q].account) by {
        assert(s2[p].asset == s[p].asset && s2[p].account == s[p].account);
        assert(s2[q].asset == s[q].asset && s2[q].account == s[q].account);
    }
    assert forall|a: u64, c: u64|
        #[trigger] has_balance(s2, a, c) == has_balance(s, a, c) by {
        if has_balance(s, a, c) {
            let w = choose|w: int| 0 <= w < s.len() && is_balance(#[trigger] s[w], a, c);
            assert(is_balance(s2[w], a, c));
        }
        if has_balance(s2, a, c) {
            let w = choose|w: int| 0 <= w < s2.len() && is_balance(#[trigger] s2[w], a, c);
            assert(is_balance(s[w], a, c));
        }
    }
    lemma_balance_of_at(s2, e.asset, e.account, i);
    assert forall|a: u64, c: u64|
        !(a == e.asset && c == e.account) implies #[trigger] balance_of(s2, a, c) == balance_of(
        s,
        a,
        c,
    ) by {
        if has_balance(s, a, c) {
            let w = choose|w: int| 0 <= w < s.len() && is_balance(#[trigger] s[w], a, c);
            assert(w != i);
            assert(s2[w] == s[w]);
            lemma_balance_of_at(s, a, c, w);
            lemma_balance_of_at(s2, a, c, w);
        } else {
            assert(!has_balance(s2, a, c));
        }
    }
}

/// Appending a record with a fresh key creates exactly that key's balance and
/// changes no other observation of the store.
pub proof fn lemma_balance_push(s: Seq<BalanceEntry>, e: BalanceEntry)
    requires
        balance_keys_unique(s),
        !has_balance(s, e.asset, e.account),
    ensures
        balance_keys_unique(s.push(e)),
        has_balance(s.push(e), e.asset, e.account),
        balance_of(s.push(e), e.asset, e.account) == e.amount,
        forall|a: u64, c: u64|
            !(a == e.asset && c == e.account) ==> #[trigger] has_balance(s.push(e), a, c)
                == has_balance(s, a, c),
        forall|a: u64, c: u64|
            !(a == e.asset && c == e.account) ==> #[trigger] balance_of(s.push(e), a, c)
                == balance_of(s, a, c),
{
    let s2 = s.push(e);
    let n = s.len() as int;
    assert(s2[n] == e);
    assert forall|p: int, q: int| #![trigger s2[p], s2[q]]
        0 <= p < s2.len() && 0 <= q < s2.len() && p != q implies !(s2[p].asset == s2[q].asset
        && s2[p].account == s2[q].account) by {
        if p < n && q < n {
            assert(s2[p] == s[p]);
            assert(s2[q] == s[q]);
        } else if p == n {
            assert(s2[q] == s[q]);
            if s2[p].asset == s2[q].asset && s2[p].account == s2[q].account {
                assert(is_balance(s[q], e.asset, e.account));
            }
        } else {
            assert(s2[p] == s[p]);
            if s2[p].asset == s2[q].asset && s2[p].account == s2[q].account {
                assert(is_balance(s[p], e.asset, e.account));
            }
        }
    }
    lemma_balance_of_at(s2, e.asset, e.account, n);
    assert forall|a: u64, c: u64|
        !(a == e.asset && c == e.account) implies #[trigger] has_balance(s2, a, c) == has_balance(
        s,
        a,
        c,
    ) by {
        if has_balance(s, a, c) {
            let w = choose|w: int| 0 <= w < s.len() && is_balance(#[trigger] s[w], a, c);
            assert(is_balance(s2[w], a, c));
        }
        if has_balance(s2, a, c) {
            let w = choose|w: int| 0 <= w < s2.len() && is_balance(#[trigger] s2[w], a, c);
            assert(w != n);
            assert(is_balance(s[w], a, c));
        }
    }
    assert forall|a: u64, c: u64|
        !(a == e.asset && c == e.account) implies #[trigger] balance_of(s2, a, c) == balance_of(
        s,
        a,
        c,
    ) by {
        if has_balance(s, a, c) {
            let w = choose|w: int| 0 <= w < s.len() && is_balance(#[trigger] s[w], a, c);
            assert(s2[w] == s[w]);
            lemma_balance_of_at(s, a, c, w);
            lemma_balance_of_at(s2, a, c, w);
        } else {
            assert(!has_balance(s2, a, c));
        }
    }
}

} // verus!
