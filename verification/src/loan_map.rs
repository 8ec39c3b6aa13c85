use vstd::prelude::*;

verus! {

/// One loan record: the outstanding `principal` that `account` owes for
/// `asset`, together with the `term` it was taken for.
#[derive(Clone, Copy)]
pub struct LoanEntry {
    pub asset: u64,
    pub account: u64,
    pub principal: u64,
    pub term: u64,
}

/// Whether `e` is the record keyed by `(asset, account)`.
pub open spec fn is_loan(e: LoanEntry, asset: u64, account: u64) -> bool {
    e.asset == asset && e.account == account
}

/// At most one record per `(asset, account)` key.
pub open spec fn loan_keys_unique(s: Seq<LoanEntry>) -> bool {
    forall|i: int, j: int| #![trigger s[i], s[j]]
        0 <= i < s.len() && 0 <= j < s.len() && i != j ==> !(s[i].asset == s[j].asset
            && s[i].account == s[j].account)
}

/// Whether some record is keyed by `(asset, account)`.
pub open spec fn has_loan(s: Seq<LoanEntry>, asset: u64, account: u64) -> bool {
    exists|i: int| 0 <= i < s.len() && is_loan(#[trigger] s[i], asset, account)
}

/// The outstanding principal for `(asset, account)`; absent counts as zero.
pub open spec fn principal_of(s: Seq<LoanEntry>, asset: u64, account: u64) -> u64 {
    if has_loan(s, asset, account) {
        let i = choose|i: int| 0 <= i < s.len() && is_loan(#[trigger] s[i], asset, account);
        s[i].principal
    } else {
        0
    }
}

/// The term recorded for `(asset, account)`; absent counts as zero.
pub open spec fn term_of(s: Seq<LoanEntry>, asset: u64, account: u64) -> u64 {
    if has_loan(s, asset, account) {
        let i = choose|i: int| 0 <= i < s.len() && is_loan(#[trigger] s[i], asset, account);
        s[i].term
    } else {
        0
    }
}

/// The sum of all outstanding principal for `asset`, across every account.
pub open spec fn loan_total(s: Seq<LoanEntry>, asset: u64) -> int
    decreases s.len(),
{
    if s.len() == 0 {
        0
    } else {
        loan_total(s.drop_last(), asset) + if s.last().asset == asset {
            s.last().principal as int
        } else {
            0
        }
    }
}

pub proof fn lemma_loan_total_nonneg(s: Seq<LoanEntry>, asset: u64)
    ensures
        loan_total(s, asset) >= 0,
    decreases s.len(),
{
    if s.len() != 0 {
        lemma_loan_total_nonneg(s.drop_last(), asset);
    }
}

/// Each single record contributes no more than the whole per-asset total.
pub proof fn lemma_entry_le_loan_total(s: Seq<LoanEntry>, asset: u64, i: int)
    requires
        0 <= i < s.len(),
        s[i].asset == asset,
    ensures
        s[i].principal as int <= loan_total(s, asset),
    decreases s.len(),
{
    if i == s.len() - 1 {
        lemma_loan_total_nonneg(s.drop_last(), asset);
    } else {
        assert(s.drop_last()[i] == s[i]);
        lemma_entry_le_loan_total(s.drop_last(), asset, i);
    }
}

proof fn lemma_loan_total_update_one(s: Seq<LoanEntry>, i: int, e: LoanEntry, a: u64)
    requires
        0 <= i < s.len(),
    ensures
        loan_total(s.update(i, e), a) == loan_total(s, a) - (if s[i].asset == a {
            s[i].principal as int
        } else {
            0
        }) + (if e.asset == a {
            e.principal as int
        } else {
            0
        }),
    decreases s.len(),
{
    let s2 = s.update(i, e);
    if i == s.len() - 1 {
        assert(s2.drop_last() =~= s.drop_last());
        assert(s2.last() == e);
    } else {
        assert(s2.drop_last() =~= s.drop_last().update(i, e));
        assert(s.drop_last()[i] == s[i]);
        lemma_loan_total_update_one(s.drop_last(), i, e, a);
        assert(s2.last() == s.last());
    }
}

/// Replacing the record at `i` moves each per-asset total by the difference
/// between the new and the old record's contribution.
pub proof fn lemma_loan_total_update(s: Seq<LoanEntry>, i: int, e: LoanEntry)
    requires
        0 <= i < s.len(),
    ensures
        forall|a: u64|
            #[trigger] loan_total(s.update(i, e), a) == loan_total(s, a) - (if s[i].asset == a {
                s[i].principal as int
            } else {
                0
            }) + (if e.asset == a {
                e.principal as int
            } else {
                0
            }),
{
    assert forall|a: u64|
        #[trigger] loan_total(s.update(i, e), a) == loan_total(s, a) - (if s[i].asset == a {
            s[i].principal as int
        } else {
            0
        }) + (if e.asset == a {
            e.principal as int
        } else {
            0
        }) by {
        lemma_loan_total_update_one(s, i, e, a);
    }
}

/// Appending a record adds its contribution to each per-asset total.
pub proof fn lemma_loan_total_push(s: Seq<LoanEntry>, e: LoanEntry)
    ensures
        forall|a: u64|
            #[trigger] loan_total(s.push(e), a) == loan_total(s, a) + (if e.asset == a {
                e.principal as int
            } else {
                0
            }),
{
    assert forall|a: u64|
        #[trigger] loan_total(s.push(e), a) == loan_total(s, a) + (if e.asset == a {
            e.principal as int
        } else {
            0
        }) by {
        assert(s.push(e).drop_last() =~= s);
        assert(s.push(e).last() == e);
    }
}

/// A single account's principal never exceeds the per-asset total.
pub proof fn lemma_principal_le_loan_total(s: Seq<LoanEntry>, asset: u64, account: u64)
    requires
        loan_keys_unique(s),
    ensures
        principal_of(s, asset, account) as int <= loan_total(s, asset),
{
    if has_loan(s, asset, account) {
        let w = choose|w: int| 0 <= w < s.len() && is_loan(#[trigger] s[w], asset, account);
        lemma_loan_of_at(s, asset, account, w);
        lemma_entry_le_loan_total(s, asset, w);
    } else {
        lemma_loan_total_nonneg(s, asset);
    }
}

/// With unique keys, the record at a matching index is the record looked up.
pub proof fn lemma_loan_of_at(s: Seq<LoanEntry>, asset: u64, account: u64, i: int)
    requires
        loan_keys_unique(s),
        0 <= i < s.len(),
        is_loan(s[i], asset, account),
    ensures
        has_loan(s, asset, account),
        principal_of(s, asset, account) == s[i].principal,
        term_of(s, asset, account) == s[i].term,
{
    assert(has_loan(s, asset, account));
    let j = choose|j: int| 0 <= j < s.len() && is_loan(#[trigger] s[j], asset, account);
    assert(j == i);
}

/// Replacing the record at `i` by one with the same key changes exactly that
/// key's principal and term and no other observation of the store.
pub proof fn lemma_loan_update(s: Seq<LoanEntry>, i: int, e: LoanEntry)
    requires
        loan_keys_unique(s),
        0 <= i < s.len(),
        e.asset == s[i].asset,
        e.account == s[i].account,
    ensures
        loan_keys_unique(s.update(i, e)),
        principal_of(s.update(i, e), e.asset, e.account) == e.principal,
        term_of(s.update(i, e), e.asset, e.account) == e.term,
        forall|a: u64, c: u64| #[trigger] has_loan(s.update(i, e), a, c) == has_loan(s, a, c),
        forall|a: u64, c: u64|
            !(a == e.asset && c == e.account) ==> #[trigger] principal_of(s.update(i, e), a, c)
                == principal_of(s, a, c),
        forall|a: u64, c: u64|
            !(a == e.asset && c == e.account) ==> #[trigger] term_of(s.update(i, e), a, c)
                == term_of(s, a, c),
{
    let s2 = s.update(i, e);
    assert forall|p: int, q: int| #![trigger s2[p], s2[q]]
        0 <= p < s2.len() && 0 <= q < s2.len() && p != q implies !(s2[p].asset == s2[q].asset
        && s2[p].account == s2[q].account) by {
        assert(s2[p].asset == s[p].asset && s2[p].account == s[p].account);
        assert(s2[q].asset == s[q].asset && s2[q].account == s[q].account);
    }
    assert forall|a: u64, c: u64| #[trigger] has_loan(s2, a, c) == has_loan(s, a, c) by {
        if has_loan(s, a, c) {
            let w = choose|w: int| 0 <= w < s.len() && is_loan(#[trigger] s[w], a, c);
            assert(is_loan(s2[w], a, c));
        }
        if has_loan(s2, a, c) {
            let w = choose|w: int| 0 <= w < s2.len() && is_loan(#[trigger] s2[w], a, c);
            assert(is_loan(s[w], a, c));
        }
    }
    lemma_loan_of_at(s2, e.asset, e.account, i);
    assert forall|a: u64, c: u64|
        !(a == e.asset && c == e.account) implies #[trigger] principal_of(s2, a, c)
        == principal_of(s, a, c) && term_of(s2, a, c) == term_of(s, a, c) by {
        if has_loan(s, a, c) {
            let w = choose|w: int| 0 <= w < s.len() && is_loan(#[trigger] s[w], a, c);
            assert(w != i);
            assert(s2[w] == s[w]);
            lemma_loan_of_at(s, a, c, w);
            lemma_loan_of_at(s2, a, c, w);
        } else {
            assert(!has_loan(s2, a, c));
        }
    }
    assert forall|a: u64, c: u64|
        !(a == e.asset && c == e.account) implies #[trigger] term_of(s.update(i, e), a, c)
        == term_of(s, a, c) by {
        assert(principal_of(s2, a, c) == principal_of(s, a, c));
    }
}

/// Appending a record with a fresh key creates exactly that key's loan and
/// changes no other observation of the store.
pub proof fn lemma_loan_push(s: Seq<LoanEntry>, e: LoanEntry)
    requires
        loan_keys_unique(s),
        !has_loan(s, e.asset, e.account),
    ensures
        loan_keys_unique(s.push(e)),
        has_loan(s.push(e), e.asset, e.account),
        principal_of(s.push(e), e.asset, e.account) == e.principal,
        term_of(s.push(e), e.asset, e.account) == e.term,
        forall|a: u64, c: u64|
            !(a == e.asset && c == e.account) ==> #[trigger] has_loan(s.push(e), a, c) == has_loan(
                s,
                a,
                c,
            ),
        forall|a: u64, c: u64|
            !(a == e.asset && c == e.account) ==> #[trigger] principal_of(s.push(e), a, c)
                == principal_of(s, a, c),
        forall|a: u64, c: u64|
            !(a == e.asset && c == e.account) ==> #[trigger] term_of(s.push(e), a, c) == term_of(
                s,
                a,
                c,
            ),
{
    let s2 = s.push(e);
    let n = s.len() as int;
    assert(s2[n] == e);
    assert forall|p: int, q: int| #![trigger s2[p], s2[q]]
        0 <= p < s2.len() && 0 <= q < s2.len() && p != q implies !(s2[p].asset == s2[q].asset
        && s2[p].account == s2[q].account) by {
        if p < n && q < n {
            assert(s2[p] == s[p]);
            assert(s2[q] == s[q]);
        } else if p == n {
            assert(s2[q] == s[q]);
            if s2[p].asset == s2[q].asset && s2[p].account == s2[q].account {
                assert(is_loan(s[q], e.asset, e.account));
            }
        } else {
            assert(s2[p] == s[p]);
            if s2[p].asset == s2[q].asset && s2[p].account == s2[q].account {
                assert(is_loan(s[p], e.asset, e.account));
            }
        }
    }
    lemma_loan_of_at(s2, e.asset, e.account, n);
    assert forall|a: u64, c: u64|
        !(a == e.asset && c == e.account) implies #[trigger] has_loan(s2, a, c) == has_loan(
        s,
        a,
        c,
    ) by {
        if has_loan(s, a, c) {
            let w = choose|w: int| 0 <= w < s.len() && is_loan(#[trigger] s[w], a, c);
            assert(is_loan(s2[w], a, c));
        }
        if has_loan(s2, a, c) {
            let w = choose|w: int| 0 <= w < s2.len() && is_loan(#[trigger] s2[w], a, c);
            assert(w != n);
            assert(is_loan(s[w], a, c));
        }
    }
    assert forall|a: u64, c: u64|
        !(a == e.asset && c == e.account) implies #[trigger] principal_of(s2, a, c)
        == principal_of(s, a, c) && term_of(s2, a, c) == term_of(s, a, c) by {
        if has_loan(s, a, c) {
            let w = choose|w: int| 0 <= w < s.len() && is_loan(#[trigger] s[w], a, c);
            assert(s2[w] == s[w]);
            lemma_loan_of_at(s, a, c, w);
            lemma_loan_of_at(s2, a, c, w);
        } else {
            assert(!has_loan(s2, a, c));
        }
    }
    assert forall|a: u64, c: u64|
        !(a == e.asset && c == e.account) implies #[trigger] term_of(s.push(e), a, c) == term_of(
        s,
        a,
        c,
    ) by {
        assert(principal_of(s2, a, c) == principal_of(s, a, c));
    }
}

} // verus!
