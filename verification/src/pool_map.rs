use vstd::prelude::*;

verus! {

/// One per-asset pool record: the aggregate deposits and outstanding loans
/// for `asset`, and whether the asset is administratively frozen.
#[derive(Clone, Copy)]
pub struct PoolEntry {
    pub asset: u64,
    pub deposited: u64,
    pub borrowed: u64,
    pub frozen: bool,
}

/// Whether `e` is the record keyed by `asset`.
pub open spec fn is_pool(e: PoolEntry, asset: u64) -> bool {
    e.asset == asset
}

/// At most one record per asset.
pub open spec fn pool_keys_unique(s: Seq<PoolEntry>) -> bool {
    forall|i: int, j: int| #![trigger s[i], s[j]]
        0 <= i < s.len() && 0 <= j < s.len() && i != j ==> s[i].asset != s[j].asset
}

/// Whether some record is keyed by `asset`.
pub open spec fn has_pool(s: Seq<PoolEntry>, asset: u64) -> bool {
    exists|i: int| 0 <= i < s.len() && is_pool(#[trigger] s[i], asset)
}

/// The total deposited for `asset`; absent counts as zero.
pub open spec fn deposited_of(s: Seq<PoolEntry>, asset: u64) -> u64 {
    if has_pool(s, asset) {
        let i = choose|i: int| 0 <= i < s.len() && is_pool(#[trigger] s[i], asset);
        s[i].deposited
    } else {
        0
    }
}

/// The total borrowed for `asset`; absent counts as zero.
pub open spec fn borrowed_of(s: Seq<PoolEntry>, asset: u64) -> u64 {
    if has_pool(s, asset) {
        let i = choose|i: int| 0 <= i < s.len() && is_pool(#[trigger] s[i], asset);
        s[i].borrowed
    } else {
        0
    }
}

/// Whether `asset` is frozen; an asset with no record is not frozen.
pub open spec fn frozen_of(s: Seq<PoolEntry>, asset: u64) -> bool {
    if has_pool(s, asset) {
        let i = choose|i: int| 0 <= i < s.len() && is_pool(#[trigger] s[i], asset);
        s[i].frozen
    } else {
        false
    }
}

/// With unique keys, the record at a matching index is the record looked up.
pub proof fn lemma_pool_of_at(s: Seq<PoolEntry>, asset: u64, i: int)
    requires
        pool_keys_unique(s),
        0 <= i < s.len(),
        is_pool(s[i], asset),
    ensures
        has_pool(s, asset),
        deposited_of(s, asset) == s[i].deposited,
        borrowed_of(s, asset) == s[i].borrowed,
        frozen_of(s, asset) == s[i].frozen,
{
    assert(has_pool(s, asset));
    let j = choose|j: int| 0 <= j < s.len() && is_pool(#[trigger] s[j], asset);
    assert(j == i);
}

/// Replacing the record at `i` by one for the same asset changes exactly that
/// asset's pool observations and no other's.
pub proof fn lemma_pool_update(s: Seq<PoolEntry>, i: int, e: PoolEntry)
    requires
        pool_keys_unique(s),
        0 <= i < s.len(),
        e.asset == s[i].asset,
    ensures
        pool_keys_unique(s.update(i, e)),
        deposited_of(s.update(i, e), e.asset) == e.deposited,
        borrowed_of(s.update(i, e), e.asset) == e.borrowed,
        frozen_of(s.update(i, e), e.asset) == e.frozen,
        forall|a: u64| #[trigger] has_pool(s.update(i, e), a) == has_pool(s, a),
        forall|a: u64|
            a != e.asset ==> #[trigger] deposited_of(s.update(i, e), a) == deposited_of(s, a),
        forall|a: u64|
            a != e.asset ==> #[trigger] borrowed_of(s.update(i, e), a) == borrowed_of(s, a),
        forall|a: u64| a != e.asset ==> #[trigger] frozen_of(s.update(i, e), a) == frozen_of(s, a),
{
    let s2 = s.update(i, e);
    assert forall|p: int, q: int| #![trigger s2[p], s2[q]]
        0 <= p < s2.len() && 0 <= q < s2.len() && p != q implies s2[p].asset != s2[q].asset by {
        assert(s2[p].asset == s[p].asset);
        assert(s2[q].asset == s[q].asset);
    }
    assert forall|a: u64| #[trigger] has_pool(s2, a) == has_pool(s, a) by {
        if has_pool(s, a) {
            let w = choose|w: int| 0 <= w < s.len() && is_pool(#[trigger] s[w], a);
            assert(is_pool(s2[w], a));
        }
        if has_pool(s2, a) {
            let w = choose|w: int| 0 <= w < s2.len() && is_pool(#[trigger] s2[w], a);
            assert(is_pool(s[w], a));
        }
    }
    lemma_pool_of_at(s2, e.asset, i);
    assert forall|a: u64|
        a != e.asset implies #[trigger] deposited_of(s2, a) == deposited_of(s, a) && borrowed_of(
        s2,
        a,
    ) == borrowed_of(s, a) && frozen_of(s2, a) == frozen_of(s, a) by {
        if has_pool(s, a) {
            let w = choose|w: int| 0 <= w < s.len() && is_pool(#[trigger] s[w], a);
            assert(w != i);
            assert(s2[w] == s[w]);
            lemma_pool_of_at(s, a, w);
            lemma_pool_of_at(s2, a, w);
        } else {
            assert(!has_pool(s2, a));
        }
    }
    assert forall|a: u64|
        a != e.asset implies #[trigger] borrowed_of(s.update(i, e), a) == borrowed_of(s, a) by {
        assert(deposited_of(s2, a) == deposited_of(s, a));
    }
    assert forall|a: u64|
        a != e.asset implies #[trigger] frozen_of(s.update(i, e), a) == frozen_of(s, a) by {
        assert(deposited_of(s2, a) == deposited_of(s, a));
    }
}

/// Appending a record for a fresh asset creates exactly that asset's pool
/// observations and changes no other's.
pub proof fn lemma_pool_push(s: Seq<PoolEntry>, e: PoolEntry)
    requires
        pool_keys_unique(s),
        !has_pool(s, e.asset),
    ensures
        pool_keys_unique(s.push(e)),
        has_pool(s.push(e), e.asset),
        deposited_of(s.push(e), e.asset) == e.deposited,
        borrowed_of(s.push(e), e.asset) == e.borrowed,
        frozen_of(s.push(e), e.asset) == e.frozen,
        forall|a: u64| a != e.asset ==> #[trigger] has_pool(s.push(e), a) == has_pool(s, a),
        forall|a: u64|
            a != e.asset ==> #[trigger] deposited_of(s.push(e), a) == deposited_of(s, a),
        forall|a: u64| a != e.asset ==> #[trigger] borrowed_of(s.push(e), a) == borrowed_of(s, a),
        forall|a: u64| a != e.asset ==> #[trigger] frozen_of(s.push(e), a) == frozen_of(s, a),
{
    let s2 = s.push(e);
    let n = s.len() as int;
    assert(s2[n] == e);
    assert forall|p: int, q: int| #![trigger s2[p], s2[q]]
        0 <= p < s2.len() && 0 <= q < s2.len() && p != q implies s2[p].asset != s2[q].asset by {
        if p < n && q < n {
            assert(s2[p] == s[p]);
            assert(s2[q] == s[q]);
        } else if p == n {
            assert(s2[q] == s[q]);
            if s2[p].asset == s2[q].asset {
                assert(is_pool(s[q], e.asset));
            }
        } else {
            assert(s2[p] == s[p]);
            if s2[p].asset == s2[q].asset {
                assert(is_pool(s[p], e.asset));
            }
        }
    }
    lemma_pool_of_at(s2, e.asset, n);
    assert forall|a: u64| a != e.asset implies #[trigger] has_pool(s2, a) == has_pool(s, a) by {
        if has_pool(s, a) {
            let w = choose|w: int| 0 <= w < s.len() && is_pool(#[trigger] s[w], a);
            assert(is_pool(s2[w], a));
        }
        if has_pool(s2, a) {
            let w = choose|w: int| 0 <= w < s2.len() && is_pool(#[trigger] s2[w], a);
            assert(w != n);
            assert(is_pool(s[w], a));
        }
    }
    assert forall|a: u64|
        a != e.asset implies #[trigger] deposited_of(s2, a) == deposited_of(s, a) && borrowed_of(
        s2,
        a,
    ) == borrowed_of(s, a) && frozen_of(s2, a) == frozen_of(s, a) by {
        if has_pool(s, a) {
            let w = choose|w: int| 0 <= w < s.len() && is_pool(#[trigger] s[w], a);
            assert(s2[w] == s[w]);
            lemma_pool_of_at(s, a, w);
            lemma_pool_of_at(s2, a, w);
        } else {
            assert(!has_pool(s2, a));
        }
    }
    assert forall|a: u64|
        a != e.asset implies #[trigger] borrowed_of(s.push(e), a) == borrowed_of(s, a) by {
        assert(deposited_of(s2, a) == deposited_of(s, a));
    }
    assert forall|a: u64|
        a != e.asset implies #[trigger] frozen_of(s.push(e), a) == frozen_of(s, a) by {
        assert(deposited_of(s2, a) == deposited_of(s, a));
    }
}

} // verus!
