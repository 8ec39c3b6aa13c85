use crate::balance_map::asset_total;
use crate::ledger::Ledger;
use crate::loan_map::loan_total;
use vstd::prelude::*;

verus! {

/// Conservation: in a well-formed ledger the pool's per-asset aggregates are
/// exactly the sums of the individual records — the deposited total equals
/// the sum of every account's balance in the asset, and the borrowed total
/// equals the sum of every account's outstanding principal. Every operation
/// requires and re-establishes well-formedness, so this holds after every
/// committed step of any sequence of operations.
pub proof fn lemma_conservation(l: Ledger, asset: u64)
    requires
        l.wf(),
    ensures
        asset_total(l.balances@, asset) == l.spec_deposited(asset) as int,
        loan_total(l.loans@, asset) == l.spec_borrowed(asset) as int,
{
}

/// Liquidity bound: a well-formed ledger never has more lent out of an asset
/// than its pool holds, so the bound holds after every committed operation —
/// in particular after every committed borrow.
pub proof fn lemma_liquidity_bound(l: Ledger, asset: u64)
    requires
        l.wf(),
    ensures
        l.spec_borrowed(asset) <= l.spec_deposited(asset),
{
}

/// Non-negativity: no balance and no loan principal is ever negative, for
/// any asset and account of any ledger state.
pub proof fn lemma_non_negativity(l: Ledger, asset: u64, account: u64)
    ensures
        l.spec_balance(asset, account) >= 0,
        l.spec_principal(asset, account) >= 0,
{
}

} // verus!
