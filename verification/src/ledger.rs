use crate::balance_map::{
    asset_total, balance_keys_unique, balance_of, has_balance, is_balance, lemma_asset_total_push,
    lemma_asset_total_update, lemma_balance_le_asset_total, lemma_balance_of_at,
    lemma_balance_push, lemma_balance_update, lemma_two_balances_le_asset_total, BalanceEntry,
};
use crate::errors::LedgerError;
use crate::interest::RATE_SCALE;
use crate::loan_map::{
    has_loan, is_loan, lemma_loan_of_at, lemma_loan_push, lemma_loan_total_push,
    lemma_loan_total_update, lemma_loan_update, lemma_principal_le_loan_total, loan_keys_unique,
    loan_total, principal_of, term_of, LoanEntry,
};
use crate::pool_map::{
    borrowed_of, deposited_of, frozen_of, has_pool, is_pool, lemma_pool_of_at, lemma_pool_push,
    lemma_pool_update, pool_keys_unique, PoolEntry,
};
use vstd::prelude::*;

verus! {

/// The multi-asset deposit-and-loan ledger.
///
/// Balances, loans and per-asset pool totals are held as keyed records. A
/// well-formed ledger (`wf`) keeps each store's keys unique and the pool
/// totals reconciled against the record sums: for every asset, the deposited
/// total equals the sum of its balances, the borrowed total equals the sum of
/// its outstanding principal, and the pool never lends out more than it holds.
/// Every operation requires and re-establishes `wf`.
pub struct Ledger {
    pub balances: Vec<BalanceEntry>,
    pub loans: Vec<LoanEntry>,
    pub pools: Vec<PoolEntry>,
    pub rate: u64,
}

impl Ledger {
    /// The balance the ledger holds for `account` in `asset`.
    #[verifier::inline]
    pub open spec fn spec_balance(self, asset: u64, account: u64) -> u64 {
        balance_of(self.balances@, asset, account)
    }

    /// The outstanding loan principal `account` owes for `asset`.
    #[verifier::inline]
    pub open spec fn spec_principal(self, asset: u64, account: u64) -> u64 {
        principal_of(self.loans@, asset, account)
    }

    /// The term recorded on `account`'s loan for `asset`.
    #[verifier::inline]
    pub open spec fn spec_term(self, asset: u64, account: u64) -> u64 {
        term_of(self.loans@, asset, account)
    }

    /// Whether a loan record exists for `(asset, account)`.
    #[verifier::inline]
    pub open spec fn spec_has_loan(self, asset: u64, account: u64) -> bool {
        has_loan(self.loans@, asset, account)
    }

    /// The pool's total deposits for `asset`.
    #[verifier::inline]
    pub open spec fn spec_deposited(self, asset: u64) -> u64 {
        deposited_of(self.pools@, asset)
    }

    /// The pool's total outstanding loans for `asset`.
    #[verifier::inline]
    pub open spec fn spec_borrowed(self, asset: u64) -> u64 {
        borrowed_of(self.pools@, asset)
    }

    /// Whether `asset` is frozen.
    #[verifier::inline]
    pub open spec fn spec_frozen(self, asset: u64) -> bool {
        frozen_of(self.pools@, asset)
    }

    /// Whether the ledger has a pool record for `asset`, that is, whether the
    /// asset has seen any deposit or borrow activity.
    #[verifier::inline]
    pub open spec fn spec_known(self, asset: u64) -> bool {
        has_pool(self.pools@, asset)
    }

    /// The stored interest rate, in parts of `RATE_SCALE`.
    #[verifier::inline]
    pub open spec fn spec_rate(self) -> u64 {
        self.rate
    }

    /// Whether every observation of `self` equals the matching observation
    /// of `pre`: a failed operation ensures this, so failures commit nothing.
    pub open spec fn unchanged_from(self, pre: Ledger) -> bool {
        &&& forall|a: u64, c: u64| #[trigger] self.spec_balance(a, c) == pre.spec_balance(a, c)
        &&& forall|a: u64, c: u64|
            #[trigger] self.spec_principal(a, c) == pre.spec_principal(a, c)
        &&& forall|a: u64, c: u64| #[trigger] self.spec_term(a, c) == pre.spec_term(a, c)
        &&& forall|a: u64, c: u64| #[trigger] self.spec_has_loan(a, c) == pre.spec_has_loan(a, c)
        &&& forall|a: u64| #[trigger] self.spec_deposited(a) == pre.spec_deposited(a)
        &&& forall|a: u64| #[trigger] self.spec_borrowed(a) == pre.spec_borrowed(a)
        &&& forall|a: u64| #[trigger] self.spec_frozen(a) == pre.spec_frozen(a)
        &&& forall|a: u64| #[trigger] self.spec_known(a) == pre.spec_known(a)
        &&& self.spec_rate() == pre.spec_rate()
    }

    /// Well-formedness: keys are unique, the rate is within bounds, and for
    /// every asset the pool totals are reconciled against the record sums and
    /// respect the liquidity bound.
    pub open spec fn wf(self) -> bool {
        &&& balance_keys_unique(self.balances@)
        &&& loan_keys_unique(self.loans@)
        &&& pool_keys_unique(self.pools@)
        &&& self.rate <= RATE_SCALE
        &&& forall|a: u64|
            #[trigger] asset_total(self.balances@, a) == deposited_of(self.pools@, a) as int
        &&& forall|a: u64|
            #[trigger] loan_total(self.loans@, a) == borrowed_of(self.pools@, a) as int
        &&& forall|a: u64|
            #[trigger] borrowed_of(self.pools@, a) <= deposited_of(self.pools@, a)
    }

    /// A fresh, empty ledger: no balances, no loans, no pools, rate zero.
    pub fn new() -> (l: Ledger)
        ensures
            l.wf(),
            forall|a: u64, c: u64| #[trigger] l.spec_balance(a, c) == 0,
            forall|a: u64, c: u64| !#[trigger] l.spec_has_loan(a, c),
            forall|a: u64| #[trigger] l.spec_deposited(a) == 0,
            forall|a: u64| #[trigger] l.spec_borrowed(a) == 0,
            forall|a: u64| !#[trigger] l.spec_frozen(a),
            forall|a: u64| !#[trigger] l.spec_known(a),
            l.spec_rate() == 0,
    {
        let l = Ledger { balances: Vec::new(), loans: Vec::new(), pools: Vec::new(), rate: 0 };
        proof {
            assert forall|a: u64| #[trigger] asset_total(l.balances@, a) == 0 by {
                assert(l.balances@.len() == 0);
            }
            assert forall|a: u64| #[trigger] loan_total(l.loans@, a) == 0 by {
                assert(l.loans@.len() == 0);
            }
        }
        l
    }
}

/// Index of the balance record for `(asset, account)`, if one exists.
pub(crate) fn find_balance_idx(v: &Vec<BalanceEntry>, asset: u64, account: u64) -> (r: Option<
    usize,
>)
    ensures
        match r {
            Some(i) => i < v@.len() && is_balance(v@[i as int], asset, account),
            None => !has_balance(v@, asset, account),
        },
{
    let n = v.len();
    let mut i: usize = 0;
    while i < n
        invariant
            i <= n,
            n == v@.len(),
            forall|k: int| 0 <= k < i ==> !is_balance(#[trigger] v@[k], asset, account),
        decreases n - i,
    {
        if v[i].asset == asset && v[i].account == account {
            return Some(i);
        }
        i = i + 1;
    }
    None
}

/// Index of the loan record for `(asset, account)`, if one exists.
pub(crate) fn find_loan_idx(v: &Vec<LoanEntry>, asset: u64, account: u64) -> (r: Option<usize>)
    ensures
        match r {
            Some(i) => i < v@.len() && is_loan(v@[i as int], asset, account),
            None => !has_loan(v@, asset, account),
        },
{
    let n = v.len();
    let mut i: usize = 0;
    while i < n
        invariant
            i <= n,
            n == v@.len(),
            forall|k: int| 0 <= k < i ==> !is_loan(#[trigger] v@[k], asset, account),
        decreases n - i,
    {
        if v[i].asset == asset && v[i].account == account {
            return Some(i);
        }
        i = i + 1;
    }
    None
}

/// Index of the pool record for `asset`, if one exists.
pub(crate) fn find_pool_idx(v: &Vec<PoolEntry>, asset: u64) -> (r: Option<usize>)
    ensures
        match r {
            Some(i) => i < v@.len() && is_pool(v@[i as int], asset),
            None => !has_pool(v@, asset),
        },
{
    let n = v.len();
    let mut i: usize = 0;
    while i < n
        invariant
            i <= n,
            n == v@.len(),
            forall|k: int| 0 <= k < i ==> !is_pool(#[trigger] v@[k], asset),
        decreases n - i,
    {
        if v[i].asset == asset {
            return Some(i);
        }
        i = i + 1;
    }
    None
}

/// Adds `amount` to the `(asset, account)` balance record, creating the
/// record if absent. Touches no other key and moves only that asset's total.
fn credit_entry(v: &mut Vec<BalanceEntry>, asset: u64, account: u64, amount: u64)
    requires
        balance_keys_unique(old(v)@),
        balance_of(old(v)@, asset, account) + amount <= u64::MAX,
    ensures
        balance_keys_unique(final(v)@),
        balance_of(final(v)@, asset, account) == balance_of(old(v)@, asset, account) + amount,
        forall|a: u64, c: u64|
            !(a == asset && c == account) ==> #[trigger] balance_of(final(v)@, a, c) == balance_of(
                old(v)@,
                a,
                c,
            ),
        forall|a: u64|
            #[trigger] asset_total(final(v)@, a) == asset_total(old(v)@, a) + (if a == asset {
                amount as int
            } else {
                0
            }),
{
    match find_balance_idx(v, asset, account) {
        Some(bi) => {
            proof {
                lemma_balance_of_at(v@, asset, account, bi as int);
            }
            let mut be = v[bi];
            be.amount = be.amount + amount;
            let ghost pre = v@;
            v[bi] = be;
            proof {
                lemma_balance_update(pre, bi as int, be);
                lemma_asset_total_update(pre, bi as int, be);
            }
        },
        None => {
            let be = BalanceEntry { asset, account, amount };
            let ghost pre = v@;
            v.push(be);
            proof {
                lemma_balance_push(pre, be);
                lemma_asset_total_push(pre, be);
            }
        },
    }
}

/// Subtracts `amount` from the `(asset, account)` balance record; the caller
/// must have checked sufficiency. Touches no other key and moves only that
/// asset's total.
fn debit_entry(v: &mut Vec<BalanceEntry>, asset: u64, account: u64, amount: u64)
    requires
        balance_keys_unique(old(v)@),
        amount <= balance_of(old(v)@, asset, account),
    ensures
        balance_keys_unique(final(v)@),
        balance_of(final(v)@, asset, account) == balance_of(old(v)@, asset, account) - amount,
        forall|a: u64, c: u64|
            !(a == asset && c == account) ==> #[trigger] balance_of(final(v)@, a, c) == balance_of(
                old(v)@,
                a,
                c,
            ),
        forall|a: u64|
            #[trigger] asset_total(final(v)@, a) == asset_total(old(v)@, a) - (if a == asset {
                amount as int
            } else {
                0
            }),
{
    match find_balance_idx(v, asset, account) {
        Some(bi) => {
            proof {
                lemma_balance_of_at(v@, asset, account, bi as int);
            }
            let mut be = v[bi];
            be.amount = be.amount - amount;
            let ghost pre = v@;
            v[bi] = be;
            proof {
                lemma_balance_update(pre, bi as int, be);
                lemma_asset_total_update(pre, bi as int, be);
            }
        },
        None => {
            // No record means a zero balance, so `amount` is zero too.
        },
    }
}

impl Ledger {
    /// The balance held for `account` in `asset`; zero when no record exists.
    pub fn balance_of(&self, asset: u64, account: u64) -> (r: u64)
        requires
            self.wf(),
        ensures
            r == self.spec_balance(asset, account),
    {
        match find_balance_idx(&self.balances, asset, account) {
            Some(i) => {
                proof {
                    lemma_balance_of_at(self.balances@, asset, account, i as int);
                }
                self.balances[i].amount
            },
            None => 0,
        }
    }

    /// The loan record for `(asset, account)` as `(principal, term)`;
    /// `(0, 0)` when no record exists. Never fails and never mutates.
    pub fn query(&self, asset: u64, account: u64) -> (r: (u64, u64))
        requires
            self.wf(),
        ensures
            r.0 == self.spec_principal(asset, account),
            r.1 == self.spec_term(asset, account),
    {
        match find_loan_idx(&self.loans, asset, account) {
            Some(i) => {
                proof {
                    lemma_loan_of_at(self.loans@, asset, account, i as int);
                }
                (self.loans[i].principal, self.loans[i].term)
            },
            None => (0, 0),
        }
    }

    /// The pool's total deposits for `asset`; zero when the asset is unknown.
    pub fn total_deposited(&self, asset: u64) -> (r: u64)
        requires
            self.wf(),
        ensures
            r == self.spec_deposited(asset),
    {
        match find_pool_idx(&self.pools, asset) {
            Some(i) => {
                proof {
                    lemma_pool_of_at(self.pools@, asset, i as int);
                }
                self.pools[i].deposited
            },
            None => 0,
        }
    }

    /// The pool's total outstanding loans for `asset`; zero when unknown.
    pub fn total_borrowed(&self, asset: u64) -> (r: u64)
        requires
            self.wf(),
        ensures
            r == self.spec_borrowed(asset),
    {
        match find_pool_idx(&self.pools, asset) {
            Some(i) => {
                proof {
                    lemma_pool_of_at(self.pools@, asset, i as int);
                }
                self.pools[i].borrowed
            },
            None => 0,
        }
    }

    /// Whether `asset` is frozen; an unknown asset is not frozen.
    pub fn is_frozen(&self, asset: u64) -> (r: bool)
        requires
            self.wf(),
        ensures
            r == self.spec_frozen(asset),
    {
        match find_pool_idx(&self.pools, asset) {
            Some(i) => {
                proof {
                    lemma_pool_of_at(self.pools@, asset, i as int);
                }
                self.pools[i].frozen
            },
            None => false,
        }
    }

    /// The stored interest rate, in parts of `RATE_SCALE`.
    pub fn current_rate(&self) -> (r: u64)
        ensures
            r == self.spec_rate(),
    {
        self.rate
    }

    /// Credits `amount` to `account`'s balance in `asset` and raises the
    /// asset's deposited total by the same amount, atomically. Fails with
    /// `Overflow`, leaving the ledger unchanged, exactly when the new
    /// deposited total would not be representable.
    pub fn deposit(&mut self, asset: u64, account: u64, amount: u64) -> (r: Result<
        (),
        LedgerError,
    >)
        requires
            old(self).wf(),
        ensures
            final(self).wf(),
            (r is Ok) == (old(self).spec_deposited(asset) + amount <= u64::MAX),
            match r {
                Ok(()) => {
                    &&& final(self).spec_balance(asset, account) == old(self).spec_balance(
                        asset,
                        account,
                    ) + amount
                    &&& final(self).spec_deposited(asset) == old(self).spec_deposited(asset)
                        + amount
                    &&& final(self).spec_known(asset)
                },
                Err(e) => e == LedgerError::Overflow && final(self).unchanged_from(*old(self)),
            },
            forall|a: u64, c: u64|
                !(a == asset && c == account) ==> #[trigger] final(self).spec_balance(a, c) == old(
                    self,
                ).spec_balance(a, c),
            forall|a: u64|
                a != asset ==> #[trigger] final(self).spec_deposited(a) == old(
                    self,
                ).spec_deposited(a),
            forall|a: u64|
                a != asset ==> #[trigger] final(self).spec_known(a) == old(self).spec_known(a),
            forall|a: u64| #[trigger] final(self).spec_borrowed(a) == old(self).spec_borrowed(a),
            forall|a: u64| #[trigger] final(self).spec_frozen(a) == old(self).spec_frozen(a),
            forall|a: u64, c: u64|
                #[trigger] final(self).spec_principal(a, c) == old(self).spec_principal(a, c),
            forall|a: u64, c: u64|
                #[trigger] final(self).spec_term(a, c) == old(self).spec_term(a, c),
            forall|a: u64, c: u64|
                #[trigger] final(self).spec_has_loan(a, c) == old(self).spec_has_loan(a, c),
            final(self).spec_rate() == old(self).spec_rate(),
    {
        match find_pool_idx(&self.pools, asset) {
            Some(pi) => {
                proof {
                    lemma_pool_of_at(self.pools@, asset, pi as int);
                }
                let d = self.pools[pi].deposited;
                if amount > u64::MAX - d {
                    return Err(LedgerError::Overflow);
                }
                let mut pe = self.pools[pi];
                pe.deposited = d + amount;
                let ghost pre = self.pools@;
                self.pools[pi] = pe;
                proof {
                    lemma_pool_update(pre, pi as int, pe);
                }
            },
            None => {
                let pe = PoolEntry { asset, deposited: amount, borrowed: 0, frozen: false };
                let ghost pre = self.pools@;
                self.pools.push(pe);
                proof {
                    lemma_pool_push(pre, pe);
                }
            },
        }
        proof {
            lemma_balance_le_asset_total(self.balances@, asset, account);
        }
        credit_entry(&mut self.balances, asset, account, amount);
        Ok(())
    }

    /// Debits `amount` from `account`'s balance in `asset` and lowers the
    /// asset's deposited total by the same amount, atomically. Fails with
    /// `InsufficientBalance` when the account holds less than `amount`, and
    /// with `InsufficientLiquidity` when the debit would leave the pool
    /// holding less than it has lent out; either failure leaves the ledger
    /// unchanged.
    pub fn withdraw(&mut self, asset: u64, account: u64, amount: u64) -> (r: Result<
        (),
        LedgerError,
    >)
        requires
            old(self).wf(),
        ensures
            final(self).wf(),
            (r is Ok) == (amount <= old(self).spec_balance(asset, account) && old(
                self,
            ).spec_deposited(asset) - amount >= old(self).spec_borrowed(asset)),
            match r {
                Ok(()) => {
                    &&& final(self).spec_balance(asset, account) == old(self).spec_balance(
                        asset,
                        account,
                    ) - amount
                    &&& final(self).spec_deposited(asset) == old(self).spec_deposited(asset)
                        - amount
                },
                Err(e) => {
                    &&& final(self).unchanged_from(*old(self))
                    &&& e == (if amount > old(self).spec_balance(asset, account) {
                        LedgerError::InsufficientBalance
                    } else {
                        LedgerError::InsufficientLiquidity
                    })
                },
            },
            forall|a: u64, c: u64|
                !(a == asset && c == account) ==> #[trigger] final(self).spec_balance(a, c) == old(
                    self,
                ).spec_balance(a, c),
            forall|a: u64|
                a != asset ==> #[trigger] final(self).spec_deposited(a) == old(
                    self,
                ).spec_deposited(a),
            forall|a: u64| #[trigger] final(self).spec_borrowed(a) == old(self).spec_borrowed(a),
            forall|a: u64| #[trigger] final(self).spec_frozen(a) == old(self).spec_frozen(a),
            forall|a: u64| #[trigger] final(self).spec_known(a) == old(self).spec_known(a),
            forall|a: u64, c: u64|
                #[trigger] final(self).spec_principal(a, c) == old(self).spec_principal(a, c),
            forall|a: u64, c: u64|
                #[trigger] final(self).spec_term(a, c) == old(self).spec_term(a, c),
            forall|a: u64, c: u64|
                #[trigger] final(self).spec_has_loan(a, c) == old(self).spec_has_loan(a, c),
            final(self).spec_rate() == old(self).spec_rate(),
    {
        let b = self.balance_of(asset, account);
        if amount > b {
            return Err(LedgerError::InsufficientBalance);
        }
        proof {
            lemma_balance_le_asset_total(self.balances@, asset, account);
        }
        match find_pool_idx(&self.pools, asset) {
            Some(pi) => {
                proof {
                    lemma_pool_of_at(self.pools@, asset, pi as int);
                }
                let d = self.pools[pi].deposited;
                let bor = self.pools[pi].borrowed;
                if bor > d - amount {
                    return Err(LedgerError::InsufficientLiquidity);
                }
                let mut pe = self.pools[pi];
                pe.deposited = d - amount;
                let ghost pre = self.pools@;
                self.pools[pi] = pe;
                proof {
                    lemma_pool_update(pre, pi as int, pe);
                }
            },
            None => {
                // An unknown asset has a zero total, so the balance and hence
                // `amount` are zero and there is nothing to adjust.
            },
        }
        debit_entry(&mut self.balances, asset, account, amount);
        Ok(())
    }

    /// Moves `amount` from `from` to `to` within `asset` as one atomic step:
    /// the debit and the credit commit together or not at all. Fails with
    /// `AssetFrozen` while the asset is frozen, and otherwise with
    /// `InsufficientBalance` when `from` holds less than `amount`; either
    /// failure leaves the ledger unchanged. Pool totals never move.
    pub fn transfer(&mut self, asset: u64, from: u64, to: u64, amount: u64) -> (r: Result<
        (),
        LedgerError,
    >)
        requires
            old(self).wf(),
        ensures
            final(self).wf(),
            (r is Ok) == (!old(self).spec_frozen(asset) && amount <= old(self).spec_balance(
                asset,
                from,
            )),
            match r {
                Ok(()) => if from == to {
                    final(self).spec_balance(asset, from) == old(self).spec_balance(asset, from)
                } else {
                    &&& final(self).spec_balance(asset, from) == old(self).spec_balance(
                        asset,
                        from,
                    ) - amount
                    &&& final(self).spec_balance(asset, to) == old(self).spec_balance(asset, to)
                        + amount
                },
                Err(e) => {
                    &&& final(self).unchanged_from(*old(self))
                    &&& e == (if old(self).spec_frozen(asset) {
                        LedgerError::AssetFrozen
                    } else {
                        LedgerError::InsufficientBalance
                    })
                },
            },
            forall|a: u64, c: u64|
                !(a == asset && (c == from || c == to)) ==> #[trigger] final(self).spec_balance(
                    a,
                    c,
                ) == old(self).spec_balance(a, c),
            forall|a: u64| #[trigger] final(self).spec_deposited(a) == old(self).spec_deposited(a),
            forall|a: u64| #[trigger] final(self).spec_borrowed(a) == old(self).spec_borrowed(a),
            forall|a: u64| #[trigger] final(self).spec_frozen(a) == old(self).spec_frozen(a),
            forall|a: u64| #[trigger] final(self).spec_known(a) == old(self).spec_known(a),
            forall|a: u64, c: u64|
                #[trigger] final(self).spec_principal(a, c) == old(self).spec_principal(a, c),
            forall|a: u64, c: u64|
                #[trigger] final(self).spec_term(a, c) == old(self).spec_term(a, c),
            forall|a: u64, c: u64|
                #[trigger] final(self).spec_has_loan(a, c) == old(self).spec_has_loan(a, c),
            final(self).spec_rate() == old(self).spec_rate(),
    {
        if self.is_frozen(asset) {
            return Err(LedgerError::AssetFrozen);
        }
        let b_from = self.balance_of(asset, from);
        if amount > b_from {
            return Err(LedgerError::InsufficientBalance);
        }
        proof {
            if from != to {
                lemma_two_balances_le_asset_total(self.balances@, asset, from, to);
            }
        }
        debit_entry(&mut self.balances, asset, from, amount);
        credit_entry(&mut self.balances, asset, to, amount);
        Ok(())
    }

    /// Opens or grows `borrower`'s loan in `asset`: adds `amount` to the
    /// outstanding principal, overwrites the recorded term with `term` (last
    /// write wins), and raises the asset's borrowed total by `amount`. Fails
    /// with `InsufficientLiquidity`, leaving the ledger unchanged, exactly
    /// when the pool's deposits cannot back the new borrowed total.
    pub fn borrow(&mut self, asset: u64, borrower: u64, amount: u64, term: u64) -> (r: Result<
        (),
        LedgerError,
    >)
        requires
            old(self).wf(),
        ensures
            final(self).wf(),
            (r is Ok) == (old(self).spec_borrowed(asset) + amount <= old(self).spec_deposited(
                asset,
            )),
            match r {
                Ok(()) => {
                    &&& final(self).spec_principal(asset, borrower) == old(self).spec_principal(
                        asset,
                        borrower,
                    ) + amount
                    &&& final(self).spec_term(asset, borrower) == term
                    &&& final(self).spec_has_loan(asset, borrower)
                    &&& final(self).spec_borrowed(asset) == old(self).spec_borrowed(asset) + amount
                },
                Err(e) => e == LedgerError::InsufficientLiquidity && final(self).unchanged_from(
                    *old(self),
                ),
            },
            forall|a: u64, c: u64|
                !(a == asset && c == borrower) ==> #[trigger] final(self).spec_principal(a, c)
                    == old(self).spec_principal(a, c),
            forall|a: u64, c: u64|
                !(a == asset && c == borrower) ==> #[trigger] final(self).spec_term(a, c) == old(
                    self,
                ).spec_term(a, c),
            forall|a: u64, c: u64|
                !(a == asset && c == borrower) ==> #[trigger] final(self).spec_has_loan(a, c)
                    == old(self).spec_has_loan(a, c),
            forall|a: u64, c: u64|
                #[trigger] final(self).spec_balance(a, c) == old(self).spec_balance(a, c),
            forall|a: u64| #[trigger] final(self).spec_deposited(a) == old(self).spec_deposited(a),
            forall|a: u64|
                a != asset ==> #[trigger] final(self).spec_borrowed(a) == old(self).spec_borrowed(
                    a,
                ),
            forall|a: u64| #[trigger] final(self).spec_frozen(a) == old(self).spec_frozen(a),
            forall|a: u64| #[trigger] final(self).spec_known(a) == old(self).spec_known(a),
            final(self).spec_rate() == old(self).spec_rate(),
    {
        match find_pool_idx(&self.pools, asset) {
            Some(pi) => {
                proof {
                    lemma_pool_of_at(self.pools@, asset, pi as int);
                }
                let d = self.pools[pi].deposited;
                let bor = self.pools[pi].borrowed;
                if amount > d - bor {
                    return Err(LedgerError::InsufficientLiquidity);
                }
                let mut pe = self.pools[pi];
                pe.borrowed = bor + amount;
                let ghost pre = self.pools@;
                self.pools[pi] = pe;
                proof {
                    lemma_pool_update(pre, pi as int, pe);
                }
            },
            None => {
                if amount > 0 {
                    return Err(LedgerError::InsufficientLiquidity);
                }
                // Borrowing nothing against an unknown asset leaves the pool
                // as it is: a zero borrowed total needs no record.
            },
        }
        proof {
            lemma_principal_le_loan_total(self.loans@, asset, borrower);
        }
        match find_loan_idx(&self.loans, asset, borrower) {
            Some(li) => {
                proof {
                    lemma_loan_of_at(self.loans@, asset, borrower, li as int);
                }
                let mut le = self.loans[li];
                le.principal = le.principal + amount;
                le.term = term;
                let ghost pre = self.loans@;
                self.loans[li] = le;
                proof {
                    lemma_loan_update(pre, li as int, le);
                    lemma_loan_total_update(pre, li as int, le);
                }
            },
            None => {
                let le = LoanEntry { asset, account: borrower, principal: amount, term };
                let ghost pre = self.loans@;
                self.loans.push(le);
                proof {
                    lemma_loan_push(pre, le);
                    lemma_loan_total_push(pre, le);
                }
            },
        }
        Ok(())
    }

    /// Pays `amount` off `borrower`'s loan in `asset`: subtracts it from the
    /// outstanding principal (the term is untouched) and lowers the asset's
    /// borrowed total by the same amount. A record repaid to zero is kept
    /// with zero principal. Fails with `NoSuchLoan` when no loan record
    /// exists, and with `InsufficientLoan` when `amount` exceeds the
    /// principal; either failure leaves the ledger unchanged.
    pub fn repay(&mut self, asset: u64, borrower: u64, amount: u64) -> (r: Result<
        (),
        LedgerError,
    >)
        requires
            old(self).wf(),
        ensures
            final(self).wf(),
            (r is Ok) == (old(self).spec_has_loan(asset, borrower) && amount <= old(
                self,
            ).spec_principal(asset, borrower)),
            match r {
                Ok(()) => {
                    &&& final(self).spec_principal(asset, borrower) == old(self).spec_principal(
                        asset,
                        borrower,
                    ) - amount
                    &&& final(self).spec_term(asset, borrower) == old(self).spec_term(
                        asset,
                        borrower,
                    )
                    &&& final(self).spec_borrowed(asset) == old(self).spec_borrowed(asset) - amount
                },
                Err(e) => {
                    &&& final(self).unchanged_from(*old(self))
                    &&& e == (if !old(self).spec_has_loan(asset, borrower) {
                        LedgerError::NoSuchLoan
                    } else {
                        LedgerError::InsufficientLoan
                    })
                },
            },
            forall|a: u64, c: u64|
                !(a == asset && c == borrower) ==> #[trigger] final(self).spec_principal(a, c)
                    == old(self).spec_principal(a, c),
            forall|a: u64, c: u64|
                !(a == asset && c == borrower) ==> #[trigger] final(self).spec_term(a, c) == old(
                    self,
                ).spec_term(a, c),
            forall|a: u64, c: u64|
                #[trigger] final(self).spec_has_loan(a, c) == old(self).spec_has_loan(a, c),
            forall|a: u64, c: u64|
                #[trigger] final(self).spec_balance(a, c) == old(self).spec_balance(a, c),
            forall|a: u64| #[trigger] final(self).spec_deposited(a) == old(self).spec_deposited(a),
            forall|a: u64|
                a != asset ==> #[trigger] final(self).spec_borrowed(a) == old(self).spec_borrowed(
                    a,
                ),
            forall|a: u64| #[trigger] final(self).spec_frozen(a) == old(self).spec_frozen(a),
            forall|a: u64| #[trigger] final(self).spec_known(a) == old(self).spec_known(a),
            final(self).spec_rate() == old(self).spec_rate(),
    {
        match find_loan_idx(&self.loans, asset, borrower) {
            None => Err(LedgerError::NoSuchLoan),
            Some(li) => {
                proof {
                    lemma_loan_of_at(self.loans@, asset, borrower, li as int);
                    lemma_principal_le_loan_total(self.loans@, asset, borrower);
                }
                let p = self.loans[li].principal;
                if amount > p {
                    return Err(LedgerError::InsufficientLoan);
                }
                let mut le = self.loans[li];
                le.principal = p - amount;
                let ghost pre = self.loans@;
                self.loans[li] = le;
                proof {
                    lemma_loan_update(pre, li as int, le);
                    lemma_loan_total_update(pre, li as int, le);
                }
                match find_pool_idx(&self.pools, asset) {
                    Some(pi) => {
                        proof {
                            lemma_pool_of_at(self.pools@, asset, pi as int);
                        }
                        let bor = self.pools[pi].borrowed;
                        let mut pe = self.pools[pi];
                        pe.borrowed = bor - amount;
                        let ghost prepools = self.pools@;
                        self.pools[pi] = pe;
                        proof {
                            lemma_pool_update(prepools, pi as int, pe);
                        }
                    },
                    None => {
                        // An unknown asset has a zero borrowed total, so the
                        // principal and hence `amount` are zero: nothing to
                        // adjust.
                    },
                }
                Ok(())
            },
        }
    }

    /// Places an administrative hold on `asset`: while the hold stands, every
    /// transfer of the asset fails with `AssetFrozen`. Freezing an already
    /// frozen asset succeeds and changes nothing. Fails with `AssetUnknown`,
    /// leaving the ledger unchanged, exactly when the ledger has no record of
    /// the asset.
    pub fn freeze(&mut self, asset: u64) -> (r: Result<(), LedgerError>)
        requires
            old(self).wf(),
        ensures
            final(self).wf(),
            (r is Ok) == old(self).spec_known(asset),
            match r {
                Ok(()) => final(self).spec_frozen(asset),
                Err(e) => e == LedgerError::AssetUnknown && final(self).unchanged_from(*old(self)),
            },
            forall|a: u64|
                a != asset ==> #[trigger] final(self).spec_frozen(a) == old(self).spec_frozen(a),
            forall|a: u64| #[trigger] final(self).spec_deposited(a) == old(self).spec_deposited(a),
            forall|a: u64| #[trigger] final(self).spec_borrowed(a) == old(self).spec_borrowed(a),
            forall|a: u64| #[trigger] final(self).spec_known(a) == old(self).spec_known(a),
            forall|a: u64, c: u64|
                #[trigger] final(self).spec_balance(a, c) == old(self).spec_balance(a, c),
            forall|a: u64, c: u64|
                #[trigger] final(self).spec_principal(a, c) == old(self).spec_principal(a, c),
            forall|a: u64, c: u64|
                #[trigger] final(self).spec_term(a, c) == old(self).spec_term(a, c),
            forall|a: u64, c: u64|
                #[trigger] final(self).spec_has_loan(a, c) == old(self).spec_has_loan(a, c),
            final(self).spec_rate() == old(self).spec_rate(),
    {
        match find_pool_idx(&self.pools, asset) {
            None => Err(LedgerError::AssetUnknown),
            Some(pi) => {
                proof {
                    lemma_pool_of_at(self.pools@, asset, pi as int);
                }
                let mut pe = self.pools[pi];
                pe.frozen = true;
                let ghost pre = self.pools@;
                self.pools[pi] = pe;
                proof {
                    lemma_pool_update(pre, pi as int, pe);
                }
                Ok(())
            },
        }
    }

    /// Lifts the administrative hold on `asset`; transfers then resume.
    /// Unfreezing an asset that is not frozen succeeds and changes nothing.
    /// Fails with `AssetUnknown`, leaving the ledger unchanged, exactly when
    /// the ledger has no record of the asset.
    pub fn unfreeze(&mut self, asset: u64) -> (r: Result<(), LedgerError>)
        requires
            old(self).wf(),
        ensures
            final(self).wf(),
            (r is Ok) == old(self).spec_known(asset),
            match r {
                Ok(()) => !final(self).spec_frozen(asset),
                Err(e) => e == LedgerError::AssetUnknown && final(self).unchanged_from(*old(self)),
            },
            forall|a: u64|
                a != asset ==> #[trigger] final(self).spec_frozen(a) == old(self).spec_frozen(a),
            forall|a: u64| #[trigger] final(self).spec_deposited(a) == old(self).spec_deposited(a),
            forall|a: u64| #[trigger] final(self).spec_borrowed(a) == old(self).spec_borrowed(a),
            forall|a: u64| #[trigger] final(self).spec_known(a) == old(self).spec_known(a),
            forall|a: u64, c: u64|
                #[trigger] final(self).spec_balance(a, c) == old(self).spec_balance(a, c),
            forall|a: u64, c: u64|
                #[trigger] final(self).spec_principal(a, c) == old(self).spec_principal(a, c),
            forall|a: u64, c: u64|
                #[trigger] final(self).spec_term(a, c) == old(self).spec_term(a, c),
            forall|a: u64, c: u64|
                #[trigger] final(self).spec_has_loan(a, c) == old(self).spec_has_loan(a, c),
            final(self).spec_rate() == old(self).spec_rate(),
    {
        match find_pool_idx(&self.pools, asset) {
            None => Err(LedgerError::AssetUnknown),
            Some(pi) => {
                proof {
                    lemma_pool_of_at(self.pools@, asset, pi as int);
                }
                let mut pe = self.pools[pi];
                pe.frozen = false;
                let ghost pre = self.pools@;
                self.pools[pi] = pe;
                proof {
                    lemma_pool_update(pre, pi as int, pe);
                }
                Ok(())
            },
        }
    }

    /// Replaces the stored interest rate with `new_rate` (in parts of
    /// `RATE_SCALE`). Open loans keep their already-fixed terms. Fails with
    /// `InvalidRate`, leaving the ledger unchanged, exactly when `new_rate`
    /// stands for a fraction above one.
    pub fn update_rate(&mut self, new_rate: u64) -> (r: Result<(), LedgerError>)
        requires
            old(self).wf(),
        ensures
            final(self).wf(),
            (r is Ok) == (new_rate <= RATE_SCALE),
            match r {
                Ok(()) => final(self).spec_rate() == new_rate,
                Err(e) => e == LedgerError::InvalidRate && final(self).unchanged_from(*old(self)),
            },
            forall|a: u64, c: u64|
                #[trigger] final(self).spec_balance(a, c) == old(self).spec_balance(a, c),
            forall|a: u64, c: u64|
                #[trigger] final(self).spec_principal(a, c) == old(self).spec_principal(a, c),
            forall|a: u64, c: u64|
                #[trigger] final(self).spec_term(a, c) == old(self).spec_term(a, c),
            forall|a: u64, c: u64|
                #[trigger] final(self).spec_has_loan(a, c) == old(self).spec_has_loan(a, c),
            forall|a: u64| #[trigger] final(self).spec_deposited(a) == old(self).spec_deposited(a),
            forall|a: u64| #[trigger] final(self).spec_borrowed(a) == old(self).spec_borrowed(a),
            forall|a: u64| #[trigger] final(self).spec_frozen(a) == old(self).spec_frozen(a),
            forall|a: u64| #[trigger] final(self).spec_known(a) == old(self).spec_known(a),
    {
        if new_rate > RATE_SCALE {
            return Err(LedgerError::InvalidRate);
        }
        self.rate = new_rate;
        Ok(())
    }
}

} // verus!
