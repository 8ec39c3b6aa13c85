use vstd::prelude::*;

verus! {

/// Why a ledger operation was refused. Every failure is detected before any
/// write, so a caller that receives one of these saw no state change.
#[derive(Clone, Copy, Debug, PartialEq, Eq, Structural)]
pub enum LedgerError {
    /// A debit asked for more than the account holds.
    InsufficientBalance,
    /// A repayment asked for more than the outstanding principal.
    InsufficientLoan,
    /// A repayment named an account with no loan record.
    NoSuchLoan,
    /// A borrow asked for more than the pool has left to lend.
    InsufficientLiquidity,
    /// A transfer touched an asset that is administratively frozen.
    AssetFrozen,
    /// A freeze or unfreeze named an asset the ledger has never seen.
    AssetUnknown,
    /// A rate outside the unit interval was supplied.
    InvalidRate,
    /// An addition would exceed the largest representable amount.
    Overflow,
}

} // verus!
