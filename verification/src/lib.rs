//! A multi-asset deposit-and-loan ledger.
//!
//! The ledger keeps per-(asset, account) deposit balances, per-(asset, account)
//! loan records, and per-asset pool totals, and applies guarded transitions to
//! them: deposit, withdraw, transfer, borrow, repay, freeze, unfreeze, and a
//! bounded interest-rate update. Every operation either commits all of its
//! writes or none of them, and every committed state satisfies the ledger's
//! conservation and liquidity invariants.

pub mod balance_map;
pub mod errors;
pub mod interest;
pub mod laws;
pub mod ledger;
pub mod loan_map;
pub mod pool_map;
