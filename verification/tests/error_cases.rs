use ledger_core::errors::LedgerError;
use ledger_core::ledger::Ledger;

#[test]
fn deposit_overflow_is_rejected() {
    let mut l = Ledger::new();
    assert!(l.deposit(1, 10, u64::MAX).is_ok());
    assert_eq!(l.deposit(1, 11, 1), Err(LedgerError::Overflow));
    assert_eq!(l.balance_of(1, 11), 0);
    assert_eq!(l.total_deposited(1), u64::MAX);
}

#[test]
fn withdraw_more_than_held_is_rejected() {
    let mut l = Ledger::new();
    assert!(l.deposit(1, 10, 100).is_ok());
    assert_eq!(l.withdraw(1, 10, 101), Err(LedgerError::InsufficientBalance));
    assert_eq!(l.balance_of(1, 10), 100);
}

#[test]
fn withdraw_that_strands_loans_is_rejected() {
    let mut l = Ledger::new();
    assert!(l.deposit(1, 10, 1000).is_ok());
    assert!(l.borrow(1, 20, 800, 3).is_ok());
    assert_eq!(l.withdraw(1, 10, 500), Err(LedgerError::InsufficientLiquidity));
    assert_eq!(l.balance_of(1, 10), 1000);
    assert_eq!(l.total_deposited(1), 1000);
    assert!(l.withdraw(1, 10, 200).is_ok());
    assert_eq!(l.total_deposited(1), 800);
}

#[test]
fn transfer_more_than_held_is_rejected() {
    let mut l = Ledger::new();
    assert!(l.deposit(1, 10, 100).is_ok());
    assert_eq!(l.transfer(1, 10, 20, 101), Err(LedgerError::InsufficientBalance));
    assert_eq!(l.balance_of(1, 10), 100);
    assert_eq!(l.balance_of(1, 20), 0);
}

#[test]
fn transfer_on_frozen_asset_is_rejected() {
    let mut l = Ledger::new();
    assert!(l.deposit(1, 10, 100).is_ok());
    assert!(l.freeze(1).is_ok());
    assert_eq!(l.transfer(1, 10, 20, 10), Err(LedgerError::AssetFrozen));
}

#[test]
fn repay_without_loan_is_rejected() {
    let mut l = Ledger::new();
    assert!(l.deposit(1, 10, 100).is_ok());
    assert_eq!(l.repay(1, 20, 10), Err(LedgerError::NoSuchLoan));
}

#[test]
fn freeze_of_unknown_asset_is_rejected() {
    let mut l = Ledger::new();
    assert_eq!(l.freeze(99), Err(LedgerError::AssetUnknown));
    assert_eq!(l.unfreeze(99), Err(LedgerError::AssetUnknown));
    assert!(!l.is_frozen(99));
}

#[test]
fn freeze_is_idempotent_once_known() {
    let mut l = Ledger::new();
    assert!(l.deposit(7, 1, 5).is_ok());
    assert!(l.freeze(7).is_ok());
    assert!(l.freeze(7).is_ok());
    assert!(l.is_frozen(7));
    assert!(l.unfreeze(7).is_ok());
    assert!(l.unfreeze(7).is_ok());
    assert!(!l.is_frozen(7));
}
