use ledger_core::errors::LedgerError;
use ledger_core::ledger::Ledger;

#[test]
fn deposit_credits_balance_and_pool() {
    let mut l = Ledger::new();
    assert!(l.deposit(1, 100, 1000).is_ok());
    assert_eq!(l.balance_of(1, 100), 1000);
    assert_eq!(l.total_deposited(1), 1000);
}

#[test]
fn transfer_moves_balance_within_asset() {
    let mut l = Ledger::new();
    assert!(l.deposit(1, 100, 1000).is_ok());
    assert!(l.transfer(1, 100, 200, 500).is_ok());
    assert_eq!(l.balance_of(1, 100), 500);
    assert_eq!(l.balance_of(1, 200), 500);
    assert_eq!(l.total_deposited(1), 1000);
}

#[test]
fn borrow_records_loan_and_raises_borrowed_total() {
    let mut l = Ledger::new();
    assert!(l.deposit(1, 100, 1000).is_ok());
    assert_eq!(l.total_deposited(1), 1000);
    assert_eq!(l.total_borrowed(1), 0);
    assert!(l.borrow(1, 300, 100, 10).is_ok());
    assert_eq!(l.query(1, 300), (100, 10));
    assert_eq!(l.total_borrowed(1), 100);
}

#[test]
fn repay_lowers_principal_and_rejects_excess() {
    let mut l = Ledger::new();
    assert!(l.deposit(1, 100, 1000).is_ok());
    assert!(l.borrow(1, 300, 100, 10).is_ok());
    assert!(l.repay(1, 300, 50).is_ok());
    assert_eq!(l.query(1, 300), (50, 10));
    assert_eq!(l.total_borrowed(1), 50);
    assert_eq!(l.repay(1, 300, 1000), Err(LedgerError::InsufficientLoan));
    assert_eq!(l.query(1, 300), (50, 10));
    assert_eq!(l.total_borrowed(1), 50);
}

#[test]
fn freeze_blocks_transfer_until_unfreeze() {
    let mut l = Ledger::new();
    assert!(l.deposit(1, 100, 1000).is_ok());
    assert!(l.freeze(1).is_ok());
    assert_eq!(l.transfer(1, 100, 200, 1), Err(LedgerError::AssetFrozen));
    assert_eq!(l.balance_of(1, 100), 1000);
    assert_eq!(l.balance_of(1, 200), 0);
    assert!(l.unfreeze(1).is_ok());
    assert!(l.transfer(1, 100, 200, 1).is_ok());
    assert_eq!(l.balance_of(1, 100), 999);
    assert_eq!(l.balance_of(1, 200), 1);
}

#[test]
fn borrow_beyond_liquidity_fails_and_changes_nothing() {
    let mut l = Ledger::new();
    assert!(l.deposit(1, 100, 1000).is_ok());
    assert_eq!(l.borrow(1, 400, 10000, 1), Err(LedgerError::InsufficientLiquidity));
    assert_eq!(l.query(1, 400), (0, 0));
    assert_eq!(l.total_borrowed(1), 0);
    assert_eq!(l.total_deposited(1), 1000);
}

#[test]
fn queries_are_idempotent_and_pure() {
    let mut l = Ledger::new();
    assert!(l.deposit(1, 100, 700).is_ok());
    assert!(l.borrow(1, 100, 300, 5).is_ok());
    let first = l.query(1, 100);
    let second = l.query(1, 100);
    assert_eq!(first, second);
    assert_eq!(l.balance_of(1, 100), l.balance_of(1, 100));
    assert_eq!(l.total_deposited(1), 700);
    assert_eq!(l.total_borrowed(1), 300);
    let third = l.query(1, 100);
    assert_eq!(first, third);
}

#[test]
fn totals_stay_reconciled_across_operations() {
    let mut l = Ledger::new();
    assert!(l.deposit(2, 10, 400).is_ok());
    assert!(l.deposit(2, 11, 600).is_ok());
    assert!(l.transfer(2, 10, 12, 150).is_ok());
    assert!(l.borrow(2, 13, 500, 8).is_ok());
    assert!(l.repay(2, 13, 200).is_ok());
    assert!(l.withdraw(2, 11, 100).is_ok());
    let balance_sum = l.balance_of(2, 10) + l.balance_of(2, 11) + l.balance_of(2, 12);
    assert_eq!(balance_sum, l.total_deposited(2));
    assert_eq!(l.query(2, 13).0, l.total_borrowed(2));
    assert!(l.total_borrowed(2) <= l.total_deposited(2));
}

#[test]
fn borrow_twice_accumulates_principal_and_overwrites_term() {
    let mut l = Ledger::new();
    assert!(l.deposit(3, 10, 1000).is_ok());
    assert!(l.borrow(3, 20, 100, 10).is_ok());
    assert!(l.borrow(3, 20, 50, 99).is_ok());
    assert_eq!(l.query(3, 20), (150, 99));
    assert_eq!(l.total_borrowed(3), 150);
}

#[test]
fn zero_amounts_and_self_transfer() {
    let mut l = Ledger::new();
    assert!(l.deposit(1, 10, 0).is_ok());
    assert_eq!(l.total_deposited(1), 0);
    assert!(l.freeze(1).is_ok());
    assert!(l.unfreeze(1).is_ok());
    assert!(l.deposit(1, 10, 50).is_ok());
    assert!(l.withdraw(1, 20, 0).is_ok());
    assert!(l.transfer(1, 10, 10, 25).is_ok());
    assert_eq!(l.balance_of(1, 10), 50);
    assert!(l.borrow(1, 30, 0, 7).is_ok());
    assert_eq!(l.query(1, 30), (0, 7));
    assert!(l.repay(1, 30, 0).is_ok());
    assert_eq!(l.repay(1, 31, 0), Err(LedgerError::NoSuchLoan));
}

#[test]
fn operations_stay_within_their_asset_and_account() {
    let mut l = Ledger::new();
    assert!(l.deposit(1, 10, 100).is_ok());
    assert!(l.deposit(2, 10, 200).is_ok());
    assert!(l.deposit(1, 20, 300).is_ok());
    assert!(l.withdraw(1, 10, 40).is_ok());
    assert_eq!(l.balance_of(2, 10), 200);
    assert_eq!(l.balance_of(1, 20), 300);
    assert_eq!(l.total_deposited(2), 200);
    assert!(l.freeze(2).is_ok());
    assert!(l.transfer(1, 20, 10, 5).is_ok());
    assert!(!l.is_frozen(1));
    assert!(l.is_frozen(2));
}
