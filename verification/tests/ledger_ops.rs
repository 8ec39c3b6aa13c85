use ledger_core::errors::LedgerError;
use ledger_core::ledger::Ledger;

#[test]
fn it_deposits_assets() {
    let mut l = Ledger::new();
    assert!(l.deposit(1, 1, 100).is_ok());
    assert_eq!(l.balance_of(1, 1), 100);
}

#[test]
fn it_withdraws_assets() {
    let mut l = Ledger::new();
    assert!(l.deposit(1, 1, 100).is_ok());
    assert!(l.withdraw(1, 1, 50).is_ok());
    assert_eq!(l.balance_of(1, 1), 50);
}

#[test]
fn it_borrows_assets() {
    let mut l = Ledger::new();
    assert!(l.deposit(1, 2, 1000).is_ok());
    assert!(l.borrow(1, 1, 100, 10).is_ok());
    assert_eq!(l.query(1, 1), (100, 10));
}

#[test]
fn it_repays_assets() {
    let mut l = Ledger::new();
    assert!(l.deposit(1, 2, 1000).is_ok());
    assert!(l.borrow(1, 1, 100, 10).is_ok());
    assert!(l.repay(1, 1, 50).is_ok());
    assert_eq!(l.query(1, 1), (50, 10));
}

#[test]
fn update_interest_rate_works() {
    let mut l = Ledger::new();
    assert!(l.update_rate(50_000).is_ok());
    assert_eq!(l.current_rate(), 50_000);
}

#[test]
fn prevent_invalid_interest_rate_update() {
    let mut l = Ledger::new();
    assert_eq!(l.update_rate(1_100_000), Err(LedgerError::InvalidRate));
    assert_eq!(l.current_rate(), 0);
}
