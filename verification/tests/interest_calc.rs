use ledger_core::errors::LedgerError;
use ledger_core::interest::{calculate_interest, RATE_SCALE};

#[test]
fn interest_exact_value() {
    // 1000 at 5% per period over 10 periods.
    assert_eq!(calculate_interest(1000, 50_000, 10), Ok(500));
}

#[test]
fn interest_at_rate_one() {
    assert_eq!(calculate_interest(1000, RATE_SCALE, 3), Ok(3000));
}

#[test]
fn interest_zero_cases() {
    assert_eq!(calculate_interest(0, 50_000, 10), Ok(0));
    assert_eq!(calculate_interest(1000, 0, 10), Ok(0));
    assert_eq!(calculate_interest(1000, 50_000, 0), Ok(0));
}

#[test]
fn interest_rounds_down() {
    // 3 * 333_333 * 1 = 999_999, just below one whole unit.
    assert_eq!(calculate_interest(3, 333_333, 1), Ok(0));
    assert_eq!(calculate_interest(4, 333_333, 1), Ok(1));
}

#[test]
fn interest_large_exact_value() {
    let principal: u64 = 1 << 32;
    assert_eq!(calculate_interest(principal, 500_000, 2), Ok(principal));
}

#[test]
fn interest_saturates_at_max() {
    assert_eq!(calculate_interest(u64::MAX, RATE_SCALE, u64::MAX), Ok(u64::MAX));
    assert_eq!(calculate_interest(u64::MAX, RATE_SCALE, 2), Ok(u64::MAX));
}

#[test]
fn interest_invalid_rate_is_rejected() {
    assert_eq!(calculate_interest(1000, RATE_SCALE + 1, 10), Err(LedgerError::InvalidRate));
    assert_eq!(calculate_interest(0, u64::MAX, 0), Err(LedgerError::InvalidRate));
}

#[test]
fn interest_is_deterministic() {
    let a = calculate_interest(123_456, 250_000, 7);
    let b = calculate_interest(123_456, 250_000, 7);
    assert_eq!(a, b);
    assert_eq!(a, Ok(123_456 * 250_000 * 7 / 1_000_000));
}
