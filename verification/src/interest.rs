use crate::errors::LedgerError;
use vstd::prelude::*;

verus! {

/// Fixed-point scale for interest rates: a rate is a value in
/// `0 ..= RATE_SCALE`, standing for the fraction `rate / RATE_SCALE` of the
/// unit interval. `RATE_SCALE` itself is a rate of one.
pub const RATE_SCALE: u64 = 1_000_000;

/// The interest accrued by `principal` at `rate` (in parts of `RATE_SCALE`)
/// over `duration` periods: `principal * rate * duration / RATE_SCALE`,
/// saturating at the largest representable amount.
pub open spec fn interest_amount(principal: int, rate: int, duration: int) -> int {
    let raw = (principal * rate * duration) / (RATE_SCALE as int);
    if raw > u64::MAX as int {
        u64::MAX as int
    } else {
        raw
    }
}

/// Accrued interest as a pure query: `principal * rate * duration`, scaled
/// down by `RATE_SCALE` and saturating at `u64::MAX`. Rejects a rate above
/// `RATE_SCALE` (that is, above one) with `InvalidRate`; never mutates any
/// state, and equal inputs always give equal results.
pub fn calculate_interest(principal: u64, rate: u64, duration: u64) -> (r: Result<
    u64,
    LedgerError,
>)
    ensures
        match r {
            Ok(v) => rate <= RATE_SCALE && v as int == interest_amount(
                principal as int,
                rate as int,
                duration as int,
            ),
            Err(e) => e == LedgerError::InvalidRate && rate > RATE_SCALE,
        },
{
    if rate > RATE_SCALE {
        return Err(LedgerError::InvalidRate);
    }
    proof {
        assert((principal as int) * (rate as int) <= (u64::MAX as int) * (RATE_SCALE as int))
            by (nonlinear_arith)
            requires
                principal <= u64::MAX,
                rate <= RATE_SCALE,
        ;
    }
    let pr: u128 = (principal as u128) * (rate as u128);
    if duration > 0 && pr > u128::MAX / (duration as u128) {
        proof {
            lemma_saturated_product(principal as int, rate as int, duration as int, pr as int);
        }
        return Ok(u64::MAX);
    }
    proof {
        if duration > 0 {
            lemma_in_range_product(pr as int, duration as int);
        } else {
            assert((pr as int) * (duration as int) == 0) by (nonlinear_arith)
                requires
                    duration == 0,
            ;
        }
        assert((pr as int) * (duration as int) <= u128::MAX as int);
    }
    let scaled: u128 = (pr * (duration as u128)) / (RATE_SCALE as u128);
    if scaled > u64::MAX as u128 {
        Ok(u64::MAX)
    } else {
        Ok(scaled as u64)
    }
}

/// When `pr` exceeds `u128::MAX / duration`, the full product overflows the
/// 128-bit range, and the scaled interest saturates.
proof fn lemma_saturated_product(principal: int, rate: int, duration: int, pr: int)
    requires
        principal >= 0,
        rate >= 0,
        duration > 0,
        pr == principal * rate,
        pr > (u128::MAX as int) / duration,
    ensures
        interest_amount(principal, rate, duration) == u64::MAX as int,
{
    let m = u128::MAX as int;
    assert(pr * duration > m) by {
        assert(pr >= m / duration + 1);
        assert((m / duration) * duration + m % duration == m) by (nonlinear_arith)
            requires
                duration > 0,
        ;
        assert(m % duration < duration) by (nonlinear_arith)
            requires
                duration > 0,
        ;
        assert((m / duration + 1) * duration == (m / duration) * duration + duration)
            by (nonlinear_arith);
        assert(pr * duration >= (m / duration + 1) * duration) by (nonlinear_arith)
            requires
                pr >= m / duration + 1,
                duration > 0,
        ;
    }
    assert(principal * rate * duration > m);
    assert((principal * rate * duration) / (RATE_SCALE as int) > u64::MAX as int) by {
        assert(m + 1 == 0x1_0000_0000_0000_0000_0000_0000_0000_0000);
        assert((m + 1) / (RATE_SCALE as int) > u64::MAX as int);
        lemma_div_ordered(m + 1, principal * rate * duration, RATE_SCALE as int);
    }
}

/// When `pr` is at most `u128::MAX / duration`, the full product fits the
/// 128-bit range.
proof fn lemma_in_range_product(pr: int, duration: int)
    requires
        pr >= 0,
        duration > 0,
        pr <= (u128::MAX as int) / duration,
    ensures
        pr * duration <= u128::MAX as int,
{
    let m = u128::MAX as int;
    assert((m / duration) * duration <= m) by (nonlinear_arith)
        requires
            duration > 0,
    ;
    assert(pr * duration <= (m / duration) * duration) by (nonlinear_arith)
        requires
            duration > 0,
            pr <= m / duration,
    ;
}

/// Integer division by a positive divisor preserves order.
proof fn lemma_div_ordered(x: int, y: int, d: int)
    requires
        x <= y,
        d > 0,
    ensures
        x / d <= y / d,
{
    assert(x / d <= y / d) by (nonlinear_arith)
        requires
            x <= y,
            d > 0,
    ;
}

} // verus!
