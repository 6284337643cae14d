//! How long to wait before an attempt to reconnect.
use vstd::arithmetic::power2::{lemma2_to64, pow2};
use vstd::prelude::*;

use crate::time::Duration;

verus! {

/// The lesser of two numbers.
pub open spec fn lesser(a: nat, b: nat) -> nat {
    if a < b {
        a
    } else {
        b
    }
}

/// The greater of two numbers.
pub open spec fn greater(a: nat, b: nat) -> nat {
    if a < b {
        b
    } else {
        a
    }
}

/// The initial delay, in nanoseconds: none at all is replaced by 250 ms.
pub open spec fn sane_initial(initial: nat) -> nat {
    if initial == 0 {
        250 * 1_000_000
    } else {
        initial
    }
}

/// The delay before an attempt, in nanoseconds: exponential backoff, which stops growing after ten
/// attempts, with deterministic jitter of at most 250 ms, and never more than the maximum. The maximum
/// is no less than the initial delay.
pub open spec fn reconnect_interval(attempt: u32, initial: nat, max: nat) -> nat {
    let first = sane_initial(initial);
    let limit = greater(max, first);
    let base = lesser(first * pow2(lesser(attempt as nat, 10)), limit);
    lesser(base + (attempt * 73) as nat % 251 * 1_000_000, limit)
}

/// A power of two.
fn power_of_two(exponent: u32) -> (r: u32)
    requires
        exponent <= 10,
    ensures
        r == pow2(exponent as nat),
{
    proof {
        lemma2_to64();
    }
    match exponent {
        0 => 1,
        1 => 2,
        2 => 4,
        3 => 8,
        4 => 16,
        5 => 32,
        6 => 64,
        7 => 128,
        8 => 256,
        9 => 512,
        _ => 1024,
    }
}

/// The delay before an attempt to reconnect.
pub fn next_reconnect_interval(attempt: u32, initial: Duration, max: Duration) -> (r: Duration)
    ensures
        r@ == reconnect_interval(attempt, initial@, max@),
{
    // Guard against zero/invalid values configured by consumers.
    let initial = if initial.is_zero() {
        Duration::from_millis(250)
    } else {
        initial
    };
    let max = max.longer(initial);
    // Exponential backoff with deterministic jitter capped at 250ms.
    let exponent: u32 = if attempt < 10 {
        attempt
    } else {
        10
    };
    let factor = power_of_two(exponent);
    let base = match initial.checked_mul(factor) {
        Some(base) => base,
        None => max,
    }.shorter(max);
    let jitter_ms: u64 = (attempt as u64 * 73) % 251;
    let interval = base.saturating_add(Duration::from_millis(jitter_ms));
    // Take the min interval
    interval.shorter(max)
}

/// A delay is never longer than the maximum nor shorter than the initial delay, once both are sane.
pub proof fn interval_is_bounded(attempt: u32, initial: nat, max: nat)
    ensures
        sane_initial(initial) <= reconnect_interval(attempt, initial, max),
        reconnect_interval(attempt, initial, max) <= greater(max, sane_initial(initial)),
        attempt == 0 ==> reconnect_interval(attempt, initial, max) == sane_initial(initial),
{
    let first = sane_initial(initial);
    let exponent = lesser(attempt as nat, 10);
    lemma2_to64();
    vstd::arithmetic::power2::lemma_pow2_pos(exponent);
    assert(first <= first * pow2(exponent)) by (nonlinear_arith)
        requires
            pow2(exponent) > 0,
    ;
    if attempt == 0 {
        assert(first * pow2(0) == first) by (nonlinear_arith)
            requires
                pow2(0) == 1,
        ;
    }
}

/// The delay without jitter does not get shorter from one attempt to the next, until the maximum is
/// reached.
pub proof fn backoff_grows(attempt: u32, initial: nat, max: nat)
    requires
        attempt < u32::MAX,
    ensures
        ({
            let first = sane_initial(initial);
            let limit = greater(max, first);
            lesser(first * pow2(lesser(attempt as nat, 10)), limit) <= lesser(
                first * pow2(lesser((attempt + 1) as nat, 10)),
                limit,
            )
        }),
{
    let first = sane_initial(initial);
    let a = lesser(attempt as nat, 10);
    let b = lesser((attempt + 1) as nat, 10);
    lemma2_to64();
    if a < b {
        vstd::arithmetic::power2::lemma_pow2_strictly_increases(a, b);
    }
    assert(first * pow2(a) <= first * pow2(b)) by (nonlinear_arith)
        requires
            pow2(a) <= pow2(b),
    ;
}

/// Below the limit the wait is the initial one, doubled with each attempt up to ten times, and up to a quarter
/// of a second on top of that, which depends on the attempt; at the limit it stays there. Without an initial
/// wait it is a quarter of a second.
pub proof fn the_wait_doubles_with_each_attempt(attempt: u32, initial: nat, max: nat)
    ensures
        ({
            let first = if initial == 0 {
                250_000_000
            } else {
                initial
            };
            let doubled = if attempt <= 10 {
                first * pow2(attempt as nat)
            } else {
                first * 1024
            };
            let limit = if max > first {
                max
            } else {
                first
            };
            let extra = (attempt * 73) % 251 * 1_000_000;
            &&& doubled + extra <= limit ==> reconnect_interval(attempt, initial, max) == doubled
                + extra
            &&& doubled + extra > limit ==> reconnect_interval(attempt, initial, max) == limit
        }),
{
    lemma2_to64();
}

} // verus!
