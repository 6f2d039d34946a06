//! Dutch-auction pricing: the unit price of an invoice's tokens falls by a
//! fixed share of the start price every full hour, never below the floor.
use vstd::prelude::*;
use crate::arith::mul_div;
use vstd::arithmetic::div_mod::lemma_div_is_ordered;
use vstd::arithmetic::mul::lemma_mul_inequality;

verus! {

/// Seconds in an hour.
pub const SECONDS_PER_HOUR: u64 = 3600;

/// Basis points in one whole.
pub const BPS_DENOMINATOR: i128 = 10000;

/// Whole hours from the auction's start to `now` (zero before the start).
pub open spec fn hours_elapsed(auction_start: u64, now: u64) -> int {
    if now >= auction_start {
        (now - auction_start) as int / 3600
    } else {
        0
    }
}

/// The price drop accumulated after `hours` whole hours.
pub open spec fn total_drop(start_price: int, drop_rate: int, hours: int) -> int {
    start_price * drop_rate * hours / 10000
}

/// The larger of two integers.
pub open spec fn max_int(a: int, b: int) -> int {
    if a >= b { a } else { b }
}

/// The auction's unit price at time `now`: the floor once the auction has
/// ended, otherwise the start price minus the accumulated drop, but never
/// below the floor.
pub open spec fn auction_price_at(
    start_price: int,
    min_price: int,
    drop_rate: int,
    auction_start: u64,
    auction_end: u64,
    now: u64,
) -> int {
    if now >= auction_end {
        min_price
    } else {
        max_int(
            start_price - total_drop(start_price, drop_rate, hours_elapsed(auction_start, now)),
            min_price,
        )
    }
}

/// Computes the Dutch-auction unit price at `now`.
pub fn auction_price(
    start_price: i128,
    min_price: i128,
    drop_rate: u32,
    auction_start: u64,
    auction_end: u64,
    now: u64,
) -> (r: i128)
    requires
        0 <= start_price,
        0 <= min_price,
    ensures
        r == auction_price_at(
            start_price as int,
            min_price as int,
            drop_rate as int,
            auction_start,
            auction_end,
            now,
        ),
        min_price <= r,
{
    if now >= auction_end {
        return min_price;
    }
    let hours: u64 = if now >= auction_start {
        (now - auction_start) / SECONDS_PER_HOUR
    } else {
        0
    };
    assert(0 <= drop_rate * hours <= 0xffff_ffff * 0xffff_ffff_ffff_ffff) by (nonlinear_arith)
        requires drop_rate <= 0xffff_ffff, hours <= 0xffff_ffff_ffff_ffff;
    let k: i128 = drop_rate as i128 * hours as i128;
    let ghost drop = total_drop(start_price as int, drop_rate as int, hours as int);
    assert(start_price * drop_rate * hours == start_price * k) by (nonlinear_arith)
        requires k == drop_rate * hours;
    if k >= BPS_DENOMINATOR {
        // The accumulated drop is at least the whole start price.
        proof {
            lemma_mul_inequality(10000, k as int, start_price as int);
            assert(start_price * 10000 <= start_price * k) by (nonlinear_arith)
                requires 10000 <= k, 0 <= start_price;
            lemma_div_is_ordered(start_price * 10000, start_price * k, 10000);
            assert(start_price * 10000 / 10000 == start_price as int);
            assert(drop >= start_price);
        }
        min_price
    } else {
        proof {
            assert(0 <= start_price * k <= start_price * 10000) by (nonlinear_arith)
                requires 0 <= k < 10000, 0 <= start_price;
            lemma_div_is_ordered(start_price * k, start_price * 10000, 10000);
            assert(start_price * 10000 / 10000 == start_price as int);
        }
        let d: i128 = mul_div(start_price, k, BPS_DENOMINATOR);
        assert(d == drop);
        let p: i128 = start_price - d;
        if p >= min_price { p } else { min_price }
    }
}

/// Auction prices never rise as time passes, and never fall below the floor.
pub proof fn lemma_auction_price_monotonic(
    start_price: int,
    min_price: int,
    drop_rate: int,
    auction_start: u64,
    auction_end: u64,
    t1: u64,
    t2: u64,
)
    requires
        t1 <= t2,
        0 <= start_price,
        0 <= drop_rate,
    ensures
        auction_price_at(start_price, min_price, drop_rate, auction_start, auction_end, t2)
            <= auction_price_at(start_price, min_price, drop_rate, auction_start, auction_end, t1),
        auction_price_at(start_price, min_price, drop_rate, auction_start, auction_end, t2)
            >= min_price,
{
    if t2 < auction_end {
        let h1 = hours_elapsed(auction_start, t1);
        let h2 = hours_elapsed(auction_start, t2);
        if t1 >= auction_start {
            lemma_div_is_ordered((t1 - auction_start) as int, (t2 - auction_start) as int, 3600);
        }
        assert(0 <= h1 <= h2);
        let c = start_price * drop_rate;
        assert(c >= 0) by (nonlinear_arith)
            requires c == start_price * drop_rate, 0 <= start_price, 0 <= drop_rate;
        lemma_mul_inequality(h1, h2, c);
        assert(c * h1 == start_price * drop_rate * h1);
        assert(c * h2 == start_price * drop_rate * h2);
        lemma_div_is_ordered(c * h1, c * h2, 10000);
    }
}

} // verus!
