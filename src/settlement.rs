//! What a buyer owes at settlement, and how a payment is split pro rata
//! among the token holders.
use vstd::prelude::*;
use vstd::arithmetic::div_mod::{lemma_fundamental_div_mod, lemma_div_pos_is_pos};
use crate::arith::mul_div;

verus! {

/// Seconds in a day.
pub const SECONDS_PER_DAY: u64 = 86400;

/// Basis points times days in a year: the denominator of simple interest.
pub const INTEREST_DENOMINATOR: i128 = 3_650_000;

/// Whole days from `created_at` to `now` (zero before creation).
pub open spec fn days_elapsed(created_at: u64, now: u64) -> int {
    if now >= created_at {
        (now - created_at) as int / 86400
    } else {
        0
    }
}

/// The rate that applies at `now`: the penalty rate once the due date has
/// passed, the base rate until then.
pub open spec fn applicable_rate(base_rate: u32, penalty_rate: u32, due_date: u64, now: u64) -> int {
    if now > due_date {
        penalty_rate as int
    } else {
        base_rate as int
    }
}

/// The simple interest's numerator: amount times rate times elapsed days.
pub open spec fn interest_numerator(
    amount: int,
    base_rate: u32,
    penalty_rate: u32,
    created_at: u64,
    due_date: u64,
    now: u64,
) -> int {
    amount * applicable_rate(base_rate, penalty_rate, due_date, now) * days_elapsed(created_at, now)
}

/// Principal plus simple interest, truncated toward zero.
pub open spec fn settlement_due(
    amount: int,
    base_rate: u32,
    penalty_rate: u32,
    created_at: u64,
    due_date: u64,
    now: u64,
) -> int {
    amount + interest_numerator(amount, base_rate, penalty_rate, created_at, due_date, now)
        / 3650000int
}

/// Computes principal plus simple interest, exactly; `None` when the sum
/// does not fit an `i128`. The interest is split over the quotient and
/// remainder of the amount by the denominator, so no intermediate value
/// leaves the `i128` range.
pub fn settlement_amount(
    amount: i128,
    base_rate: u32,
    penalty_rate: u32,
    created_at: u64,
    due_date: u64,
    now: u64,
) -> (r: Option<i128>)
    requires
        0 <= amount,
    ensures
        r.is_some() <==> settlement_due(amount as int, base_rate, penalty_rate, created_at, due_date, now)
            <= i128::MAX,
        r.is_some() ==> r.unwrap() == settlement_due(
            amount as int,
            base_rate,
            penalty_rate,
            created_at,
            due_date,
            now,
        ),
        settlement_due(amount as int, base_rate, penalty_rate, created_at, due_date, now) >= amount,
{
    let days: u64 = if now >= created_at {
        (now - created_at) / SECONDS_PER_DAY
    } else {
        0
    };
    let rate: u32 = if now > due_date {
        penalty_rate
    } else {
        base_rate
    };
    assert(0 <= rate * days <= 0xffff_ffff * 0xffff_ffff_ffff_ffff) by (nonlinear_arith)
        requires rate <= 0xffff_ffff, days <= 0xffff_ffff_ffff_ffff;
    let rd: i128 = rate as i128 * days as i128;
    let qa: i128 = amount / INTEREST_DENOMINATOR;
    let ma: i128 = amount % INTEREST_DENOMINATOR;
    let ghost due = settlement_due(amount as int, base_rate, penalty_rate, created_at, due_date, now);
    proof {
        lemma_fundamental_div_mod(amount as int, 3650000);
        lemma_div_pos_is_pos(amount as int, 3650000);
        assert(amount * rate * days == amount * rd) by (nonlinear_arith)
            requires rd == rate * days;
        assert(0 <= ma * rd <= 3650000 * (0xffff_ffff * 0xffff_ffff_ffff_ffff)) by (nonlinear_arith)
            requires 0 <= ma < 3650000, 0 <= rd <= 0xffff_ffff * 0xffff_ffff_ffff_ffff;
        assert(amount * rd == ma * rd + (qa * rd) * 3650000) by (nonlinear_arith)
            requires amount == 3650000 * qa + ma;
        vstd::arithmetic::div_mod::lemma_hoist_over_denominator(ma * rd, qa * rd, 3650000);
        lemma_div_pos_is_pos(ma * rd, 3650000);
        assert(0 <= qa * rd) by (nonlinear_arith)
            requires 0 <= qa, 0 <= rd;
        assert(due == amount + qa * rd + (ma * rd) / 3650000);
    }
    if rd > 0 && qa > (i128::MAX - amount) / rd {
        proof {
            let m = (i128::MAX - amount) as int;
            let ri = rd as int;
            lemma_fundamental_div_mod(m, ri);
            assert(qa * ri >= (m / ri + 1) * ri) by (nonlinear_arith)
                requires qa >= m / ri + 1, ri > 0;
            assert((m / ri + 1) * ri == ri * (m / ri) + ri) by (nonlinear_arith);
        }
        return None;
    }
    proof {
        if rd > 0 {
            let m = (i128::MAX - amount) as int;
            let ri = rd as int;
            lemma_fundamental_div_mod(m, ri);
            assert(qa * ri <= (m / ri) * ri) by (nonlinear_arith)
                requires qa <= m / ri, ri > 0;
            assert((m / ri) * ri == ri * (m / ri)) by (nonlinear_arith);
        } else {
            assert(qa * rd == 0) by (nonlinear_arith)
                requires rd == 0;
        }
    }
    let x: i128 = qa * rd;
    let y: i128 = ma * rd / INTEREST_DENOMINATOR;
    if y > i128::MAX - amount - x {
        return None;
    }
    Some(amount + x + y)
}

/// A holder's share of a payment, computed exactly.
pub fn pro_rata(held: i128, payment: i128, total: i128) -> (r: i128)
    requires
        0 <= held <= total,
        0 < total,
        0 <= payment,
    ensures
        r == pro_rata_share(held as int, payment as int, total as int),
        0 <= r <= payment,
{
    proof {
        assert(held * payment <= total * payment) by (nonlinear_arith)
            requires 0 <= held <= total, 0 <= payment;
        vstd::arithmetic::div_mod::lemma_div_is_ordered(held * payment, total * payment, total as int);
        assert(total * payment == payment * total) by (nonlinear_arith);
        vstd::arithmetic::div_mod::lemma_div_by_multiple(payment as int, total as int);
        assert(0 <= held * payment) by (nonlinear_arith)
            requires 0 <= held, 0 <= payment;
        lemma_div_pos_is_pos(held * payment, total as int);
    }
    mul_div(held, payment, total)
}

/// Sum of a sequence of integers.
pub open spec fn sum_of(s: Seq<int>) -> int
    decreases s.len(),
{
    if s.len() == 0 {
        0
    } else {
        sum_of(s.drop_last()) + s.last()
    }
}

/// A holder's share of a payment: amount held times payment over total
/// tokens, truncated toward zero.
pub open spec fn pro_rata_share(held: int, payment: int, total: int) -> int {
    held * payment / total
}

/// The shares of a payment for holders with the given amounts.
pub open spec fn pro_rata_shares(amounts: Seq<int>, payment: int, total: int) -> Seq<int> {
    amounts.map_values(|a: int| pro_rata_share(a, payment, total))
}

proof fn lemma_shares_scaled_sum(amounts: Seq<int>, payment: int, total: int)
    requires
        total > 0,
        payment >= 0,
        forall|i: int| 0 <= i < amounts.len() ==> amounts[i] >= 0,
    ensures
        total * sum_of(pro_rata_shares(amounts, payment, total)) <= payment * sum_of(amounts),
        sum_of(pro_rata_shares(amounts, payment, total)) >= 0,
    decreases amounts.len(),
{
    if amounts.len() > 0 {
        let init = amounts.drop_last();
        let a = amounts.last();
        let shares = pro_rata_shares(amounts, payment, total);
        assert(shares.drop_last() =~= pro_rata_shares(init, payment, total));
        lemma_shares_scaled_sum(init, payment, total);
        let x = a * payment;
        assert(x >= 0) by (nonlinear_arith)
            requires x == a * payment, a >= 0, payment >= 0;
        lemma_fundamental_div_mod(x, total);
        lemma_div_pos_is_pos(x, total);
        let s0 = sum_of(pro_rata_shares(init, payment, total));
        assert(total * (s0 + x / total) == total * s0 + total * (x / total)) by (nonlinear_arith);
        assert(payment * (sum_of(init) + a) == payment * sum_of(init) + a * payment)
            by (nonlinear_arith);
    }
}

/// Pro-rata fairness: when holders with the given amounts, summing to the
/// invoice's total tokens, split a payment, each share is the truncated
/// proportion, and the shares together never exceed the payment, so the
/// retained remainder is never negative.
pub proof fn lemma_pro_rata_within_payment(amounts: Seq<int>, payment: int, total: int)
    requires
        total > 0,
        payment >= 0,
        forall|i: int| 0 <= i < amounts.len() ==> amounts[i] >= 0,
        sum_of(amounts) == total,
    ensures
        forall|i: int|
            0 <= i < amounts.len() ==> #[trigger] pro_rata_shares(amounts, payment, total)[i]
                == amounts[i] * payment / total,
        0 <= sum_of(pro_rata_shares(amounts, payment, total)) <= payment,
{
    lemma_shares_scaled_sum(amounts, payment, total);
    let s = sum_of(pro_rata_shares(amounts, payment, total));
    assert(s <= payment) by (nonlinear_arith)
        requires total * s <= payment * total, total > 0;
}

} // verus!
