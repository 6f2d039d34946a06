//! Exact integer arithmetic whose intermediate values would not fit an
//! `i128`.
use vstd::prelude::*;
use vstd::arithmetic::div_mod::{lemma_fundamental_div_mod, lemma_fundamental_div_mod_converse, lemma_div_is_ordered, lemma_div_by_multiple};

verus! {

/// `a * b / c`, rounded down, for any non-negative operands whose result
/// fits: the product is never formed. The bits of `b` are taken from the
/// lowest, adding the matching multiple of `a`, kept as a quotient and a
/// remainder by `c`.
pub fn mul_div(a: i128, b: i128, c: i128) -> (r: i128)
    requires
        0 <= a,
        0 <= b,
        0 < c,
        (a as int) * (b as int) / (c as int) <= i128::MAX,
    ensures
        r == (a as int) * (b as int) / (c as int),
{
    let ghost target = a * b;
    // a * 2^j == qa * c + ra
    let mut qa: i128 = a / c;
    let mut ra: i128 = a % c;
    let mut q: i128 = 0;
    let mut r: i128 = 0;
    let mut bb: i128 = b;
    proof {
        lemma_fundamental_div_mod(a as int, c as int);
        assert(target == 0 * c + 0 + (qa * c + ra) * bb) by (nonlinear_arith)
            requires target == a * b, a == c * qa + ra, bb == b;
        assert(a * b >= 0) by (nonlinear_arith)
            requires 0 <= a, 0 <= b;
    }
    while bb > 0
        invariant
            0 <= a,
            0 <= b,
            0 < c,
            target == a * b,
            (a as int) * (b as int) / (c as int) <= i128::MAX,
            0 <= bb,
            0 <= q,
            0 <= qa,
            0 <= r < c,
            0 <= ra < c,
            target == q * c + r + (qa * c + ra) * bb,
        decreases bb,
    {
        let bit: i128 = bb % 2;
        let h: i128 = bb / 2;
        let ghost big = qa * c + ra;
        let ghost (q0, r0, qa0, ra0) = (q, r, qa, ra);
        proof {
            assert(bb == 2 * h + bit && 0 <= bit < 2);
            assert(0 <= big) by (nonlinear_arith)
                requires big == qa * c + ra, 0 <= qa, 0 <= ra, 0 < c;
        }
        if bit == 1 {
            // Add the current multiple of `a`.
            proof {
                assert(target == (q + qa) * c + (r + ra) + big * (2 * h)) by (nonlinear_arith)
                    requires target == q * c + r + big * bb, big == qa * c + ra, bb == 2 * h + 1;
                assert(0 <= big * (2 * h)) by (nonlinear_arith)
                    requires 0 <= big, 0 <= h;
            }
            if r >= c - ra {
                proof {
                    let q1 = q + qa + 1;
                    assert(q1 * c <= target) by (nonlinear_arith)
                        requires target == (q + qa) * c + (r + ra) + big * (2 * h), r + ra >= c,
                            0 <= big * (2 * h), q1 == q + qa + 1;
                    lemma_div_is_ordered(q1 * c, target, c as int);
                    lemma_div_by_multiple(q1, c as int);
                }
                q = q + qa + 1;
                r = r - (c - ra);
                assert(q * c + r == (q0 + qa0) * c + (r0 + ra0)) by (nonlinear_arith)
                    requires q == q0 + qa0 + 1, r == r0 + ra0 - c;
            } else {
                proof {
                    let q1 = q + qa;
                    assert(q1 * c <= target) by (nonlinear_arith)
                        requires target == (q + qa) * c + (r + ra) + big * (2 * h), 0 <= r + ra,
                            0 <= big * (2 * h), q1 == q + qa;
                    lemma_div_is_ordered(q1 * c, target, c as int);
                    lemma_div_by_multiple(q1, c as int);
                }
                q = q + qa;
                r = r + ra;
                assert(q * c + r == (q0 + qa0) * c + (r0 + ra0)) by (nonlinear_arith)
                    requires q == q0 + qa0, r == r0 + ra0;
            }
        }
        proof {
            if bit != 1 {
                assert(target == q * c + r + big * (2 * h)) by (nonlinear_arith)
                    requires target == q * c + r + big * bb, bb == 2 * h + bit, bit == 0;
            }
        }
        if h > 0 {
            // Double the multiple of `a`.
            proof {
                assert(2 * big * h == big * (2 * h)) by (nonlinear_arith);
                assert(0 <= q * c + r) by (nonlinear_arith)
                    requires 0 <= q, 0 <= r, 0 < c;
                assert(2 * big <= target) by (nonlinear_arith)
                    requires target == q * c + r + big * (2 * h), 0 <= q * c + r, h >= 1, 0 <= big;
            }
            if ra >= c - ra {
                proof {
                    let q2 = 2 * qa + 1;
                    assert(q2 * c <= 2 * big) by (nonlinear_arith)
                        requires big == qa * c + ra, ra + ra >= c, q2 == 2 * qa + 1;
                    lemma_div_is_ordered(q2 * c, target, c as int);
                    lemma_div_by_multiple(q2, c as int);
                }
                qa = 2 * qa + 1;
                ra = ra - (c - ra);
                assert(qa * c + ra == 2 * big) by (nonlinear_arith)
                    requires qa == 2 * qa0 + 1, ra == ra0 + ra0 - c, big == qa0 * c + ra0;
            } else {
                proof {
                    let q2 = 2 * qa;
                    assert(q2 * c <= 2 * big) by (nonlinear_arith)
                        requires big == qa * c + ra, 0 <= ra, q2 == 2 * qa;
                    lemma_div_is_ordered(q2 * c, target, c as int);
                    lemma_div_by_multiple(q2, c as int);
                }
                qa = 2 * qa;
                ra = ra + ra;
                assert(qa * c + ra == 2 * big) by (nonlinear_arith)
                    requires qa == 2 * qa0, ra == ra0 + ra0, big == qa0 * c + ra0;
            }
            proof {
                assert(qa * c + ra == 2 * big);
                assert(target == q * c + r + (qa * c + ra) * h) by (nonlinear_arith)
                    requires target == q * c + r + big * (2 * h), qa * c + ra == 2 * big;
            }
        } else {
            proof {
                assert(target == q * c + r + (qa * c + ra) * h) by (nonlinear_arith)
                    requires target == q * c + r + big * (2 * h), h == 0;
            }
        }
        bb = h;
    }
    proof {
        assert(target == q * c + r) by (nonlinear_arith)
            requires target == q * c + r + (qa * c + ra) * bb, bb == 0;
        lemma_fundamental_div_mod_converse(target, c as int, q as int, r as int);
    }
    q
}

/// `x * bps / 10000`, rounded down, for a non-negative `x`; `None` when the
/// result does not fit an `i128`.
pub fn bps_of(x: i128, bps: u32) -> (r: Option<i128>)
    requires
        0 <= x,
    ensures
        r.is_some() <==> (x as int) * (bps as int) / 10000 <= i128::MAX,
        r.is_some() ==> r.unwrap() == (x as int) * (bps as int) / 10000,
        0 <= (x as int) * (bps as int) / 10000,
{
    let qx: i128 = x / 10000;
    let mx: i128 = x % 10000;
    let b: i128 = bps as i128;
    let ghost res = (x as int) * (bps as int) / 10000;
    proof {
        lemma_fundamental_div_mod(x as int, 10000);
        vstd::arithmetic::div_mod::lemma_div_pos_is_pos(x as int, 10000);
        assert(x * b == mx * b + (qx * b) * 10000) by (nonlinear_arith)
            requires x == 10000 * qx + mx;
        assert(0 <= mx * b < 10000 * 0x1_0000_0000) by (nonlinear_arith)
            requires 0 <= mx < 10000, 0 <= b <= 0xffff_ffff;
        vstd::arithmetic::div_mod::lemma_hoist_over_denominator(mx * b, qx * b, 10000);
        vstd::arithmetic::div_mod::lemma_div_pos_is_pos(mx * b, 10000);
        assert(0 <= qx * b) by (nonlinear_arith)
            requires 0 <= qx, 0 <= b;
        assert(res == qx * b + (mx * b) / 10000);
    }
    if b > 0 && qx > i128::MAX / b {
        proof {
            let m = i128::MAX as int;
            let bi = b as int;
            lemma_fundamental_div_mod(m, bi);
            assert(qx * bi >= (m / bi + 1) * bi) by (nonlinear_arith)
                requires qx >= m / bi + 1, bi > 0;
            assert((m / bi + 1) * bi == bi * (m / bi) + bi) by (nonlinear_arith);
        }
        return None;
    }
    proof {
        if b > 0 {
            let m = i128::MAX as int;
            let bi = b as int;
            lemma_fundamental_div_mod(m, bi);
            assert(qx * bi <= (m / bi) * bi) by (nonlinear_arith)
                requires qx <= m / bi, bi > 0;
            assert((m / bi) * bi == bi * (m / bi)) by (nonlinear_arith);
        } else {
            assert(qx * b == 0) by (nonlinear_arith)
                requires b == 0;
        }
    }
    let hi: i128 = qx * b;
    let lo: i128 = mx * b / 10000;
    if lo > i128::MAX - hi {
        return None;
    }
    Some(hi + lo)
}

} // verus!
