//! Exponential moving averages on integers: each step blends the old value
//! with the new sample, `α·old + (1 - α)·sample` with `α = 1 - 1/d`, rounded
//! toward the sample, so that a constant input is reached and never overshot.
use vstd::prelude::*;
use vstd::arithmetic::div_mod::{lemma_fundamental_div_mod, lemma_fundamental_div_mod_converse};
use crate::graph::FULL_SCALE;

verus! {

/// `1 / (1 - α)` of the averages shown as numbers (`α = 0.95`).
pub const DISPLAY_DIVISOR: u64 = 20;

/// `1 / (1 - α)` of the averages that drive the background animation (`α = 0.99`).
pub const ANIMATION_DIVISOR: u64 = 100;

/// `((d - 1)·from + to) / d`, rounded toward `to`.
pub open spec fn blend(from: int, to: int, d: int) -> int {
    if from <= to {
        ((d - 1) * from + to + d - 1) / d
    } else {
        ((d - 1) * from + to) / d
    }
}

/// The value after `k` steps from `from` toward a constant `to`.
pub open spec fn settle(from: int, to: int, d: int, k: nat) -> int
    decreases k,
{
    if k == 0 {
        from
    } else {
        blend(settle(from, to, d, (k - 1) as nat), to, d)
    }
}

pub open spec fn distance(a: int, b: int) -> int {
    if a <= b {
        b - a
    } else {
        a - b
    }
}

/// A step lands between the old value and the target, moves whenever the two
/// differ, and keeps at most `(d - 1) / d` of the distance.
pub proof fn lemma_blend(from: int, to: int, d: int)
    requires
        d >= 1,
    ensures
        from <= to ==> from <= blend(from, to, d) <= to,
        from >= to ==> to <= blend(from, to, d) <= from,
        from != to && d > 1 ==> blend(from, to, d) != from,
        d * distance(blend(from, to, d), to) <= (d - 1) * distance(from, to),
{
    let r = blend(from, to, d);
    if from <= to {
        let n = (d - 1) * from + to + d - 1;
        lemma_fundamental_div_mod(n, d);
        let m = n % d;
        assert(d * r + m == n);
        assert(from <= r <= to) by (nonlinear_arith)
            requires
                d * r + m == (d - 1) * from + to + d - 1,
                0 <= m < d,
                from <= to,
                d >= 1,
        ;
        assert(from != to && d > 1 ==> r != from) by (nonlinear_arith)
            requires
                d * r + m == (d - 1) * from + to + d - 1,
                0 <= m < d,
                from <= to,
        ;
        assert(d * (to - r) <= (d - 1) * (to - from)) by (nonlinear_arith)
            requires
                d * r + m == (d - 1) * from + to + d - 1,
                0 <= m < d,
        ;
    } else {
        let n = (d - 1) * from + to;
        lemma_fundamental_div_mod(n, d);
        let m = n % d;
        assert(d * r + m == n);
        assert(to <= r <= from) by (nonlinear_arith)
            requires
                d * r + m == (d - 1) * from + to,
                0 <= m < d,
                from > to,
                d >= 1,
        ;
        assert(d > 1 ==> r != from) by (nonlinear_arith)
            requires
                d * r + m == (d - 1) * from + to,
                0 <= m < d,
                from > to,
        ;
        assert(d * (r - to) <= (d - 1) * (from - to)) by (nonlinear_arith)
            requires
                d * r + m == (d - 1) * from + to,
                0 <= m < d,
        ;
    }
}

/// One smoothing step: `blend(from, to, d)`.
pub fn ema_step(from: u64, to: u64, d: u64) -> (r: u64)
    requires
        d >= 1,
    ensures
        r == blend(from as int, to as int, d as int),
{
    if from <= to {
        let x = to - from;
        proof {
            lemma_fundamental_div_mod(x as int, d as int);
            let q = x as int / d as int;
            let m = x as int % d as int;
            assert(m != 0 ==> q < x) by (nonlinear_arith)
                requires
                    x == d * q + m,
                    0 <= m < d,
                    q >= 0,
            ;
        }
        let c = if x % d == 0 { x / d } else { x / d + 1 };
        proof {
            lemma_fundamental_div_mod(x as int, d as int);
            let q = x as int / d as int;
            let m = x as int % d as int;
            let n = (d - 1) * from + to + d - 1;
            if m == 0 {
                assert(n == d * (from + c) + (d - 1)) by (nonlinear_arith)
                    requires
                        x == d * q + m,
                        m == 0,
                        c == q,
                        x == to - from,
                        n == (d - 1) * from + to + d - 1,
                ;
                lemma_fundamental_div_mod_converse(n, d as int, from + c, d - 1);
            } else {
                assert(n == d * (from + c) + (m - 1)) by (nonlinear_arith)
                    requires
                        x == d * q + m,
                        c == q + 1,
                        x == to - from,
                        n == (d - 1) * from + to + d - 1,
                ;
                lemma_fundamental_div_mod_converse(n, d as int, from + c, m - 1);
            }
            assert(c <= x) by (nonlinear_arith)
                requires
                    x == d * q + m,
                    0 <= m < d,
                    d >= 1,
                    q >= 0,
                    m == 0 ==> c == q,
                    m != 0 ==> c == q + 1,
            ;
        }
        from + c
    } else {
        let y = from - to;
        proof {
            lemma_fundamental_div_mod(y as int, d as int);
            let q = y as int / d as int;
            let m = y as int % d as int;
            assert(m != 0 ==> q < y) by (nonlinear_arith)
                requires
                    y == d * q + m,
                    0 <= m < d,
                    q >= 0,
            ;
        }
        let c = if y % d == 0 { y / d } else { y / d + 1 };
        proof {
            lemma_fundamental_div_mod(y as int, d as int);
            let q = y as int / d as int;
            let m = y as int % d as int;
            let n = (d - 1) * from + to;
            if m == 0 {
                assert(n == d * (from - c) + 0) by (nonlinear_arith)
                    requires
                        y == d * q + m,
                        m == 0,
                        c == q,
                        y == from - to,
                        n == (d - 1) * from + to,
                ;
                lemma_fundamental_div_mod_converse(n, d as int, from - c, 0);
            } else {
                assert(n == d * (from - c) + (d - m)) by (nonlinear_arith)
                    requires
                        y == d * q + m,
                        c == q + 1,
                        y == from - to,
                        n == (d - 1) * from + to,
                ;
                lemma_fundamental_div_mod_converse(n, d as int, from - c, d - m);
            }
            assert(c <= y) by (nonlinear_arith)
                requires
                    y == d * q + m,
                    0 <= m < d,
                    d >= 1,
                    q >= 0,
                    m == 0 ==> c == q,
                    m != 0 ==> c == q + 1,
            ;
        }
        from - c
    }
}


/// Smoothing toward a constant moves monotonically: every step lies between
/// the value before it and the target, so it never overshoots.
pub proof fn lemma_settle_monotone(from: int, to: int, d: int, k: nat)
    requires
        d >= 1,
    ensures
        from <= to ==> settle(from, to, d, k) <= settle(from, to, d, k + 1) <= to,
        from >= to ==> to <= settle(from, to, d, k + 1) <= settle(from, to, d, k),
    decreases k,
{
    if k > 0 {
        lemma_settle_monotone(from, to, d, (k - 1) as nat);
    }
    lemma_blend(settle(from, to, d, k), to, d);
}

/// Once the target is reached, smoothing stays on it.
proof fn lemma_settle_stays(from: int, to: int, d: int, k0: nat, k: nat)
    requires
        d >= 1,
        k0 <= k,
        settle(from, to, d, k0) == to,
    ensures
        settle(from, to, d, k) == to,
    decreases k - k0,
{
    if k > k0 {
        lemma_settle_stays(from, to, d, k0, (k - 1) as nat);
        lemma_blend(to, to, d);
    }
}

/// Fourteen display steps at least halve the distance to the target.
proof fn lemma_display_halves(from: int, to: int, k: nat)
    ensures
        2 * distance(settle(from, to, 20, k + 14), to) <= distance(settle(from, to, 20, k), to),
{
    let a0 = distance(settle(from, to, 20, k), to);
    lemma_blend(settle(from, to, 20, k), to, 20);
    lemma_blend(settle(from, to, 20, k + 1), to, 20);
    lemma_blend(settle(from, to, 20, k + 2), to, 20);
    lemma_blend(settle(from, to, 20, k + 3), to, 20);
    lemma_blend(settle(from, to, 20, k + 4), to, 20);
    lemma_blend(settle(from, to, 20, k + 5), to, 20);
    lemma_blend(settle(from, to, 20, k + 6), to, 20);
    lemma_blend(settle(from, to, 20, k + 7), to, 20);
    lemma_blend(settle(from, to, 20, k + 8), to, 20);
    lemma_blend(settle(from, to, 20, k + 9), to, 20);
    lemma_blend(settle(from, to, 20, k + 10), to, 20);
    lemma_blend(settle(from, to, 20, k + 11), to, 20);
    lemma_blend(settle(from, to, 20, k + 12), to, 20);
    lemma_blend(settle(from, to, 20, k + 13), to, 20);
    assert(settle(from, to, 20, k + 14) == blend(settle(from, to, 20, k + 13), to, 20));
}

pub open spec fn pow_two(j: nat) -> nat
    decreases j,
{
    if j == 0 {
        1
    } else {
        2 * pow_two((j - 1) as nat)
    }
}

proof fn lemma_display_decays(from: int, to: int, j: nat)
    ensures
        pow_two(j) * distance(settle(from, to, 20, 14 * j), to) <= distance(from, to),
    decreases j,
{
    if j > 0 {
        lemma_display_decays(from, to, (j - 1) as nat);
        lemma_display_halves(from, to, (14 * (j - 1)) as nat);
        let p = pow_two((j - 1) as nat);
        let k0 = (14 * (j - 1)) as nat;
        let a = distance(settle(from, to, 20, k0), to);
        let b = distance(settle(from, to, 20, 14 * j), to);
        assert(k0 + 14 == 14 * j);
        assert(2 * b <= a);
        assert(pow_two(j) * b <= p * a) by (nonlinear_arith)
            requires
                pow_two(j) == 2 * p,
                2 * b <= a,
                p >= 0,
        ;
        assert(p * a <= distance(from, to));
        assert(pow_two(j) * b <= distance(from, to));
    } else {
        assert(settle(from, to, 20, 14 * j) == from);
        assert(pow_two(j) == 1);
        assert(pow_two(j) * distance(settle(from, to, 20, 14 * j), to) == distance(from, to));
    }
}

/// A display average fed one constant utilization from any utilization
/// reaches it exactly within 300 ticks and stays there.
pub proof fn lemma_display_converges(from: int, to: int, k: nat)
    requires
        0 <= from <= FULL_SCALE,
        0 <= to <= FULL_SCALE,
        k >= 300,
    ensures
        settle(from, to, DISPLAY_DIVISOR as int, k) == to,
{
    lemma_display_decays(from, to, 14);
    reveal_with_fuel(pow_two, 15);
    assert(pow_two(14) == 16384);
    lemma_settle_stays(from, to, 20, 196, k);
}

} // verus!
