//! Rounding of exact ratios, the mathematics under `binary64`.

use vstd::arithmetic::div_mod::*;
use vstd::arithmetic::power2::*;
use vstd::prelude::*;

verus! {

/// 2^53: significands of binary64 numbers lie below it.
pub const TWO_53: u64 = 0x20_0000_0000_0000;

/// 2^52: significands of normal binary64 numbers lie at or above it.
pub const TWO_52: u64 = 0x10_0000_0000_0000;

/// The integer nearest to `n / d`; halfway between two integers, the even one.
pub open spec fn nearest(n: nat, d: nat) -> nat {
    let q = n / d;
    let r = n % d;
    if 2 * r < d || (2 * r == d && q % 2 == 0) {
        q
    } else {
        q + 1
    }
}

/// `n / d` rounded to 53 significant bits: the nearest integer where that needs
/// no more than 53 bits, else the nearest multiple of the smallest power of two
/// that brings it down to 53 bits.
pub open spec fn rounded(n: nat, d: nat) -> nat
    decreases n - d,
{
    if d == 0 || n < TWO_53 * d {
        nearest(n, d)
    } else {
        2 * rounded(n, 2 * d)
    }
}

/// What a quotient leaves over, against the step that it counts.
#[derive(Clone, Copy, PartialEq, Eq, Structural)]
pub enum Rest {
    Nothing,
    BelowHalf,
    Half,
    AboveHalf,
    /// More than nothing; how much is not known.
    Something,
}

impl Rest {
    /// What is left over when the step doubles and an odd quotient loses its one.
    pub open spec fn after_halving(self, odd: bool) -> Rest {
        if odd {
            if self == Rest::Nothing {
                Rest::Half
            } else {
                Rest::AboveHalf
            }
        } else {
            if self == Rest::Nothing {
                Rest::Nothing
            } else {
                Rest::BelowHalf
            }
        }
    }

    pub fn halved(self, odd: bool) -> (r: Rest)
        ensures
            r == self.after_halving(odd),
    {
        if odd {
            if self == Rest::Nothing {
                Rest::Half
            } else {
                Rest::AboveHalf
            }
        } else {
            if self == Rest::Nothing {
                Rest::Nothing
            } else {
                Rest::BelowHalf
            }
        }
    }

    /// Whether the quotient is rounded up.
    pub open spec fn lifts(self, odd: bool) -> bool {
        self == Rest::AboveHalf || (self == Rest::Half && odd)
    }

    pub fn rounds_up(self, odd: bool) -> (r: bool)
        ensures
            r == self.lifts(odd),
    {
        self == Rest::AboveHalf || (self == Rest::Half && odd)
    }
}

/// `total` is `m` steps and the rest.
pub open spec fn within(total: nat, m: nat, step: nat, rest: Rest) -> bool {
    let left = total - m * step;
    &&& 0 <= left < step
    &&& match rest {
        Rest::Nothing => left == 0,
        Rest::BelowHalf => left > 0 && 2 * left < step,
        Rest::Half => 2 * left == step,
        Rest::AboveHalf => 2 * left > step,
        Rest::Something => left > 0,
    }
}

/// Halving the quotient and doubling the step keep the total.
pub proof fn lemma_halve(total: nat, m: nat, step: nat, rest: Rest)
    requires
        within(total, m, step, rest),
    ensures
        within(total, m / 2, 2 * step, rest.after_halving(m % 2 == 1)),
{
    let h = m / 2;
    assert(h * (2 * step) == (2 * h) * step) by (nonlinear_arith);
    if m % 2 == 1 {
        assert((2 * h) * step + step == m * step) by (nonlinear_arith)
            requires
                m == 2 * h + 1,
        ;
    }
}

/// What is left over decides the rounding.
pub proof fn lemma_within_nearest(total: nat, m: nat, step: nat, rest: Rest)
    requires
        within(total, m, step, rest),
        rest != Rest::Something,
    ensures
        nearest(total, step) == (if rest.lifts(m % 2 == 1) {
            m + 1
        } else {
            m
        }),
{
    lemma_nearest(total, step, m, (total - m * step) as nat);
}

/// Quotient and remainder pin down `nearest`.
pub proof fn lemma_nearest(n: nat, d: nat, q: nat, r: nat)
    requires
        d > 0,
        n == q * d + r,
        r < d,
    ensures
        n / d == q,
        n % d == r,
        nearest(n, d) == (if 2 * r < d || (2 * r == d && q % 2 == 0) {
            q
        } else {
            q + 1
        }),
{
    lemma_fundamental_div_mod_converse(n as int, d as int, q as int, r as int);
}

/// `nearest` of `n / d` is between the floor and one more.
pub proof fn lemma_nearest_bounds(n: nat, d: nat)
    requires
        d > 0,
    ensures
        n / d <= nearest(n, d) <= n / d + 1,
        (n / d) * d + n % d == n,
        n % d < d,
{
    lemma_fundamental_div_mod(n as int, d as int);
    lemma_mod_bound(n as int, d as int);
    assert((n / d) * d == d * (n / d)) by (nonlinear_arith);
}

/// Once the right power of two is known, one call of `nearest` rounds.
pub proof fn lemma_rounded_at(n: nat, d: nat, k: nat)
    requires
        d > 0,
        n < TWO_53 * (pow2(k) * d),
        k == 0 || TWO_52 * (pow2(k) * d) <= n,
    ensures
        rounded(n, d) == nearest(n, pow2(k) * d) * pow2(k),
    decreases k,
{
    lemma_pow2_pos(k);
    if k == 0 {
        lemma2_to64();
        assert(pow2(0) * d == d);
    } else {
        let h = (k - 1) as nat;
        lemma_pow2_pos(h);
        lemma_pow2_unfold(k);
        assert(pow2(k) == 2 * pow2(h));
        assert(pow2(k) * d == pow2(h) * (2 * d)) by (nonlinear_arith)
            requires
                pow2(k) == 2 * pow2(h),
        ;
        assert(TWO_52 * (pow2(k) * d) == TWO_53 * (pow2(h) * d)) by (nonlinear_arith)
            requires
                pow2(k) == 2 * pow2(h),
                TWO_53 == 2 * TWO_52,
        ;
        assert(pow2(h) * d >= d) by (nonlinear_arith)
            requires
                pow2(h) >= 1,
        ;
        assert(n >= TWO_53 * d);
        lemma_rounded_at(n, 2 * d, h);
        let q = nearest(n, pow2(k) * d);
        assert(q * pow2(k) == 2 * (q * pow2(h))) by (nonlinear_arith)
            requires
                pow2(k) == 2 * pow2(h),
        ;
    }
}

/// A ratio that already is a 53-bit multiple of a power of two stays as it is.
pub proof fn lemma_rounded_exact(n: nat, d: nat, m: nat, k: nat)
    requires
        d > 0,
        m < TWO_53,
        n == m * (pow2(k) * d),
    ensures
        rounded(n, d) == m * pow2(k),
    decreases k,
{
    lemma_pow2_pos(k);
    if n < TWO_53 * d {
        let v = m * pow2(k);
        assert(n == v * d + 0) by (nonlinear_arith)
            requires
                n == m * (pow2(k) * d),
                v == m * pow2(k),
        ;
        lemma_nearest(n, d, v, 0);
    } else {
        lemma2_to64();
        if k == 0 {
            assert(m * (pow2(0) * d) < TWO_53 * d) by (nonlinear_arith)
                requires
                    m < TWO_53,
                    pow2(0) == 1,
                    d > 0,
            ;
        }
        let h = (k - 1) as nat;
        lemma_pow2_unfold(k);
        assert(m * (pow2(k) * d) == m * (pow2(h) * (2 * d))) by (nonlinear_arith)
            requires
                pow2(k) == 2 * pow2(h),
        ;
        lemma_rounded_exact(n, 2 * d, m, h);
        assert(2 * (m * pow2(h)) == m * pow2(k)) by (nonlinear_arith)
            requires
                pow2(k) == 2 * pow2(h),
        ;
    }
}

/// Rounding depends on the ratio alone.
pub proof fn lemma_rounded_scaled(n: nat, d: nat, c: nat)
    requires
        d > 0,
        c > 0,
    ensures
        rounded(n * c, d * c) == rounded(n, d),
{
    assert((n * c) * d == n * (d * c)) by (nonlinear_arith);
    assert(d * c > 0) by (nonlinear_arith)
        requires
            d > 0,
            c > 0,
    ;
    lemma_rounded_monotone(n * c, d * c, n, d);
    lemma_rounded_monotone(n, d, n * c, d * c);
}

/// `nearest` is monotone in the ratio.
pub proof fn lemma_nearest_monotone(n1: nat, d1: nat, n2: nat, d2: nat)
    requires
        d1 > 0,
        d2 > 0,
        n1 * d2 <= n2 * d1,
    ensures
        nearest(n1, d1) <= nearest(n2, d2),
{
    lemma_nearest_bounds(n1, d1);
    lemma_nearest_bounds(n2, d2);
    let q1 = n1 / d1;
    let r1 = n1 % d1;
    let q2 = n2 / d2;
    let r2 = n2 % d2;
    assert(q1 <= q2) by (nonlinear_arith)
        requires
            q1 * d1 + r1 == n1,
            q2 * d2 + r2 == n2,
            n1 * d2 <= n2 * d1,
            0 <= r1,
            0 <= r2 < d2,
            d1 > 0,
            d2 > 0,
            q1 >= 0,
            q2 >= 0,
    {
        if q1 >= q2 + 1 {
            assert(n1 * d2 >= q1 * d1 * d2);
            assert(q1 * d1 * d2 >= (q2 + 1) * d1 * d2);
            assert(n2 * d1 == q2 * d2 * d1 + r2 * d1);
            assert(r2 * d1 < d2 * d1);
        }
    }
    if q1 == q2 {
        assert(r1 * d2 <= r2 * d1) by (nonlinear_arith)
            requires
                q1 == q2,
                q1 * d1 + r1 == n1,
                q2 * d2 + r2 == n2,
                n1 * d2 <= n2 * d1,
        ;
        // The first fraction is no larger, so where the second is rounded down the
        // first is too.
        if 2 * r2 < d2 {
            assert(2 * r1 < d1) by (nonlinear_arith)
                requires
                    r1 * d2 <= r2 * d1,
                    2 * r2 < d2,
                    d1 > 0,
                    d2 > 0,
                    r1 >= 0,
            ;
        } else if 2 * r2 == d2 {
            assert(2 * r1 <= d1) by (nonlinear_arith)
                requires
                    r1 * d2 <= r2 * d1,
                    2 * r2 == d2,
                    d1 > 0,
                    d2 > 0,
                    r1 >= 0,
            ;
        }
    }
}

/// A ratio of at least 2^52 does not round below it.
pub proof fn lemma_rounded_at_least(n: nat, d: nat)
    requires
        d > 0,
        TWO_52 * d <= n,
    ensures
        rounded(n, d) >= TWO_52,
    decreases n - d,
{
    if n < TWO_53 * d {
        lemma_nearest_bounds(n, d);
        lemma_fundamental_div_mod(n as int, d as int);
        assert(n / d >= TWO_52) by (nonlinear_arith)
            requires
                (n / d) * d + n % d == n,
                n % d < d,
                TWO_52 * d <= n,
                d > 0,
        ;
    } else {
        lemma_rounded_at_least(n, 2 * d);
    }
}

/// Rounding to 53 bits is monotone in the ratio.
pub proof fn lemma_rounded_monotone(n1: nat, d1: nat, n2: nat, d2: nat)
    requires
        d1 > 0,
        d2 > 0,
        n1 * d2 <= n2 * d1,
    ensures
        rounded(n1, d1) <= rounded(n2, d2),
    decreases n1 - d1,
{
    let big: nat = TWO_53 as nat;
    if n1 < big * d1 {
        if n2 < big * d2 {
            lemma_nearest_monotone(n1, d1, n2, d2);
        } else {
            lemma_nearest_bounds(n1, d1);
            assert(n1 / d1 < big) by (nonlinear_arith)
                requires
                    (n1 / d1) * d1 + n1 % d1 == n1,
                    n1 % d1 >= 0,
                    n1 < big * d1,
                    d1 > 0,
            ;
            lemma_rounded_at_least(n2, 2 * d2);
        }
    } else {
        assert(n2 >= big * d2) by (nonlinear_arith)
            requires
                n1 >= big * d1,
                n1 * d2 <= n2 * d1,
                d1 > 0,
                d2 > 0,
                big > 0,
        {
            assert(big * d1 * d2 <= n1 * d2);
        }
        assert(n1 * (2 * d2) <= n2 * (2 * d1)) by (nonlinear_arith)
            requires
                n1 * d2 <= n2 * d1,
        ;
        lemma_rounded_monotone(n1, 2 * d1, n2, 2 * d2);
    }
}

/// What is rounded once is not changed by rounding it again.
pub proof fn lemma_rounded_idempotent(n: nat, d: nat)
    requires
        d > 0,
    ensures
        rounded(rounded(n, d), 1) == rounded(n, d),
    decreases n - d,
{
    let v = rounded(n, d);
    let big: nat = TWO_53 as nat;
    if n < big * d {
        lemma_nearest_bounds(n, d);
        assert(n / d < big) by (nonlinear_arith)
            requires
                (n / d) * d + n % d == n,
                n % d >= 0,
                n < big * d,
                d > 0,
        ;
        if v < big {
            lemma_nearest(v, 1, v, 0);
        } else {
            assert(rounded(v, 1) == 2 * rounded(v, 2));
            lemma_nearest(v, 2, TWO_52 as nat, 0);
        }
    } else {
        let w = rounded(n, 2 * d);
        lemma_rounded_idempotent(n, 2 * d);
        if v < big {
            lemma_nearest(v, 1, v, 0);
        } else {
            lemma_rounded_scaled(w, 1, 2);
            assert(w * 2 == v);
        }
    }
}

/// How far `v` lies from `n / d`, times `d`.
pub open spec fn distance(v: nat, n: nat, d: nat) -> nat {
    let gap = v * d - n;
    (if gap < 0 {
        -gap
    } else {
        gap
    }) as nat
}

pub proof fn lemma_nearest_is_nearest(n: nat, d: nat, w: nat)
    requires
        d > 0,
    ensures
        distance(nearest(n, d), n, d) <= distance(w, n, d),
{
    let q = n / d;
    let r = n % d;
    lemma_fundamental_div_mod(n as int, d as int);
    lemma_mod_bound(n as int, d as int);
    assert(n == q * d + r) by (nonlinear_arith)
        requires
            n == d * q + r,
    ;
    lemma_nearest(n, d, q, r);
    assert((q + 1) * d == q * d + d) by (nonlinear_arith);
    if w <= q {
        assert(w * d <= q * d) by (nonlinear_arith)
            requires
                w <= q,
        ;
    } else {
        assert(w * d >= q * d + d) by (nonlinear_arith)
            requires
                w >= q + 1,
        ;
    }
}

/// Numbers of 53 significant bits that need more are even, and their halves are such
/// numbers too.
proof fn lemma_halves(w: nat)
    requires
        w >= TWO_53,
        rounded(w, 1) == w,
    ensures
        w == 2 * (w / 2),
        rounded(w / 2, 1) == w / 2,
{
    let v = rounded(w, 2);
    assert(rounded(w, 1) == 2 * v);
    lemma_rounded_scaled(w / 2, 1, 2);
}

/// Two numbers of 53 significant bits lie at least 2^-53 of the larger one apart.
pub proof fn lemma_gap(x: nat, y: nat)
    requires
        x < y,
        rounded(x, 1) == x,
        rounded(y, 1) == y,
    ensures
        (y - x) * TWO_53 >= y,
    decreases y,
{
    if y > TWO_53 {
        lemma_halves(y);
        if x >= TWO_53 {
            lemma_halves(x);
            lemma_gap(x / 2, y / 2);
        }
    }
}

/// Rounding is to the nearest: no number of 53 significant bits lies closer to `n / d`.
pub proof fn law_rounding_is_to_nearest(n: nat, d: nat, w: nat)
    requires
        d > 0,
        rounded(w, 1) == w,
    ensures
        distance(rounded(n, d), n, d) <= distance(w, n, d),
    decreases n - d,
{
    let big: nat = TWO_53 as nat;
    if n < big * d {
        lemma_nearest_is_nearest(n, d, w);
    } else {
        let half = if w >= big {
            w / 2
        } else {
            TWO_52 as nat
        };
        if w >= big {
            lemma_halves(w);
        } else {
            lemma_nearest(half, 1, half, 0);
        }
        law_rounding_is_to_nearest(n, 2 * d, half);
        let v = rounded(n, 2 * d);
        assert(v * (2 * d) == (2 * v) * d) by (nonlinear_arith);
        assert(half * (2 * d) == (2 * half) * d) by (nonlinear_arith);
        if w < big {
            assert(w * d <= big * d) by (nonlinear_arith)
                requires
                    w <= big,
            ;
        }
    }
}

/// A rounding moves a ratio by half a step at most, or by one part in 2^53.
pub proof fn lemma_rounding_error(n: nat, d: nat)
    requires
        d > 0,
    ensures
        n < TWO_53 * d ==> 2 * distance(rounded(n, d), n, d) <= d,
        n >= TWO_52 * d ==> distance(rounded(n, d), n, d) * TWO_53 <= n,
    decreases n - d,
{
    let big: nat = TWO_53 as nat;
    if n < big * d {
        let q = n / d;
        let r = n % d;
        lemma_fundamental_div_mod(n as int, d as int);
        lemma_mod_bound(n as int, d as int);
        assert(n == q * d + r) by (nonlinear_arith)
            requires
                n == d * q + r,
        ;
        lemma_nearest(n, d, q, r);
        assert((q + 1) * d == q * d + d) by (nonlinear_arith);
    } else {
        lemma_rounding_error(n, 2 * d);
        let v = rounded(n, 2 * d);
        assert(v * (2 * d) == (2 * v) * d) by (nonlinear_arith);
    }
}

/// Twice a ratio rounds to twice as much, unless it is too small for 53 bits.
pub proof fn lemma_rounded_doubles(n: nat, d: nat)
    requires
        d > 0,
        n >= TWO_52 * d,
    ensures
        rounded(2 * n, d) == 2 * rounded(n, d),
        rounded(n, d) == rounded(2 * n, 2 * d),
{
    lemma_rounded_scaled(n, d, 2);
    assert(n * 2 == 2 * n && d * 2 == 2 * d);
    assert(2 * n >= TWO_53 * d);
}

} // verus!
