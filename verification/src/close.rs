//! Numbers that agree but for a count of roundings.
//!
//! A rounding to 53 significant bits moves a number by at most one part in 2^53, so a
//! result that took `k` roundings lies within the factor `((2^53 + 1) / (2^53 - 1))^k`
//! of what exact arithmetic gives. Such factors multiply, which makes statements on
//! whole formulas short.

use crate::binary64;
use crate::binary64::Datum;
use crate::rounding;
use crate::rounding::{TWO_52, TWO_53};
use vstd::arithmetic::power::*;
use vstd::arithmetic::power2::*;
use vstd::prelude::*;

verus! {

/// `(2^53 - 1)^k`.
pub open spec fn less_of(k: nat) -> nat {
    pow(0x1F_FFFF_FFFF_FFFF, k) as nat
}

/// `(2^53 + 1)^k`.
pub open spec fn more_of(k: nat) -> nat {
    pow(0x20_0000_0000_0001, k) as nat
}

/// `x` and `y` agree but for `k` roundings.
pub open spec fn close(x: nat, y: nat, k: nat) -> bool {
    &&& x * less_of(k) <= y * more_of(k)
    &&& y * less_of(k) <= x * more_of(k)
}

proof fn lemma_factors(j: nat, k: nat)
    ensures
        0 < less_of(k) <= more_of(k),
        pow(0x1F_FFFF_FFFF_FFFF, k) == less_of(k),
        pow(0x20_0000_0000_0001, k) == more_of(k),
        less_of(j + k) == less_of(j) * less_of(k),
        more_of(j + k) == more_of(j) * more_of(k),
    decreases k,
{
    lemma_pow_positive(0x1F_FFFF_FFFF_FFFF, j);
    lemma_pow_positive(0x1F_FFFF_FFFF_FFFF, k);
    lemma_pow_positive(0x20_0000_0000_0001, j);
    lemma_pow_positive(0x20_0000_0000_0001, k);
    lemma_pow_adds(0x1F_FFFF_FFFF_FFFF, j, k);
    lemma_pow_adds(0x20_0000_0000_0001, j, k);
    if k == 0 {
        lemma_pow0(0x1F_FFFF_FFFF_FFFF);
        lemma_pow0(0x20_0000_0000_0001);
    } else {
        let i = (k - 1) as nat;
        lemma_factors(0, i);
        reveal(pow);
        let a = less_of(i);
        let b = more_of(i);
        assert(0x1F_FFFF_FFFF_FFFF * a <= 0x20_0000_0000_0001 * b) by (nonlinear_arith)
            requires
                a <= b,
        ;
    }
}

pub proof fn lemma_close_same(x: nat, k: nat)
    ensures
        close(x, x, k),
{
    lemma_factors(0, k);
    let a = less_of(k);
    let b = more_of(k);
    assert(x * a <= x * b) by (nonlinear_arith)
        requires
            a <= b,
    ;
}

pub proof fn lemma_close_swap(x: nat, y: nat, k: nat)
    requires
        close(x, y, k),
    ensures
        close(y, x, k),
{
}

pub proof fn lemma_close_times(x: nat, y: nat, j: nat, u: nat, v: nat, k: nat)
    requires
        close(x, y, j),
        close(u, v, k),
    ensures
        close(x * u, y * v, j + k),
{
    lemma_factors(j, k);
    lemma_factors(0, j);
    lemma_product_bound(x, less_of(j), y, more_of(j), u, less_of(k), v, more_of(k));
    lemma_product_bound(y, less_of(j), x, more_of(j), v, less_of(k), u, more_of(k));
}

proof fn lemma_product_bound(
    x: nat,
    a: nat,
    y: nat,
    b: nat,
    u: nat,
    c: nat,
    v: nat,
    d: nat,
)
    requires
        x * a <= y * b,
        u * c <= v * d,
    ensures
        (x * u) * (a * c) <= (y * v) * (b * d),
{
    assert((x * u) * (a * c) == (x * a) * (u * c)) by (nonlinear_arith);
    assert((y * v) * (b * d) == (y * b) * (v * d)) by (nonlinear_arith);
    let p = x * a;
    let q = y * b;
    let r = u * c;
    let s = v * d;
    assert(p * r <= q * s) by (nonlinear_arith)
        requires
            p <= q,
            r <= s,
    ;
}

pub proof fn lemma_close_through(x: nat, y: nat, j: nat, z: nat, k: nat)
    requires
        close(x, y, j),
        close(y, z, k),
    ensures
        close(x, z, j + k),
{
    lemma_factors(j, k);
    lemma_factors(0, j);
    lemma_chain(x, less_of(j), y, more_of(j), less_of(k), z, more_of(k));
    lemma_chain(z, less_of(k), y, more_of(k), less_of(j), x, more_of(j));
    let a = less_of(j);
    let b = less_of(k);
    let c = more_of(j);
    let d = more_of(k);
    assert(a * b == b * a && c * d == d * c) by (nonlinear_arith);
}

proof fn lemma_chain(x: nat, a: nat, y: nat, b: nat, c: nat, z: nat, d: nat)
    requires
        x * a <= y * b,
        y * c <= z * d,
    ensures
        x * (a * c) <= z * (b * d),
{
    let p = x * a;
    let q = y * b;
    assert(x * (a * c) == p * c) by (nonlinear_arith)
        requires
            p == x * a,
    ;
    assert(p * c <= q * c) by (nonlinear_arith)
        requires
            p <= q,
    ;
    let r = y * c;
    let s = z * d;
    assert(q * c == r * b) by (nonlinear_arith)
        requires
            q == y * b,
            r == y * c,
    ;
    assert(r * b <= s * b) by (nonlinear_arith)
        requires
            r <= s,
    ;
    assert(s * b == z * (b * d)) by (nonlinear_arith)
        requires
            s == z * d,
    ;
}

pub proof fn lemma_close_more(x: nat, y: nat, j: nat, k: nat)
    requires
        close(x, y, j),
        j <= k,
    ensures
        close(x, y, k),
{
    lemma_close_same(y, (k - j) as nat);
    lemma_close_through(x, y, j, y, (k - j) as nat);
}

pub proof fn lemma_close_plus(x: nat, y: nat, u: nat, v: nat, k: nat)
    requires
        close(x, y, k),
        close(u, v, k),
    ensures
        close(x + u, y + v, k),
{
    let a = less_of(k);
    let b = more_of(k);
    assert((x + u) * a == x * a + u * a && (y + v) * b == y * b + v * b && (y + v) * a == y * a + v
        * a && (x + u) * b == x * b + u * b) by (nonlinear_arith);
}

/// A common factor does not count.
pub proof fn lemma_close_cancel(x: nat, y: nat, c: nat, k: nat)
    requires
        close(x * c, y * c, k),
        c > 0,
    ensures
        close(x, y, k),
{
    let a = less_of(k);
    let b = more_of(k);
    assert((x * c) * a == (x * a) * c && (y * c) * b == (y * b) * c && (y * c) * a == (y * a) * c
        && (x * c) * b == (x * b) * c) by (nonlinear_arith);
    let p = x * a;
    let q = y * b;
    let r = y * a;
    let s = x * b;
    assert(p <= q) by (nonlinear_arith)
        requires
            p * c <= q * c,
            c > 0,
    ;
    assert(r <= s) by (nonlinear_arith)
        requires
            r * c <= s * c,
            c > 0,
    ;
}

pub proof fn lemma_close_scaled(x: nat, y: nat, c: nat, k: nat)
    requires
        close(x, y, k),
    ensures
        close(x * c, y * c, k),
{
    lemma_close_same(c, 0);
    lemma_close_times(x, y, k, c, c, 0);
}

/// A rounded ratio is close to the ratio, unless it is too small for 53 bits.
pub proof fn lemma_rounded_close(n: nat, d: nat)
    requires
        d > 0,
        n == 0 || n >= TWO_52 * d,
    ensures
        close(rounding::rounded(n, d) * d, n, 1),
{
    let v = rounding::rounded(n, d);
    rounding::lemma_rounding_error(n, d);
    lemma_pow1(0x1F_FFFF_FFFF_FFFF);
    lemma_pow1(0x20_0000_0000_0001);
    let w = v * d;
    if n == 0 {
        rounding::lemma_nearest(0, d, 0, 0);
        assert(w == 0) by (nonlinear_arith)
            requires
                w == v * d,
                v == 0,
        ;
    } else {
        let gap = rounding::distance(v, n, d);
        assert(gap * 0x20_0000_0000_0000 <= n);
        assert(w <= n + gap && n <= w + gap);
    }
    assert(less_of(1) == 0x1F_FFFF_FFFF_FFFF && more_of(1) == 0x20_0000_0000_0001);
    assert(w * 0x1F_FFFF_FFFF_FFFF <= n * 0x20_0000_0000_0001);
    assert(n * 0x1F_FFFF_FFFF_FFFF <= w * 0x20_0000_0000_0001);
}

impl Datum {
    /// Finite, not negative, and between `2^-lo` and `2^hi`.
    pub open spec fn spans(self, lo: nat, hi: nat) -> bool {
        &&& self is Finite
        &&& !self->Finite_neg
        &&& pow2((1074 - lo) as nat) <= self->mag <= pow2(1074 + hi)
    }
}

proof fn lemma_ratio_spans(n: nat, d: nat, lo: nat, hi: nat)
    requires
        d > 0,
        lo <= 1000,
        hi <= 1000,
        pow2((1074 - lo) as nat) * d <= n <= pow2(1074 + hi) * d,
    ensures
        Datum::of_ratio(false, n, d).spans(lo, hi),
        close(rounding::rounded(n, d) * d, n, 1),
{
    let i = (1074 - lo) as nat;
    let bottom = pow2(i);
    let top = pow2(1074 + hi);
    rounding::lemma_rounded_monotone(bottom, 1, n, d);
    rounding::lemma_rounded_monotone(n, d, top, 1);
    assert(bottom == 1 * (pow2(i) * 1));
    assert(top == 1 * (pow2(1074 + hi) * 1));
    rounding::lemma_rounded_exact(bottom, 1, 1, i);
    rounding::lemma_rounded_exact(top, 1, 1, 1074 + hi);
    lemma_pow2_strictly_increases(1074 + hi, 2098);
    lemma2_to64();
    lemma2_to64_rest();
    lemma_pow2_strictly_increases(52, i);
    assert(TWO_52 * d <= bottom * d) by (nonlinear_arith)
        requires
            TWO_52 <= bottom,
    ;
    lemma_rounded_close(n, d);
}

/// A product of two numbers of middling size.
pub proof fn lemma_times_close(a: Datum, lo1: nat, hi1: nat, b: Datum, lo2: nat, hi2: nat)
    requires
        a.spans(lo1, hi1),
        b.spans(lo2, hi2),
        lo1 + lo2 <= 1000,
        hi1 + hi2 <= 1000,
    ensures
        a.times(b).spans(lo1 + lo2, hi1 + hi2),
        close(a.times(b)->mag * binary64::one(), a->mag * b->mag, 1),
{
    reveal(Datum::times);
    let x = a->mag;
    let y = b->mag;
    let one = binary64::one();
    lemma_pow2_pos(1074);
    let p1 = pow2((1074 - lo1) as nat);
    let p2 = pow2((1074 - lo2) as nat);
    let q1 = pow2(1074 + hi1);
    let q2 = pow2(1074 + hi2);
    lemma_pow2_adds((1074 - lo1) as nat, (1074 - lo2) as nat);
    lemma_pow2_adds((1074 - lo1 - lo2) as nat, 1074);
    lemma_pow2_adds(1074 + hi1, 1074 + hi2);
    lemma_pow2_adds(1074 + hi1 + hi2, 1074);
    assert(p1 * p2 <= x * y <= q1 * q2) by (nonlinear_arith)
        requires
            p1 <= x <= q1,
            p2 <= y <= q2,
    ;
    lemma_ratio_spans(x * y, one, lo1 + lo2, hi1 + hi2);
}

/// A quotient of two numbers of middling size.
pub proof fn lemma_over_close(a: Datum, lo1: nat, hi1: nat, b: Datum, lo2: nat, hi2: nat)
    requires
        a.spans(lo1, hi1),
        b.spans(lo2, hi2),
        lo1 + hi2 <= 1000,
        hi1 + lo2 <= 1000,
    ensures
        a.over(b).spans(lo1 + hi2, hi1 + lo2),
        close(a.over(b)->mag * b->mag, a->mag * binary64::one(), 1),
        b->mag > 0,
{
    reveal(Datum::over);
    let x = a->mag;
    let y = b->mag;
    let one = binary64::one();
    lemma_pow2_pos((1074 - lo2) as nat);
    let p1 = pow2((1074 - lo1) as nat);
    let p2 = pow2((1074 - lo2) as nat);
    let q1 = pow2(1074 + hi1);
    let q2 = pow2(1074 + hi2);
    let p = pow2((1074 - lo1 - hi2) as nat);
    let q = pow2(1074 + hi1 + lo2);
    lemma_pow2_adds((1074 - lo1 - hi2) as nat, 1074 + hi2);
    lemma_pow2_adds((1074 - lo1) as nat, 1074);
    lemma_pow2_adds(1074 + hi1 + lo2, (1074 - lo2) as nat);
    lemma_pow2_adds(1074 + hi1, 1074);
    assert(p * y <= x * one) by (nonlinear_arith)
        requires
            p * q2 == p1 * one,
            y <= q2,
            p1 <= x,
    ;
    assert(x * one <= q * y) by (nonlinear_arith)
        requires
            q * p2 == q1 * one,
            p2 <= y,
            x <= q1,
    ;
    lemma_ratio_spans(x * one, y, lo1 + hi2, hi1 + lo2);
}

pub proof fn lemma_of_nat_close(n: nat, k: nat)
    requires
        1 <= n <= pow2(k),
        k <= 1000,
    ensures
        Datum::of_nat(n).spans(0, k),
        close(Datum::of_nat(n)->mag, n * binary64::one(), 1),
        n < TWO_53 ==> Datum::of_nat(n)->mag == n * binary64::one(),
{
    reveal(Datum::of_nat);
    let one = binary64::one();
    let top = pow2(k);
    lemma_pow2_adds(1074, k);
    assert(one * 1 <= n * one <= (one * top) * 1) by (nonlinear_arith)
        requires
            1 <= n <= top,
    ;
    lemma_ratio_spans(n * one, 1, 0, k);
    if n < TWO_53 {
        binary64::lemma_of_nat_exact(n);
    }
}

/// A decimal of hundredths.
pub proof fn lemma_literal_close(n: nat)
    requires
        1 <= n <= 200,
    ensures
        Datum::literal(n, 100).spans(7, 1),
        close(Datum::literal(n, 100)->mag * 100, n * binary64::one(), 1),
{
    reveal(Datum::literal);
    let one = binary64::one();
    let p = pow2(1067);
    lemma2_to64();
    lemma_pow2_adds(1067, 7);
    lemma_pow2_adds(1074, 1);
    assert(p * 100 <= n * one <= (2 * one) * 100) by (nonlinear_arith)
        requires
            one == p * 128,
            1 <= n <= 200,
    ;
    lemma_ratio_spans(n * one, 100, 7, 1);
}

/// Hundredths of any size up to sixteen.
pub proof fn lemma_hundredths_close(n: nat)
    requires
        1 <= n <= 1600,
    ensures
        Datum::literal(n, 100).spans(7, 4),
        close(Datum::literal(n, 100)->mag * 100, n * binary64::one(), 1),
{
    reveal(Datum::literal);
    let one = binary64::one();
    let p = pow2(1067);
    lemma2_to64();
    lemma_pow2_adds(1067, 7);
    lemma_pow2_adds(1074, 4);
    assert(p * 100 <= n * one <= (16 * one) * 100) by (nonlinear_arith)
        requires
            one == p * 128,
            1 <= n <= 1600,
    ;
    lemma_ratio_spans(n * one, 100, 7, 4);
}

/// A sum with a number of middling size is one.
pub proof fn lemma_plus_spans(a: Datum, lo: nat, hi: nat, b: Datum)
    requires
        a.spans(lo, hi),
        lo <= 1000,
        hi <= 900,
        b is Finite,
        !b->Finite_neg,
        b->mag <= pow2(1074 + hi),
    ensures
        a.plus(b).spans(lo, hi + 1),
        close(a.plus(b)->mag, a->mag + b->mag, 1),
{
    reveal(Datum::minus);
    lemma_pow2_unfold(1074 + hi + 1);
    lemma_pow2_pos((1074 - lo) as nat);
    let sum = a->mag + b->mag;
    assert(pow2((1074 - lo) as nat) * 1 <= sum <= pow2(1074 + (hi + 1)) * 1);
    lemma_ratio_spans(sum, 1, lo, hi + 1);
    assert(rounding::rounded(sum, 1) * 1 == rounding::rounded(sum, 1));
}

} // verus!
