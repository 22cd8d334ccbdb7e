//! The order of binary64 numbers, and what the operations do to it.

use crate::binary64;
use crate::binary64::{Datum, F64};
use crate::rounding;
use vstd::arithmetic::div_mod::*;
use vstd::arithmetic::power2::*;
use vstd::prelude::*;

verus! {

impl Datum {
    /// Neither is NaN, and the first does not exceed the second.
    pub open spec fn at_most(self, other: Datum) -> bool {
        match (self, other) {
            (Datum::Nan, _) => false,
            (_, Datum::Nan) => false,
            (Datum::Infinite { neg: true }, _) => true,
            (_, Datum::Infinite { neg: false }) => true,
            (Datum::Infinite { .. }, _) => false,
            (_, Datum::Infinite { .. }) => false,
            (Datum::Finite { .. }, Datum::Finite { .. }) => self.units() <= other.units(),
        }
    }

    /// Finite, and not below zero.
    pub open spec fn is_size(self) -> bool {
        self is Finite && self.units() >= 0
    }

    /// Finite, and above zero.
    pub open spec fn is_positive(self) -> bool {
        self is Finite && self.units() > 0
    }
}

pub proof fn lemma_at_most_transitive(a: Datum, b: Datum, c: Datum)
    requires
        a.at_most(b),
        b.at_most(c),
    ensures
        a.at_most(c),
{
}

/// Rounding keeps the order of exact values.
proof fn lemma_signed(x: int, y: int)
    requires
        x <= y,
    ensures
        Datum::of_ratio(x < 0, (if x < 0 { -x } else { x }) as nat, 1).at_most(
            Datum::of_ratio(y < 0, (if y < 0 { -y } else { y }) as nat, 1),
        ),
{
    let a = (if x < 0 {
        -x
    } else {
        x
    }) as nat;
    let b = (if y < 0 {
        -y
    } else {
        y
    }) as nat;
    if x >= 0 {
        rounding::lemma_rounded_monotone(a, 1, b, 1);
    } else if y < 0 {
        rounding::lemma_rounded_monotone(b, 1, a, 1);
    }
}

/// The exact difference, rounded; the sign of a zero does not matter to the order.
proof fn lemma_minus_rounds(a: Datum, b: Datum)
    requires
        a is Finite,
        b is Finite,
    ensures
        ({
            let x = a.units() - b.units();
            let r = Datum::of_ratio(x < 0, (if x < 0 { -x } else { x }) as nat, 1);
            a.minus(b).at_most(r) && r.at_most(a.minus(b))
        }),
{
    reveal(Datum::minus);
    rounding::lemma_nearest(0, 1, 0, 0);
    lemma_pow2_pos(2098);
}

/// To take away more leaves no more.
pub proof fn lemma_minus_antitone(a: Datum, b: Datum, c: Datum)
    requires
        !(a is Nan),
        b is Finite,
        c is Finite,
        b.at_most(c),
    ensures
        a.minus(c).at_most(a.minus(b)),
{
    if a is Finite {
        lemma_minus_rounds(a, b);
        lemma_minus_rounds(a, c);
        lemma_signed(a.units() - c.units(), a.units() - b.units());
    } else {
        reveal(Datum::minus);
    }
}

/// To take from more leaves no less.
pub proof fn lemma_minus_monotone(a: Datum, b: Datum, c: Datum)
    requires
        a.at_most(b),
        c is Finite,
    ensures
        a.minus(c).at_most(b.minus(c)),
{
    if a is Finite && b is Finite {
        lemma_minus_rounds(a, c);
        lemma_minus_rounds(b, c);
        lemma_signed(a.units() - c.units(), b.units() - c.units());
    } else {
        reveal(Datum::minus);
    }
}

/// Nothing taken away is nothing lost.
pub proof fn lemma_minus_at_most(a: Datum, b: Datum)
    requires
        a is Finite,
        a.representable(),
        b.is_size(),
    ensures
        a.minus(b).at_most(a),
{
    lemma_minus_rounds(a, b);
    lemma_signed(a.units() - b.units(), a.units());
    lemma_representable(a);
}

impl Datum {
    /// A number of the format: its magnitude has at most 53 significant bits.
    pub open spec fn representable(self) -> bool {
        self matches Datum::Finite { mag, .. } ==> rounding::rounded(mag, 1) == mag && mag
            < binary64::beyond()
    }
}

proof fn lemma_representable(a: Datum)
    requires
        a is Finite,
        a.representable(),
    ensures
        ({
            let x = a.units();
            let r = Datum::of_ratio(x < 0, (if x < 0 { -x } else { x }) as nat, 1);
            a.at_most(r) && r.at_most(a)
        }),
{
}

/// Integers keep their order.
pub proof fn lemma_of_nat_monotone(a: nat, b: nat)
    requires
        a <= b,
    ensures
        Datum::of_nat(a).at_most(Datum::of_nat(b)),
{
    reveal(Datum::of_nat);
    let one = binary64::one();
    assert((a * one) * 1 <= (b * one) * 1) by (nonlinear_arith)
        requires
            a <= b,
    ;
    rounding::lemma_rounded_monotone(a * one, 1, b * one, 1);
}

/// A product with a factor that is not negative keeps the order.
pub proof fn lemma_times_monotone(a: Datum, b: Datum, c: Datum)
    requires
        a.is_size(),
        b.is_size(),
        c.is_size(),
        b.at_most(c),
    ensures
        a.times(b).at_most(a.times(c)),
{
    reveal(Datum::times);
    let x = a->mag;
    let y = b->mag;
    let z = c->mag;
    let one = binary64::one();
    lemma_pow2_pos(1074);
    assert((x * y) * one <= (x * z) * one) by (nonlinear_arith)
        requires
            y <= z,
    ;
    rounding::lemma_rounded_monotone(x * y, one, x * z, one);
    if x == 0 || y == 0 {
        assert(x * y == 0) by (nonlinear_arith)
            requires
                x == 0 || y == 0,
        ;
        rounding::lemma_nearest(0, one, 0, 0);
    }
    if x == 0 || z == 0 {
        assert(x * z == 0) by (nonlinear_arith)
            requires
                x == 0 || z == 0,
        ;
        rounding::lemma_nearest(0, one, 0, 0);
    }
    lemma_pow2_pos(2098);
}

/// A quotient by a positive number keeps the order.
pub proof fn lemma_over_monotone(a: Datum, b: Datum, c: Datum)
    requires
        a.at_most(b),
        c.is_positive(),
    ensures
        a.over(c).at_most(b.over(c)),
{
    reveal(Datum::over);
    if a is Finite && b is Finite {
        let x = a->mag;
        let y = b->mag;
        let d = c->mag;
        let one = binary64::one();
        lemma_pow2_pos(1074);
        lemma_pow2_pos(2098);
        rounding::lemma_nearest(0, d, 0, 0);
        if x == 0 {
            assert(x * one == 0) by (nonlinear_arith)
                requires
                    x == 0,
            ;
        }
        if y == 0 {
            assert(y * one == 0) by (nonlinear_arith)
                requires
                    y == 0,
            ;
        }
        if x <= y {
            assert((x * one) * d <= (y * one) * d) by (nonlinear_arith)
                requires
                    x <= y,
            ;
            rounding::lemma_rounded_monotone(x * one, d, y * one, d);
        } else {
            assert((y * one) * d <= (x * one) * d) by (nonlinear_arith)
                requires
                    y <= x,
            ;
            rounding::lemma_rounded_monotone(y * one, d, x * one, d);
        }
    }
}

/// A positive number divided by more is no more.
pub proof fn lemma_over_antitone(a: Datum, b: Datum, c: Datum)
    requires
        a.is_positive(),
        b.at_most(c),
        b matches Datum::Finite { neg, .. } ==> !neg,
        c matches Datum::Finite { neg, .. } ==> !neg,
        b matches Datum::Infinite { neg } ==> !neg,
        c matches Datum::Infinite { neg } ==> !neg,
    ensures
        a.over(c).at_most(a.over(b)),
{
    reveal(Datum::over);
    if b is Finite && c is Finite && b->mag != 0 {
        let x = a->mag;
        let y = b->mag;
        let z = c->mag;
        let one = binary64::one();
        assert((x * one) * y <= (x * one) * z) by (nonlinear_arith)
            requires
                y <= z,
        ;
        rounding::lemma_rounded_monotone(x * one, z, x * one, y);
    }
}

/// Floors keep the order.
pub proof fn lemma_floor_monotone(a: Datum, b: Datum)
    requires
        a.at_most(b),
    ensures
        a.floor_i64() <= b.floor_i64(),
{
    reveal(Datum::floor_i64);
    lemma_pow2_pos(1074);
    if a is Finite && b is Finite {
        lemma_div_is_ordered(a.units(), b.units(), binary64::one() as int);
    }
}

/// What an operation rounds is a number of the format.
pub proof fn lemma_of_ratio_representable(neg: bool, n: nat, d: nat)
    requires
        d > 0,
    ensures
        Datum::of_ratio(neg, n, d).representable(),
{
    rounding::lemma_rounded_idempotent(n, d);
}

/// A product is a number of the format.
pub proof fn lemma_times_representable(a: Datum, b: Datum)
    ensures
        a.times(b).representable(),
{
    reveal(Datum::times);
    if a is Finite && b is Finite {
        lemma_pow2_pos(1074);
        lemma_of_ratio_representable(
            a->Finite_neg != b->Finite_neg,
            a->mag * b->mag,
            binary64::one(),
        );
    }
}

/// An integer is a number of the format, after rounding.
pub proof fn lemma_of_nat_representable(n: nat)
    ensures
        Datum::of_nat(n).representable(),
{
    reveal(Datum::of_nat);
    lemma_of_ratio_representable(false, n * binary64::one(), 1);
}

impl Datum {
    pub open spec fn zero() -> Datum {
        Datum::Finite { neg: false, mag: 0 }
    }

    /// Finite, not below zero, and at most `2^k`.
    pub open spec fn within(self, k: nat) -> bool {
        self.is_size() && self.units() <= pow2(1074 + k)
    }
}

proof fn lemma_ratio_within(neg: bool, n: nat, d: nat, k: nat)
    requires
        d > 0,
        n <= pow2(1074 + k) * d,
        k <= 1000,
        neg ==> n == 0,
    ensures
        Datum::of_ratio(neg, n, d).within(k),
{
    let top = pow2(1074 + k);
    assert(n * 1 <= top * d);
    rounding::lemma_rounded_monotone(n, d, top, 1);
    assert(top == 1 * (pow2(1074 + k) * 1));
    rounding::lemma_rounded_exact(top, 1, 1, 1074 + k);
    lemma_pow2_strictly_increases(1074 + k, 2098);
    if n == 0 {
        rounding::lemma_nearest(0, d, 0, 0);
    }
}

pub proof fn lemma_within_more(a: Datum, i: nat, j: nat)
    requires
        a.within(i),
        i <= j,
    ensures
        a.within(j),
{
    if i < j {
        lemma_pow2_strictly_increases(1074 + i, 1074 + j);
    }
}

pub proof fn lemma_of_nat_within(n: nat, k: nat)
    requires
        n <= pow2(k),
        k <= 1000,
    ensures
        Datum::of_nat(n).within(k),
{
    reveal(Datum::of_nat);
    lemma_pow2_adds(1074, k);
    let one = binary64::one();
    let top = pow2(k);
    assert(n * one <= one * top) by (nonlinear_arith)
        requires
            n <= top,
    ;
    lemma_ratio_within(false, n * one, 1, k);
}

pub proof fn lemma_literal_within(n: nat, d: nat, k: nat)
    requires
        d > 0,
        n <= d * pow2(k),
        k <= 1000,
    ensures
        Datum::literal(n, d).within(k),
{
    reveal(Datum::literal);
    lemma_pow2_adds(1074, k);
    let one = binary64::one();
    let top = pow2(k);
    assert(n * one <= (one * top) * d) by (nonlinear_arith)
        requires
            n <= d * top,
    ;
    lemma_ratio_within(false, n * one, d, k);
}

pub proof fn lemma_times_within(a: Datum, i: nat, b: Datum, j: nat)
    requires
        a.within(i),
        b.within(j),
        i + j <= 1000,
    ensures
        a.times(b).within(i + j),
{
    reveal(Datum::times);
    let x = a->mag;
    let y = b->mag;
    let one = binary64::one();
    let p = pow2(1074 + i);
    let q = pow2(1074 + j);
    lemma_pow2_pos(1074);
    lemma_pow2_adds(1074 + i, 1074 + j);
    lemma_pow2_adds(1074 + i + j, 1074);
    assert(x * y <= p * q) by (nonlinear_arith)
        requires
            x <= p,
            y <= q,
    ;
    if x == 0 || y == 0 {
        assert(x * y == 0) by (nonlinear_arith)
            requires
                x == 0 || y == 0,
        ;
    }
    lemma_ratio_within(a->Finite_neg != b->Finite_neg, x * y, one, i + j);
}

/// A quotient by one or more is no more.
pub proof fn lemma_over_within(a: Datum, i: nat, b: Datum)
    requires
        a.within(i),
        i <= 1000,
        b is Finite,
        Datum::of_nat(1).at_most(b),
    ensures
        a.over(b).within(i),
{
    reveal(Datum::over);
    binary64::lemma_of_nat_exact(1);
    lemma_pow2_pos(1074);
    let x = a->mag;
    let y = b->mag;
    let one = binary64::one();
    let p = pow2(1074 + i);
    assert(x * one <= p * y) by (nonlinear_arith)
        requires
            x <= p,
            one <= y,
    ;
    if x == 0 {
        assert(x * one == 0) by (nonlinear_arith)
            requires
                x == 0,
        ;
    }
    lemma_ratio_within(a->Finite_neg != b->Finite_neg, x * one, y, i);
}

pub proof fn lemma_plus_within(a: Datum, b: Datum, k: nat)
    requires
        a.within(k),
        b.within(k),
        k < 1000,
    ensures
        a.plus(b).within(k + 1),
{
    reveal(Datum::minus);
    lemma_pow2_unfold(1074 + k + 1);
    let sum = (a.units() + b.units()) as nat;
    if sum > 0 {
        lemma_ratio_within(false, sum, 1, k + 1);
    } else {
        lemma_pow2_pos(1074 + k + 1);
    }
}

/// Decimals keep their order.
pub proof fn lemma_literal_monotone(n: nat, d: nat, m: nat, e: nat)
    requires
        d > 0,
        e > 0,
        n * e <= m * d,
    ensures
        Datum::literal(n, d).at_most(Datum::literal(m, e)),
{
    reveal(Datum::literal);
    let one = binary64::one();
    assert((n * one) * e <= (m * one) * d) by (nonlinear_arith)
        requires
            n * e <= m * d,
    ;
    rounding::lemma_rounded_monotone(n * one, d, m * one, e);
}

/// A decimal over one is an integer.
pub proof fn lemma_literal_whole(n: nat)
    ensures
        Datum::literal(n, 1) == Datum::of_nat(n),
{
    reveal(Datum::literal);
    reveal(Datum::of_nat);
}

pub proof fn lemma_times_commutes(a: Datum, b: Datum)
    ensures
        a.times(b) == b.times(a),
{
    reveal(Datum::times);
    if a is Finite && b is Finite {
        let x = a->mag;
        let y = b->mag;
        assert(x * y == y * x) by (nonlinear_arith);
    }
}

/// A number times one is the number.
pub proof fn lemma_times_one(a: Datum)
    requires
        a is Finite,
        a.representable(),
    ensures
        a.times(Datum::of_nat(1)) == a,
{
    reveal(Datum::times);
    binary64::lemma_of_nat_exact(1);
    let one = binary64::one();
    let x = a->mag;
    lemma_pow2_pos(1074);
    rounding::lemma_rounded_scaled(x, 1, one);
    assert(x * (1 * one) == x * one) by (nonlinear_arith);
    assert(1 * one == one);
}

/// A positive number times one or more stays positive.
pub proof fn lemma_times_positive(a: Datum, b: Datum)
    requires
        a.is_positive(),
        a.representable(),
        b is Finite,
        Datum::of_nat(1).at_most(b),
        a.times(b) is Finite,
    ensures
        a.times(b).is_positive(),
{
    binary64::lemma_of_nat_exact(1);
    lemma_pow2_pos(1074);
    lemma_times_monotone(a, Datum::of_nat(1), b);
    lemma_times_one(a);
}

/// What is not negative is no more when divided by more.
pub proof fn lemma_over_larger(a: Datum, b: Datum, c: Datum)
    requires
        Datum::zero().at_most(a),
        b.is_positive(),
        c.is_positive(),
        b.at_most(c),
    ensures
        a.over(c).at_most(a.over(b)),
{
    if a.is_positive() {
        lemma_over_antitone(a, b, c);
    } else if a is Finite {
        reveal(Datum::over);
        let one = binary64::one();
        assert(0 * one == 0);
        rounding::lemma_nearest(0, b->mag, 0, 0);
        rounding::lemma_nearest(0, c->mag, 0, 0);
        lemma_pow2_pos(2098);
    } else {
        reveal(Datum::over);
    }
}

/// What 64 bits hold is a number of the format.
pub proof fn law_numbers_are_representable(x: F64)
    ensures
        x@.representable(),
{
    let body = x.bits % 0x8000_0000_0000_0000;
    let field = body / 0x10_0000_0000_0000;
    let frac = body % 0x10_0000_0000_0000;
    lemma2_to64();
    lemma2_to64_rest();
    if field == 0 {
        lemma_pow2_strictly_increases(53, 2098);
        rounding::lemma_nearest(frac as nat, 1, frac as nat, 0);
    } else if field < 2047 {
        let m = (0x10_0000_0000_0000 + frac) as nat;
        let k = (field - 1) as nat;
        let p = pow2(k);
        assert(m * p == m * (p * 1));
        rounding::lemma_rounded_exact(m * p, 1, m, k);
        lemma_pow2_adds(53, 2045);
        lemma_pow2_pos(k);
        if k < 2045 {
            lemma_pow2_strictly_increases(k, 2045);
        }
        let q = pow2(2045);
        assert(m * p < 0x20_0000_0000_0000 * q) by (nonlinear_arith)
            requires
                m < 0x20_0000_0000_0000,
                0 < p <= q,
        ;
    }
}

/// A quotient of numbers of the format reaches one exactly where the dividend is not
/// below the divisor: rounding lifts no smaller dividend over that bound.
pub proof fn lemma_quotient_reaches_one(a: Datum, b: Datum)
    requires
        !(a is Nan),
        a.representable(),
        b.representable(),
        b.is_positive(),
    ensures
        a.over(b).floor_i64() >= 1 <==> !a.less(b),
{
    reveal(Datum::over);
    reveal(Datum::less);
    reveal(Datum::floor_i64);
    let one = binary64::one();
    lemma_pow2_pos(1074);
    lemma_pow2_pos(2098);
    if a is Finite {
        let x = a->mag;
        let y = b->mag;
        let v = rounding::rounded(x * one, y);
        if x < y {
            rounding::lemma_gap(x, y);
            let top = 0x1F_FFFF_FFFF_FFFFnat;
            let p = pow2(1021);
            lemma_pow2_adds(53, 1021);
            lemma2_to64();
            lemma2_to64_rest();
            lemma_pow2_pos(1021);
            assert((x * one) * 1 <= (top * p) * y) by (nonlinear_arith)
                requires
                    one == 0x20_0000_0000_0000 * p,
                    top == 0x1F_FFFF_FFFF_FFFF,
                    (y - x) * 0x20_0000_0000_0000 >= y,
            ;
            rounding::lemma_rounded_monotone(x * one, y, top * p, 1);
            assert(top * p == top * (pow2(1021) * 1));
            rounding::lemma_rounded_exact(top * p, 1, top, 1021);
            assert(top * p < one) by (nonlinear_arith)
                requires
                    one == 0x20_0000_0000_0000 * p,
                    top == 0x1F_FFFF_FFFF_FFFF,
                    p > 0,
            ;
            assert(v < one);
        } else {
            assert(one * y <= (x * one) * 1) by (nonlinear_arith)
                requires
                    y <= x,
            ;
            rounding::lemma_rounded_monotone(one, 1, x * one, y);
            assert(one == 1 * (pow2(1074) * 1));
            rounding::lemma_rounded_exact(one, 1, 1, 1074);
            assert(v >= one);
        }
        let q = a.over(b);
        let unit = one as int;
        assert(!b->Finite_neg);
        assert(q == Datum::bounded(a->Finite_neg, v));
        if a->Finite_neg {
            lemma_div_is_ordered(-(v as int), 0, unit);
            lemma_basic_div(0, unit);
            assert(a.less(b));
            assert(q.floor_i64() < 1);
        } else if x < y {
            lemma_basic_div(v as int, unit);
            lemma_pow2_strictly_increases(1074, 2098);
            assert(q.units() / unit == 0);
            assert(q.floor_i64() < 1);
        } else {
            lemma_div_is_ordered(unit, v as int, unit);
            lemma_div_by_self(unit);
            if v < binary64::beyond() {
                assert(q.units() / unit >= 1);
            }
            assert(q.floor_i64() >= 1);
        }
    }
}

/// A quotient is a number of the format.
pub proof fn lemma_over_representable(a: Datum, b: Datum)
    ensures
        a.over(b).representable(),
{
    reveal(Datum::over);
    lemma_pow2_pos(2098);
    rounding::lemma_nearest(0, 1, 0, 0);
    if a is Finite && b is Finite && b->mag != 0 {
        lemma_of_ratio_representable(
            a->Finite_neg != b->Finite_neg,
            a->mag * binary64::one(),
            b->mag,
        );
    }
}

} // verus!
