//! Laws of the arithmetic: each operation gives the number of the format nearest to the
//! exact result, and integers are cut off where they should be.

use crate::binary64;
use crate::binary64::Datum;
use crate::rounding;
use vstd::arithmetic::div_mod::*;
use vstd::arithmetic::power2::*;
use vstd::prelude::*;

verus! {

/// The absolute value.
pub open spec fn size(x: int) -> int {
    if x < 0 {
        -x
    } else {
        x
    }
}

/// A rounded ratio is nearest among numbers of either sign.
proof fn lemma_signed_nearest(neg: bool, n: nat, d: nat, w: Datum)
    requires
        d > 0,
        w is Finite,
        w.representable(),
        Datum::of_ratio(neg, n, d) is Finite,
    ensures
        ({
            let exact = if neg {
                -(n as int)
            } else {
                n as int
            };
            size(Datum::of_ratio(neg, n, d).units() * d - exact) <= size(w.units() * d - exact)
        }),
{
    let v = rounding::rounded(n, d);
    let exact = if neg {
        -(n as int)
    } else {
        n as int
    };
    let m = w->mag;
    let r = Datum::of_ratio(neg, n, d);
    rounding::law_rounding_is_to_nearest(n, d, m);
    rounding::lemma_nearest(0, 1, 0, 0);
    rounding::law_rounding_is_to_nearest(n, d, 0);
    assert(0 * d == 0);
    assert((-(v as int)) * d == -(v * d) && (-(m as int)) * d == -(m * d)) by (nonlinear_arith);
    assert(m * d >= 0) by (nonlinear_arith);
    assert(size(r.units() * d - exact) == rounding::distance(v, n, d));
    if w->Finite_neg == neg {
        assert(size(w.units() * d - exact) == rounding::distance(m, n, d));
    } else {
        assert(size(w.units() * d - exact) == m * d + n);
        assert(rounding::distance(0, n, d) == n);
    }
}

/// No number of the format is nearer to the exact difference than the difference, and
/// none nearer to the exact sum than the sum.
pub proof fn law_sums_and_differences_are_nearest(a: Datum, b: Datum, w: Datum)
    requires
        a is Finite,
        b is Finite,
        w is Finite,
        w.representable(),
    ensures
        a.minus(b) is Finite ==> size(a.minus(b).units() - (a.units() - b.units())) <= size(
            w.units() - (a.units() - b.units()),
        ),
        a.plus(b) is Finite ==> size(a.plus(b).units() - (a.units() + b.units())) <= size(
            w.units() - (a.units() + b.units()),
        ),
{
    lemma_difference_nearest(a, b, w);
    lemma_difference_nearest(a, b.negated(), w);
}

proof fn lemma_difference_nearest(a: Datum, b: Datum, w: Datum)
    requires
        a is Finite,
        b is Finite,
        w is Finite,
        w.representable(),
    ensures
        a.minus(b) is Finite ==> size(a.minus(b).units() - (a.units() - b.units())) <= size(
            w.units() - (a.units() - b.units()),
        ),
{
    reveal(Datum::minus);
    let x = a.units() - b.units();
    if a.minus(b) is Finite && x != 0 {
        lemma_signed_nearest(x < 0, size(x) as nat, 1, w);
    }
}

/// No number of the format is nearer to the exact product than the product.
pub proof fn law_products_are_nearest(a: Datum, b: Datum, w: Datum)
    requires
        a is Finite,
        b is Finite,
        a.times(b) is Finite,
        w is Finite,
        w.representable(),
    ensures
        size(a.times(b).units() * binary64::one() - a.units() * b.units()) <= size(
            w.units() * binary64::one() - a.units() * b.units(),
        ),
{
    reveal(Datum::times);
    lemma_pow2_pos(1074);
    let x = a->mag as int;
    let y = b->mag as int;
    assert((-x) * y == -(x * y) && x * (-y) == -(x * y) && (-x) * (-y) == x * y)
        by (nonlinear_arith);
    lemma_signed_nearest(
        a->Finite_neg != b->Finite_neg,
        a->mag * b->mag,
        binary64::one(),
        w,
    );
}

/// No number of the format is nearer to the exact quotient than the quotient.
pub proof fn law_quotients_are_nearest(a: Datum, b: Datum, w: Datum)
    requires
        a is Finite,
        b.is_positive(),
        a.over(b) is Finite,
        w is Finite,
        w.representable(),
    ensures
        size(a.over(b).units() * b.units() - a.units() * binary64::one()) <= size(
            w.units() * b.units() - a.units() * binary64::one(),
        ),
{
    reveal(Datum::over);
    let x = a->mag as int;
    let one = binary64::one() as int;
    assert((-x) * one == -(x * one)) by (nonlinear_arith);
    lemma_signed_nearest(a->Finite_neg, a->mag * binary64::one(), b->mag, w);
}

/// Whole parts: the floor does not exceed the number, the next integer does; truncation
/// is the floor of what is not negative; rounding is off by a half at most. Numbers beyond
/// the integer types stop at their ends.
pub proof fn law_whole_parts(a: Datum)
    requires
        a is Finite,
    ensures
        ({
            let one = binary64::one();
            let x = a.units();
            &&& i64::MIN < a.floor_i64() < i64::MAX ==> a.floor_i64() * one <= x < (a.floor_i64()
                + 1) * one
            &&& a.floor_i64() == i64::MAX ==> x >= i64::MAX * one
            &&& a.floor_i64() == i64::MIN ==> x < (i64::MIN + 1) * one
            &&& x >= 0 && a.trunc_u64() < u64::MAX ==> a.trunc_u64() * one <= x < (a.trunc_u64()
                + 1) * one
            &&& x >= 0 && a.trunc_u64() == u64::MAX ==> x >= u64::MAX * one
            &&& x >= 0 && a.round_u64() < u64::MAX ==> 2 * size(a.round_u64() * one - x) <= one
            &&& x < 0 ==> a.trunc_u64() == 0 && a.round_u64() == 0
        }),
{
    reveal(Datum::floor_i64);
    reveal(Datum::trunc_u64);
    reveal(Datum::round_u64);
    let one = binary64::one() as int;
    let x = a.units();
    let mag = a->mag as int;
    lemma_pow2_pos(1074);
    lemma_fundamental_div_mod(x, one);
    lemma_mod_bound(x, one);
    let q = x / one;
    assert(one * q == q * one && (q + 1) * one == one * q + one) by (nonlinear_arith);
    if q > i64::MAX {
        assert(q * one >= i64::MAX * one) by (nonlinear_arith)
            requires
                q >= i64::MAX,
                one > 0,
        ;
    }
    if q < i64::MIN {
        assert((q + 1) * one <= (i64::MIN + 1) * one) by (nonlinear_arith)
            requires
                q <= i64::MIN,
                one > 0,
        ;
    }
    lemma_fundamental_div_mod(mag, one);
    lemma_mod_bound(mag, one);
    let t = mag / one;
    assert(one * t == t * one && (t + 1) * one == one * t + one) by (nonlinear_arith);
    if t > u64::MAX {
        assert(t * one >= u64::MAX * one) by (nonlinear_arith)
            requires
                t >= u64::MAX,
                one > 0,
        ;
    }
    let r = (2 * mag + one) / (2 * one);
    lemma_fundamental_div_mod(2 * mag + one, 2 * one);
    lemma_mod_bound(2 * mag + one, 2 * one);
    assert((2 * one) * r == 2 * (r * one)) by (nonlinear_arith);
    if mag == 0 {
        lemma_basic_div(0, one);
        lemma_basic_div(one, 2 * one);
    }
}

/// Comparison is that of the numbers; nothing compares with NaN.
pub proof fn law_comparison_is_exact(a: Datum, b: Datum)
    ensures
        a is Finite && b is Finite ==> (a.less(b) <==> a.units() < b.units()),
        a is Nan || b is Nan ==> !a.less(b),
        a.less(b) ==> !b.less(a),
{
    reveal(Datum::less);
}

} // verus!
