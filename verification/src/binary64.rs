//! IEEE 754 binary64 arithmetic on the bits, with contracts over exact numbers.
//!
//! The verifier has no theory of machine floating point, so the sizing model does
//! its fractional arithmetic here. A number is held by the same 64 bits as a
//! machine double, and every operation returns the bits that the machine operation
//! would return (round to nearest, ties to even); all NaNs count as one.

use crate::rounding;
use crate::rounding::{Rest, TWO_52, TWO_53};
use vstd::arithmetic::div_mod::*;
use vstd::arithmetic::power2::*;
use vstd::prelude::*;

verus! {

/// What a binary64 number stands for. Finite magnitudes are counted in units of
/// 2^-1074, the smallest positive number of the format, so they are integers.
pub enum Datum {
    Nan,
    Infinite { neg: bool },
    Finite { neg: bool, mag: nat },
}

/// How many units make the number one.
pub open spec fn one() -> nat {
    pow2(1074)
}

/// The first magnitude beyond the format: 2^1024, in units.
pub open spec fn beyond() -> nat {
    pow2(2098)
}

impl Datum {
    /// The number with this sign and magnitude, or infinity beyond the format.
    pub open spec fn bounded(neg: bool, mag: nat) -> Datum {
        if mag >= beyond() {
            Datum::Infinite { neg }
        } else {
            Datum::Finite { neg, mag }
        }
    }

    /// The number nearest to a magnitude of `n / d` units.
    pub open spec fn of_ratio(neg: bool, n: nat, d: nat) -> Datum {
        Datum::bounded(neg, rounding::rounded(n, d))
    }

    /// The number nearest to an integer.
    #[verifier::opaque]
    pub open spec fn of_nat(n: nat) -> Datum {
        Datum::of_ratio(false, n * one(), 1)
    }

    /// The number that a decimal literal `n / d` denotes.
    #[verifier::opaque]
    pub open spec fn literal(n: nat, d: nat) -> Datum {
        Datum::of_ratio(false, n * one(), d)
    }

    pub open spec fn is_finite(self) -> bool {
        self is Finite
    }

    /// The value in units, with its sign; of a finite number.
    pub open spec fn units(self) -> int {
        if self->Finite_neg {
            -(self->mag as int)
        } else {
            self->mag as int
        }
    }

    #[verifier::opaque]
    pub open spec fn times(self, other: Datum) -> Datum {
        match (self, other) {
            (Datum::Nan, _) => Datum::Nan,
            (_, Datum::Nan) => Datum::Nan,
            (Datum::Infinite { neg: a }, Datum::Infinite { neg: b }) => Datum::Infinite {
                neg: a != b,
            },
            (Datum::Infinite { neg: a }, Datum::Finite { neg: b, mag }) => if mag == 0 {
                Datum::Nan
            } else {
                Datum::Infinite { neg: a != b }
            },
            (Datum::Finite { neg: a, mag }, Datum::Infinite { neg: b }) => if mag == 0 {
                Datum::Nan
            } else {
                Datum::Infinite { neg: a != b }
            },
            (Datum::Finite { neg: a, mag: x }, Datum::Finite { neg: b, mag: y }) => Datum::of_ratio(
                a != b,
                x * y,
                one(),
            ),
        }
    }

    #[verifier::opaque]
    pub open spec fn over(self, other: Datum) -> Datum {
        match (self, other) {
            (Datum::Nan, _) => Datum::Nan,
            (_, Datum::Nan) => Datum::Nan,
            (Datum::Infinite { .. }, Datum::Infinite { .. }) => Datum::Nan,
            (Datum::Infinite { neg: a }, Datum::Finite { neg: b, .. }) => Datum::Infinite {
                neg: a != b,
            },
            (Datum::Finite { neg: a, .. }, Datum::Infinite { neg: b }) => Datum::Finite {
                neg: a != b,
                mag: 0,
            },
            (Datum::Finite { neg: a, mag: x }, Datum::Finite { neg: b, mag: y }) => if y != 0 {
                Datum::of_ratio(a != b, x * one(), y)
            } else if x != 0 {
                Datum::Infinite { neg: a != b }
            } else {
                Datum::Nan
            },
        }
    }

    #[verifier::opaque]
    pub open spec fn minus(self, other: Datum) -> Datum {
        match (self, other) {
            (Datum::Nan, _) => Datum::Nan,
            (_, Datum::Nan) => Datum::Nan,
            (Datum::Infinite { neg: a }, Datum::Infinite { neg: b }) => if a != b {
                Datum::Infinite { neg: a }
            } else {
                Datum::Nan
            },
            (Datum::Infinite { neg: a }, Datum::Finite { .. }) => Datum::Infinite { neg: a },
            (Datum::Finite { .. }, Datum::Infinite { neg: b }) => Datum::Infinite { neg: !b },
            (Datum::Finite { neg: a, .. }, Datum::Finite { neg: b, .. }) => {
                let diff = self.units() - other.units();
                if diff == 0 {
                    Datum::Finite { neg: a && !b, mag: 0 }
                } else if diff > 0 {
                    Datum::of_ratio(false, diff as nat, 1)
                } else {
                    Datum::of_ratio(true, (-diff) as nat, 1)
                }
            },
        }
    }

    pub open spec fn negated(self) -> Datum {
        match self {
            Datum::Nan => Datum::Nan,
            Datum::Infinite { neg } => Datum::Infinite { neg: !neg },
            Datum::Finite { neg, mag } => Datum::Finite { neg: !neg, mag },
        }
    }

    /// A sum is the difference from the negated number.
    pub open spec fn plus(self, other: Datum) -> Datum {
        self.minus(other.negated())
    }

    #[verifier::opaque]
    pub open spec fn less(self, other: Datum) -> bool {
        match (self, other) {
            (Datum::Nan, _) => false,
            (_, Datum::Nan) => false,
            (Datum::Infinite { neg: a }, Datum::Infinite { neg: b }) => a && !b,
            (Datum::Infinite { neg: a }, Datum::Finite { .. }) => a,
            (Datum::Finite { .. }, Datum::Infinite { neg: b }) => !b,
            (Datum::Finite { .. }, Datum::Finite { .. }) => self.units() < other.units(),
        }
    }

    /// The largest integer not above the number, held to the range of `i64`; NaN
    /// gives 0.
    #[verifier::opaque]
    pub open spec fn floor_i64(self) -> i64 {
        match self {
            Datum::Nan => 0,
            Datum::Infinite { neg } => if neg {
                i64::MIN
            } else {
                i64::MAX
            },
            Datum::Finite { .. } => {
                let q = self.units() / (one() as int);
                if q < i64::MIN {
                    i64::MIN
                } else if q > i64::MAX {
                    i64::MAX
                } else {
                    q as i64
                }
            },
        }
    }

    /// The nearest integer, halves away from zero, held to the range of `u64`; NaN
    /// gives 0.
    #[verifier::opaque]
    pub open spec fn round_u64(self) -> u64 {
        match self {
            Datum::Nan => 0,
            Datum::Infinite { neg } => if neg {
                0
            } else {
                u64::MAX
            },
            Datum::Finite { neg, mag } => {
                let q = (2 * mag + one()) / (2 * one());
                if neg {
                    0
                } else if q > u64::MAX {
                    u64::MAX
                } else {
                    q as u64
                }
            },
        }
    }

    /// The integer part, held to the range of `u64`; NaN gives 0.
    #[verifier::opaque]
    pub open spec fn trunc_u64(self) -> u64 {
        match self {
            Datum::Nan => 0,
            Datum::Infinite { neg } => if neg {
                0
            } else {
                u64::MAX
            },
            Datum::Finite { neg, mag } => {
                let q = mag / one();
                if neg {
                    0
                } else if q > u64::MAX {
                    u64::MAX
                } else {
                    q as u64
                }
            },
        }
    }
}

const SIGN: u64 = 0x8000_0000_0000_0000;

const INFINITY: u64 = 0x7FF0_0000_0000_0000;

/// A binary64 number: the 64 bits of a machine double.
#[derive(Clone, Copy, Debug)]
pub struct F64 {
    pub bits: u64,
}

impl View for F64 {
    type V = Datum;

    open spec fn view(&self) -> Datum {
        let neg = self.bits >= 0x8000_0000_0000_0000;
        let body = self.bits % 0x8000_0000_0000_0000;
        let field = body / 0x10_0000_0000_0000;
        let frac = body % 0x10_0000_0000_0000;
        if field == 2047 {
            if frac == 0 {
                Datum::Infinite { neg }
            } else {
                Datum::Nan
            }
        } else if field == 0 {
            Datum::Finite { neg, mag: frac as nat }
        } else {
            Datum::Finite {
                neg,
                mag: (0x10_0000_0000_0000 + frac) as nat * pow2((field - 1) as nat),
            }
        }
    }
}

/// A number taken apart: a finite one is `mant * 2^exp` units.
pub(crate) enum Parts {
    Nan,
    Infinite { neg: bool },
    Finite { neg: bool, mant: u64, exp: u32 },
}

/// What `round_pack` is told of a ratio: `n / d` is `m` steps of `2^e / 2^2048`,
/// and the rest.
spec fn brackets(n: nat, d: nat, m: nat, e: nat, rest: Rest) -> bool {
    rounding::within(n * pow2(2048), m, pow2(e) * d, rest)
}

/// What the last step of `round_pack` rests on.
proof fn lemma_settle(n: nat, d: nat, m: nat, e: nat, rest: Rest)
    requires
        d > 0,
        e >= 2048,
        m < TWO_53,
        rest != Rest::Something,
        brackets(n, d, m, e, rest),
        rest == Rest::Nothing || e == 2048 || m >= TWO_52,
    ensures
        rounding::rounded(n, d) == (if rest.lifts(m % 2 == 1) {
            m + 1
        } else {
            m
        }) * pow2((e - 2048) as nat),
{
    let k = (e - 2048) as nat;
    let big = pow2(2048);
    lemma_pow2_pos(2048);
    lemma_pow2_adds(k, 2048);
    let q = pow2(k) * d;
    assert(pow2(e) * d == q * big) by (nonlinear_arith)
        requires
            pow2(e) == pow2(k) * big,
            q == pow2(k) * d,
    ;
    let left = n - m * q;
    assert(n * big - m * (q * big) == left * big) by (nonlinear_arith)
        requires
            left == n - m * q,
    ;
    assert(2 * (left * big) == (2 * left) * big) by (nonlinear_arith);
    assert(0 <= left < q) by (nonlinear_arith)
        requires
            0 <= left * big < q * big,
            big > 0,
    ;
    if rest == Rest::Nothing {
        assert(left == 0) by (nonlinear_arith)
            requires
                left * big == 0,
                big > 0,
        ;
        rounding::lemma_rounded_exact(n, d, m, k);
    } else {
        assert(left > 0) by (nonlinear_arith)
            requires
                left * big > 0,
                big > 0,
        ;
        if rest == Rest::BelowHalf {
            assert(2 * left < q) by (nonlinear_arith)
                requires
                    (2 * left) * big < q * big,
                    big > 0,
            ;
        } else if rest == Rest::Half {
            assert(2 * left == q) by (nonlinear_arith)
                requires
                    (2 * left) * big == q * big,
                    big > 0,
            ;
        } else {
            assert(2 * left > q) by (nonlinear_arith)
                requires
                    (2 * left) * big > q * big,
                    big > 0,
            ;
        }
        rounding::lemma_within_nearest(n, m, q, rest);
        assert(n < TWO_53 * q) by (nonlinear_arith)
            requires
                n < m * q + q,
                m + 1 <= TWO_53,
                q > 0,
        ;
        if k > 0 {
            assert(TWO_52 * q <= n) by (nonlinear_arith)
                requires
                    m * q <= n,
                    TWO_52 <= m,
                    q > 0,
            ;
        }
        rounding::lemma_rounded_at(n, d, k);
    }
}

proof fn lemma_zero_mant(m: nat, e: nat)
    ensures
        m * pow2(e) == 0 <==> m == 0,
{
    lemma_pow2_pos(e);
    assert(m * pow2(e) == 0 <==> m == 0) by (nonlinear_arith)
        requires
            pow2(e) > 0,
    ;
}

proof fn lemma_mul_brackets(m1: nat, e1: nat, m2: nat, e2: nat)
    ensures
        ({
            let n = (m1 * pow2(e1)) * (m2 * pow2(e2));
            let e = e1 + e2 + 974;
            brackets(n, one(), m1 * m2, e, Rest::Nothing)
        }),
        one() > 0,
{
    let n = (m1 * pow2(e1)) * (m2 * pow2(e2));
    let m = m1 * m2;
    let e = e1 + e2 + 974;
    lemma_pow2_adds(e1, e2);
    lemma_pow2_adds(e1 + e2, 2048);
    lemma_pow2_adds(e, 1074);
    lemma_pow2_pos(e + 1074);
    lemma_pow2_pos(1074);
    let step = pow2(e) * one();
    assert(m * step == n * pow2(2048)) by (nonlinear_arith)
        requires
            m == m1 * m2,
            n == (m1 * pow2(e1)) * (m2 * pow2(e2)),
            step == (pow2(e1) * pow2(e2)) * pow2(2048),
    ;
}

proof fn lemma_div_brackets(m1: nat, e1: nat, m2: nat, e2: nat, s: nat, q: nat, rest: nat)
    requires
        m2 > 0,
        e1 + 3122 >= s + e2,
        m1 * pow2(s) == q * m2 + rest,
        rest < m2,
    ensures
        ({
            let n = (m1 * pow2(e1)) * one();
            let d = m2 * pow2(e2);
            let e = (e1 + 3122 - s - e2) as nat;
            brackets(n, d, q, e, if rest != 0 { Rest::Something } else { Rest::Nothing })
        }),
{
    let n = (m1 * pow2(e1)) * one();
    let d = m2 * pow2(e2);
    let e = (e1 + 3122 - s - e2) as nat;
    let step = pow2(e) * d;
    let w = pow2(e) * pow2(e2);
    lemma_pow2_pos(e);
    lemma_pow2_pos(e2);
    assert(w > 0) by (nonlinear_arith)
        requires
            w == pow2(e) * pow2(e2),
            pow2(e) > 0,
            pow2(e2) > 0,
    ;
    lemma_pow2_adds(e, e2);
    lemma_pow2_adds(s, e + e2);
    lemma_pow2_adds(e1, 1074);
    lemma_pow2_adds(e1 + 1074, 2048);
    assert(s + (e + e2) == e1 + 1074 + 2048);
    let total = n * pow2(2048);
    assert(total == (m1 * pow2(s)) * w) by (nonlinear_arith)
        requires
            total == ((m1 * pow2(e1)) * one()) * pow2(2048),
            pow2(s) * w == (pow2(e1) * one()) * pow2(2048),
    ;
    assert(step == m2 * w) by (nonlinear_arith)
        requires
            step == pow2(e) * (m2 * pow2(e2)),
            w == pow2(e) * pow2(e2),
    ;
    assert(total == q * step + rest * w) by (nonlinear_arith)
        requires
            total == (q * m2 + rest) * w,
            step == m2 * w,
    ;
    assert(0 <= rest * w < step) by (nonlinear_arith)
        requires
            step == m2 * w,
            rest < m2,
            w > 0,
    ;
    if rest > 0 {
        assert(rest * w > 0) by (nonlinear_arith)
            requires
                rest > 0,
                w > 0,
        ;
    } else {
        assert(rest * w == 0) by (nonlinear_arith)
            requires
                rest == 0,
        ;
    }
}

/// Integers below 2^53 are numbers of the format.
pub proof fn lemma_of_nat_exact(n: nat)
    requires
        n < TWO_53,
    ensures
        Datum::of_nat(n) == (Datum::Finite { neg: false, mag: n * one() }),
{
    reveal(Datum::of_nat);
    assert(n * one() == n * (pow2(1074) * 1));
    rounding::lemma_rounded_exact(n * one(), 1, n, 1074);
    lemma_pow2_adds(1074, 53);
    lemma_pow2_strictly_increases(1127, 2098);
    lemma2_to64();
    lemma2_to64_rest();
    lemma_pow2_pos(1074);
    assert(n * one() < one() * pow2(53)) by (nonlinear_arith)
        requires
            n < pow2(53),
            one() > 0,
    ;
}

/// Integers of 64 bits are within the format.
pub proof fn lemma_of_nat_finite(n: nat)
    requires
        n <= u64::MAX,
    ensures
        Datum::of_nat(n).is_finite(),
{
    reveal(Datum::of_nat);
    let top = 0x1_0000_0000_0000_0000nat;
    lemma_pow2_pos(1074);
    lemma2_to64();
    lemma2_to64_rest();
    assert((n * one()) * 1 <= (top * one()) * 1) by (nonlinear_arith)
        requires
            n <= top,
            one() > 0,
    ;
    rounding::lemma_rounded_monotone(n * one(), 1, top * one(), 1);
    lemma_pow2_adds(64, 1074);
    assert(top * one() == 1 * (pow2(1138) * 1)) by (nonlinear_arith)
        requires
            pow2(1138) == top * one(),
    ;
    rounding::lemma_rounded_exact(top * one(), 1, 1, 1138);
    lemma_pow2_strictly_increases(1138, 2098);
}

proof fn lemma_whole_brackets(n: nat, m: nat, e: nat)
    requires
        m * pow2(e) <= n < m * pow2(e) + pow2(e),
    ensures
        brackets(
            n,
            1,
            m,
            e + 2048,
            if n != m * pow2(e) {
                Rest::Something
            } else {
                Rest::Nothing
            },
        ),
{
    let big = pow2(2048);
    let w = pow2(e);
    lemma_pow2_adds(e, 2048);
    lemma_pow2_pos(2048);
    let step = pow2(e + 2048) * 1;
    assert(m * step == (m * w) * big) by (nonlinear_arith)
        requires
            step == w * big,
    ;
    assert((m * w + w) * big == (m * w) * big + w * big) by (nonlinear_arith);
    assert((m * w) * big <= n * big) by (nonlinear_arith)
        requires
            m * w <= n,
    ;
    assert(n * big < (m * w + w) * big) by (nonlinear_arith)
        requires
            n < m * w + w,
            big > 0,
    ;
    if n != m * w {
        assert((m * w) * big < n * big) by (nonlinear_arith)
            requires
                m * w < n,
                big > 0,
        ;
    }
}

/// Significands and exponents of the format order magnitudes, exponent first.
proof fn lemma_ordered(m1: nat, e1: nat, m2: nat, e2: nat)
    requires
        m1 < TWO_53,
        m2 < TWO_53,
        e1 == 0 || m1 >= TWO_52,
        e2 == 0 || m2 >= TWO_52,
        e1 < e2 || (e1 == e2 && m1 < m2),
    ensures
        m1 * pow2(e1) < m2 * pow2(e2),
{
    lemma_pow2_pos(e1);
    if e1 == e2 {
        assert(m1 * pow2(e1) < m2 * pow2(e1)) by (nonlinear_arith)
            requires
                m1 < m2,
                pow2(e1) > 0,
        ;
    } else {
        lemma_pow2_unfold(e1 + 1);
        if e1 + 1 < e2 {
            lemma_pow2_strictly_increases(e1 + 1, e2);
        }
        assert(m1 * pow2(e1) < m2 * pow2(e2)) by (nonlinear_arith)
            requires
                m1 < TWO_53,
                m2 >= TWO_52,
                TWO_53 == 2 * TWO_52,
                pow2(e2) >= 2 * pow2(e1),
                pow2(e1) > 0,
        ;
    }
}

/// No magnitude has two forms.
proof fn lemma_canonical(m1: nat, e1: nat, m2: nat, e2: nat)
    requires
        m1 < TWO_53,
        m2 < TWO_53,
        e1 == 0 || m1 >= TWO_52,
        e2 == 0 || m2 >= TWO_52,
        m1 * pow2(e1) == m2 * pow2(e2),
    ensures
        m1 == m2,
        e1 == e2,
{
    if e1 < e2 || (e1 == e2 && m1 < m2) {
        lemma_ordered(m1, e1, m2, e2);
    } else if e2 < e1 || (e1 == e2 && m2 < m1) {
        lemma_ordered(m2, e2, m1, e1);
    }
}

proof fn lemma_floor_negative(mag: nat, unit: nat)
    requires
        unit > 0,
    ensures
        -(mag as int) / (unit as int) == -((mag / unit) as int) - (if mag % unit != 0 {
            1int
        } else {
            0
        }),
{
    let q = (mag / unit) as int;
    let r = (mag % unit) as int;
    lemma_fundamental_div_mod(mag as int, unit as int);
    lemma_mod_bound(mag as int, unit as int);
    if r == 0 {
        assert(-(mag as int) == (-q) * unit + 0) by (nonlinear_arith)
            requires
                mag == unit * q + r,
                r == 0,
        ;
        lemma_fundamental_div_mod_converse(-(mag as int), unit as int, -q, 0);
    } else {
        assert(-(mag as int) == (-q - 1) * unit + (unit - r)) by (nonlinear_arith)
            requires
                mag == unit * q + r,
        ;
        lemma_fundamental_div_mod_converse(-(mag as int), unit as int, -q - 1, unit - r);
    }
}

proof fn lemma_half_up(mag: nat, unit: nat)
    requires
        unit > 0,
    ensures
        (2 * mag + unit) / (2 * unit) == mag / unit + (if 2 * (mag % unit) >= unit {
            1nat
        } else {
            0nat
        }),
{
    let q = (mag / unit) as int;
    let r = (mag % unit) as int;
    let up = if 2 * r >= unit {
        1int
    } else {
        0int
    };
    lemma_fundamental_div_mod(mag as int, unit as int);
    lemma_mod_bound(mag as int, unit as int);
    let rest = 2 * r + unit - up * (2 * unit);
    assert(2 * mag + unit == (q + up) * (2 * unit) + rest) by (nonlinear_arith)
        requires
            mag == unit * q + r,
            rest == 2 * r + unit - up * (2 * unit),
    ;
    lemma_fundamental_div_mod_converse((2 * mag + unit) as int, (2 * unit) as int, q + up, rest);
}

impl F64 {
    /// The number that a machine double of these bits holds.
    pub fn from_bits(bits: u64) -> (r: F64)
        ensures
            r.bits == bits,
    {
        F64 { bits }
    }

    /// The bits of the machine double that holds the number.
    pub fn to_bits(self) -> (bits: u64)
        ensures
            bits == self.bits,
    {
        self.bits
    }

    /// Significand and exponent.
    pub(crate) fn parts(self) -> (r: Parts)
        ensures
            match r {
                Parts::Nan => self@ is Nan,
                Parts::Infinite { neg } => self@ == (Datum::Infinite { neg }),
                Parts::Finite { neg, mant, exp } => {
                    &&& self@ == (Datum::Finite { neg, mag: mant as nat * pow2(exp as nat) })
                    &&& mant < TWO_53
                    &&& exp <= 2045
                    &&& exp == 0 || mant >= TWO_52
                },
            },
    {
        let neg = self.bits >= SIGN;
        let body: u64 = self.bits % SIGN;
        let field: u64 = body / TWO_52;
        let frac: u64 = body % TWO_52;
        if field == 2047 {
            if frac == 0 {
                Parts::Infinite { neg }
            } else {
                Parts::Nan
            }
        } else if field == 0 {
            proof {
                lemma2_to64();
                assert(frac as nat * pow2(0) == frac) by (nonlinear_arith)
                    requires
                        pow2(0) == 1,
                ;
            }
            Parts::Finite { neg, mant: frac, exp: 0 }
        } else {
            Parts::Finite { neg, mant: TWO_52 + frac, exp: (field - 1) as u32 }
        }
    }

    /// The number of `mant * 2^exp` units.
    fn pack(neg: bool, mant: u64, exp: u32) -> (r: F64)
        requires
            mant <= TWO_53,
            exp <= 6000,
        ensures
            r@ == Datum::bounded(neg, mant as nat * pow2(exp as nat)),
    {
        let ghost mag = mant as nat * pow2(exp as nat);
        let sign: u64 = if neg {
            SIGN
        } else {
            0
        };
        proof {
            lemma_pow2_pos(2098);
            lemma2_to64();
            lemma2_to64_rest();
        }
        if mant == 0 {
            return F64 { bits: sign };
        }
        let mut m: u64 = mant;
        let mut e: u32 = exp;
        if m == TWO_53 {
            proof {
                lemma_pow2_unfold((e + 1) as nat);
                assert(TWO_53 as nat * pow2(e as nat) == TWO_52 as nat * pow2((e + 1) as nat))
                    by (nonlinear_arith)
                    requires
                        pow2((e + 1) as nat) == 2 * pow2(e as nat),
                        TWO_53 == 2 * TWO_52,
                ;
            }
            m = TWO_52;
            e = e + 1;
        }
        while m < TWO_52 && e > 0
            invariant
                0 < m < TWO_53,
                e <= 6001,
                m as nat * pow2(e as nat) == mag,
            decreases e,
        {
            proof {
                lemma_pow2_unfold(e as nat);
                assert(m as nat * pow2(e as nat) == (2 * m) as nat * pow2((e - 1) as nat))
                    by (nonlinear_arith)
                    requires
                        pow2(e as nat) == 2 * pow2((e - 1) as nat),
                ;
            }
            m = m * 2;
            e = e - 1;
        }
        if m < TWO_52 {
            proof {
                assert(m as nat * pow2(0) == m) by (nonlinear_arith)
                    requires
                        pow2(0) == 1,
                ;
                lemma_pow2_strictly_increases(52, 2098);
            }
            F64 { bits: sign + m }
        } else if e >= 2046 {
            proof {
                lemma_pow2_adds(52, 2046);
                if e > 2046 {
                    lemma_pow2_strictly_increases(2046, e as nat);
                }
                assert(m as nat * pow2(e as nat) >= pow2(52) * pow2(2046)) by (nonlinear_arith)
                    requires
                        m >= pow2(52),
                        pow2(e as nat) >= pow2(2046),
                ;
            }
            F64 { bits: sign + INFINITY }
        } else {
            proof {
                lemma_pow2_adds(53, 2045);
                lemma_pow2_pos(2045);
                if e < 2045 {
                    lemma_pow2_strictly_increases(e as nat, 2045);
                }
                assert(m as nat * pow2(e as nat) < pow2(53) * pow2(2045)) by (nonlinear_arith)
                    requires
                        m < pow2(53),
                        pow2(e as nat) <= pow2(2045),
                        pow2(2045) > 0,
                ;
            }
            let body: u64 = (e as u64 + 1) * TWO_52 + (m - TWO_52);
            proof {
                assert(body < SIGN);
                assert(body / TWO_52 == e + 1 && body % TWO_52 == m - TWO_52) by {
                    lemma_fundamental_div_mod_converse(
                        body as int,
                        TWO_52 as int,
                        e as int + 1,
                        m - TWO_52,
                    );
                }
            }
            F64 { bits: sign + body }
        }
    }

    /// The number nearest to `n / d` units, from the integer `m` that brackets it.
    fn round_pack(
        neg: bool,
        mant: u128,
        exp: u32,
        inexact: bool,
        Ghost(n): Ghost<nat>,
        Ghost(d): Ghost<nat>,
    ) -> (r: F64)
        requires
            d > 0,
            exp <= 5500,
            brackets(
                n,
                d,
                mant as nat,
                exp as nat,
                if inexact {
                    Rest::Something
                } else {
                    Rest::Nothing
                },
            ),
            inexact ==> mant >= TWO_53,
        ensures
            r@ == Datum::of_ratio(neg, n, d),
    {
        let mut m: u128 = mant;
        let mut e: u32 = exp;
        let mut rest = if inexact {
            Rest::Something
        } else {
            Rest::Nothing
        };
        let ghost mut i: nat = 0;
        proof {
            lemma2_to64();
            lemma2_to64_rest();
            lemma_pow2_adds(64, 64);
            assert(0x1_0000_0000_0000_0000 * 0x1_0000_0000_0000_0000
                == 0x1_0000_0000_0000_0000_0000_0000_0000_0000) by (nonlinear_arith);
        }
        while m >= TWO_53 as u128 || e < 2048
            invariant
                d > 0,
                exp <= 5500,
                e == exp + i,
                i <= 128 ==> m < pow2((128 - i) as nat),
                i > 128 ==> m == 0,
                e <= 2048 || i <= 128,
                rest == Rest::Something ==> m >= TWO_53,
                brackets(n, d, m as nat, e as nat, rest),
                rest == Rest::Nothing || e <= 2048 || m >= TWO_52,
            decreases m + (if e < 2048 {
                2048 - e
            } else {
                0
            }),
        {
            proof {
                rounding::lemma_halve(n * pow2(2048), m as nat, pow2(e as nat) * d, rest);
                lemma_pow2_unfold((e + 1) as nat);
                assert(pow2((e + 1) as nat) * d == 2 * (pow2(e as nat) * d)) by (nonlinear_arith)
                    requires
                        pow2((e + 1) as nat) == 2 * pow2(e as nat),
                ;
                if i < 128 {
                    lemma_pow2_unfold((128 - i) as nat);
                } else if i == 128 {
                    lemma2_to64();
                }
                if i == 128 {
                    assert(m == 0);
                }
            }
            rest = rest.halved(m % 2 == 1);
            m = m / 2;
            e = e + 1;
            proof {
                i = i + 1;
            }
        }
        proof {
            lemma_settle(n, d, m as nat, e as nat, rest);
        }
        let q: u64 = if rest.rounds_up(m % 2 == 1) {
            m as u64 + 1
        } else {
            m as u64
        };
        F64::pack(neg, q, e - 2048)
    }

    /// The number nearest to an integer.
    pub fn from_u64(n: u64) -> (r: F64)
        ensures
            r@ == Datum::of_nat(n as nat),
            r@.is_finite(),
    {
        proof {
            reveal(Datum::of_nat);
            lemma_pow2_adds(1074, 2048);
            let step = pow2(3122) * 1;
            let total = (n * one()) as nat * pow2(2048);
            assert(n as nat * step == total) by (nonlinear_arith)
                requires
                    step == pow2(3122),
                    pow2(3122) == one() * pow2(2048),
                    total == (n * one()) as nat * pow2(2048),
            ;
            lemma_pow2_pos(3122);
            assert((n + 1) as nat * step == n as nat * step + step) by (nonlinear_arith);
            lemma_of_nat_finite(n as nat);
        }
        F64::round_pack(false, n as u128, 3122, false, Ghost((n * one()) as nat), Ghost(1nat))
    }

    /// The product.
    pub fn mul(self, other: F64) -> (r: F64)
        ensures
            r@ == self@.times(other@),
    {
        proof {
            reveal(Datum::times);
        }
        match (self.parts(), other.parts()) {
            (Parts::Nan, _) => F64::nan(),
            (_, Parts::Nan) => F64::nan(),
            (Parts::Infinite { neg: a }, Parts::Infinite { neg: b }) => F64::infinity(a != b),
            (Parts::Infinite { neg: a }, Parts::Finite { neg: b, mant, exp }) => {
                proof {
                    lemma_zero_mant(mant as nat, exp as nat);
                }
                if mant == 0 {
                    F64::nan()
                } else {
                    F64::infinity(a != b)
                }
            },
            (Parts::Finite { neg: a, mant, exp }, Parts::Infinite { neg: b }) => {
                proof {
                    lemma_zero_mant(mant as nat, exp as nat);
                }
                if mant == 0 {
                    F64::nan()
                } else {
                    F64::infinity(a != b)
                }
            },
            (
                Parts::Finite { neg: a, mant: m1, exp: e1 },
                Parts::Finite { neg: b, mant: m2, exp: e2 },
            ) => {
                let e: u32 = e1 + e2 + 974;
                assert(m1 * m2 <= 0x20_0000_0000_0000 * 0x20_0000_0000_0000) by (nonlinear_arith)
                    requires
                        m1 < TWO_53,
                        m2 < TWO_53,
                ;
                let m: u128 = m1 as u128 * m2 as u128;
                let ghost x = m1 as nat * pow2(e1 as nat);
                let ghost y = m2 as nat * pow2(e2 as nat);
                proof {
                    lemma_mul_brackets(m1 as nat, e1 as nat, m2 as nat, e2 as nat);
                }
                F64::round_pack(a != b, m, e, false, Ghost(x * y), Ghost(one()))
            },
        }
    }

    fn nan() -> (r: F64)
        ensures
            r@ is Nan,
    {
        F64 { bits: 0x7FF8_0000_0000_0000 }
    }

    fn infinity(neg: bool) -> (r: F64)
        ensures
            r@ == (Datum::Infinite { neg }),
    {
        F64 {
            bits: if neg {
                0xFFF0_0000_0000_0000
            } else {
                INFINITY
            },
        }
    }

    fn zero(neg: bool) -> (r: F64)
        ensures
            r@ == (Datum::Finite { neg, mag: 0 }),
    {
        F64 {
            bits: if neg {
                SIGN
            } else {
                0
            },
        }
    }

    /// The quotient.
    pub fn div(self, other: F64) -> (r: F64)
        ensures
            r@ == self@.over(other@),
    {
        proof {
            reveal(Datum::over);
        }
        match (self.parts(), other.parts()) {
            (Parts::Nan, _) => F64::nan(),
            (_, Parts::Nan) => F64::nan(),
            (Parts::Infinite { .. }, Parts::Infinite { .. }) => F64::nan(),
            (Parts::Infinite { neg: a }, Parts::Finite { neg: b, .. }) => F64::infinity(a != b),
            (Parts::Finite { neg: a, .. }, Parts::Infinite { neg: b }) => F64::zero(a != b),
            (
                Parts::Finite { neg: a, mant: m1, exp: e1 },
                Parts::Finite { neg: b, mant: m2, exp: e2 },
            ) => {
                let ghost x = m1 as nat * pow2(e1 as nat);
                let ghost y = m2 as nat * pow2(e2 as nat);
                proof {
                    lemma_zero_mant(m1 as nat, e1 as nat);
                    lemma_zero_mant(m2 as nat, e2 as nat);
                }
                if m2 == 0 {
                    if m1 == 0 {
                        F64::nan()
                    } else {
                        F64::infinity(a != b)
                    }
                } else if m1 == 0 {
                    proof {
                        assert(x * one() == 0 * (pow2(0) * y)) by (nonlinear_arith)
                            requires
                                x == 0,
                        ;
                        rounding::lemma_rounded_exact(x * one(), y, 0, 0);
                        lemma_pow2_pos(2098);
                    }
                    F64::zero(a != b)
                } else {
                    let mut m: u128 = m1 as u128;
                    let mut s: u32 = 0;
                    proof {
                        lemma2_to64();
                        assert(m1 as nat * pow2(0) == m1) by (nonlinear_arith)
                            requires
                                pow2(0) == 1,
                        ;
                    }
                    while m < 0x4000_0000_0000_0000_0000_0000_0000_0000
                        invariant
                            m1 > 0,
                            0 < m < 0x8000_0000_0000_0000_0000_0000_0000_0000,
                            m == m1 as nat * pow2(s as nat),
                            s <= 126,
                            m >= pow2(s as nat),
                        decreases 0x8000_0000_0000_0000_0000_0000_0000_0000 - m,
                    {
                        proof {
                            lemma_pow2_unfold((s + 1) as nat);
                            assert(2 * (m1 as nat * pow2(s as nat)) == m1 as nat * pow2(
                                (s + 1) as nat,
                            )) by (nonlinear_arith)
                                requires
                                    pow2((s + 1) as nat) == 2 * pow2(s as nat),
                            ;
                            if s == 126 {
                                lemma2_to64();
                                lemma2_to64_rest();
                                lemma_pow2_adds(63, 63);
                                assert(0x8000_0000_0000_0000 * 0x8000_0000_0000_0000
                                    == 0x4000_0000_0000_0000_0000_0000_0000_0000)
                                    by (nonlinear_arith);
                            }
                        }
                        m = m * 2;
                        s = s + 1;
                    }
                    let q: u128 = m / m2 as u128;
                    let rest: u128 = m % m2 as u128;
                    let e: u32 = e1 + 3122 - s - e2;
                    proof {
                        assert(q >= TWO_53) by (nonlinear_arith)
                            requires
                                q == m / m2 as u128,
                                m >= 0x4000_0000_0000_0000_0000_0000_0000_0000,
                                0 < m2 < 0x20_0000_0000_0000,
                                TWO_53 == 0x20_0000_0000_0000,
                        ;
                        lemma_fundamental_div_mod(m as int, m2 as int);
                        assert(m == q * m2 + rest) by (nonlinear_arith)
                            requires
                                m == m2 * q + rest,
                        ;
                        lemma_div_brackets(
                            m1 as nat,
                            e1 as nat,
                            m2 as nat,
                            e2 as nat,
                            s as nat,
                            q as nat,
                            rest as nat,
                        );
                    }
                    F64::round_pack(a != b, q, e, rest != 0, Ghost(x * one()), Ghost(y))
                }
            },
        }
    }

    /// The number that the decimal literal `n / d` denotes.
    pub fn decimal(n: u64, d: u64) -> (r: F64)
        requires
            n < TWO_53,
            0 < d < TWO_53,
        ensures
            r@ == Datum::literal(n as nat, d as nat),
    {
        proof {
            reveal(Datum::over);
            reveal(Datum::literal);
            lemma_of_nat_exact(n as nat);
            lemma_of_nat_exact(d as nat);
            lemma_pow2_pos(1074);
            rounding::lemma_rounded_scaled(n as nat * one(), d as nat, one());
            assert(d as nat * one() != 0) by (nonlinear_arith)
                requires
                    d > 0,
                    one() > 0,
            ;
        }
        F64::from_u64(n).div(F64::from_u64(d))
    }

    /// Both magnitudes over one power of two: `r.0 * 2^r.3` is the first, and
    /// `r.1 * 2^r.3` the largest multiple that does not exceed the second; `r.2`
    /// says whether it falls short.
    fn align(m1: u64, e1: u32, m2: u64, e2: u32) -> (r: (u128, u128, bool, u32))
        requires
            m1 < TWO_53,
            m2 < TWO_53,
            e2 <= e1 <= 2045,
            e1 == 0 || m1 >= TWO_52,
        ensures
            ({
                let x = m1 as nat * pow2(e1 as nat);
                let y = m2 as nat * pow2(e2 as nat);
                let w = pow2(r.3 as nat);
                &&& x == r.0 as nat * w
                &&& r.1 as nat * w <= y < (r.1 + 1) as nat * w
                &&& r.2 <==> y != r.1 as nat * w
                &&& r.2 ==> r.0 >= 0x10_0000_0000_0000_0000_0000_0000_0000
                &&& r.0 < 0x20_0000_0000_0000_0000_0000_0000_0000
                &&& r.1 < TWO_53
                &&& r.3 <= e1
            }),
    {
        let mut a: u128 = m1 as u128;
        let mut ea: u32 = e1;
        let mut steps: u32 = 0;
        proof {
            lemma2_to64();
            lemma2_to64_rest();
            assert(m1 as nat * pow2(0) == m1) by (nonlinear_arith)
                requires
                    pow2(0) == 1,
            ;
        }
        while ea > e2 && steps < 64
            invariant
                e2 <= ea <= e1,
                steps <= 64,
                m1 < TWO_53,
                a == m1 as nat * pow2(steps as nat),
                a as nat * pow2(ea as nat) == m1 as nat * pow2(e1 as nat),
                pow2(64) == 0x1_0000_0000_0000_0000,
            decreases ea,
        {
            proof {
                lemma_pow2_unfold(ea as nat);
                lemma_pow2_unfold((steps + 1) as nat);
                assert(a as nat * pow2(ea as nat) == (2 * a) as nat * pow2((ea - 1) as nat))
                    by (nonlinear_arith)
                    requires
                        pow2(ea as nat) == 2 * pow2((ea - 1) as nat),
                ;
                assert(2 * (m1 as nat * pow2(steps as nat)) == m1 as nat * pow2(
                    (steps + 1) as nat,
                )) by (nonlinear_arith)
                    requires
                        pow2((steps + 1) as nat) == 2 * pow2(steps as nat),
                ;
                if steps + 1 < 64 {
                    lemma_pow2_strictly_increases((steps + 1) as nat, 64);
                }
                assert(m1 as nat * pow2((steps + 1) as nat) <= 0x20_0000_0000_0000
                    * 0x1_0000_0000_0000_0000) by (nonlinear_arith)
                    requires
                        m1 < 0x20_0000_0000_0000,
                        pow2((steps + 1) as nat) <= 0x1_0000_0000_0000_0000,
                ;
            }
            a = a * 2;
            ea = ea - 1;
            steps = steps + 1;
        }
        proof {
            if steps < 64 {
                lemma_pow2_strictly_increases(steps as nat, 64);
            }
            assert(m1 as nat * pow2(steps as nat) < 0x20_0000_0000_0000 * 0x1_0000_0000_0000_0000)
                by (nonlinear_arith)
                requires
                    m1 < 0x20_0000_0000_0000,
                    pow2(steps as nat) <= 0x1_0000_0000_0000_0000,
            ;
            if ea > e2 {
                assert(m1 as nat * pow2(64) >= 0x10_0000_0000_0000 * 0x1_0000_0000_0000_0000)
                    by (nonlinear_arith)
                    requires
                        m1 >= 0x10_0000_0000_0000,
                        pow2(64) == 0x1_0000_0000_0000_0000,
                ;
            }
        }
        let mut q: u128 = m2 as u128;
        let mut eq: u32 = e2;
        let mut sticky = false;
        let ghost y = m2 as nat * pow2(e2 as nat);
        proof {
            lemma_pow2_pos(e2 as nat);
            assert((q + 1) as nat * pow2(e2 as nat) == q as nat * pow2(e2 as nat) + pow2(
                e2 as nat,
            )) by (nonlinear_arith);
        }
        while eq < ea
            invariant
                e2 <= eq <= ea,
                q < TWO_53,
                q as nat * pow2(eq as nat) <= y < (q + 1) as nat * pow2(eq as nat),
                sticky <==> y != q as nat * pow2(eq as nat),
                sticky ==> ea > e2,
            decreases ea - eq,
        {
            proof {
                let w = pow2(eq as nat);
                let h = (q / 2) as nat;
                lemma_pow2_unfold((eq + 1) as nat);
                lemma_pow2_pos(eq as nat);
                assert(h * (2 * w) == (2 * h) * w) by (nonlinear_arith);
                assert((h + 1) * (2 * w) == (2 * h + 2) * w) by (nonlinear_arith);
                if q % 2 == 0 {
                    assert((2 * h + 2) * w == (q + 1) as nat * w + w) by (nonlinear_arith)
                        requires
                            q == 2 * h,
                    ;
                } else {
                    assert((2 * h) * w + w == q as nat * w) by (nonlinear_arith)
                        requires
                            q == 2 * h + 1,
                    ;
                }
            }
            sticky = sticky || q % 2 == 1;
            q = q / 2;
            eq = eq + 1;
        }
        (a, q, sticky, ea)
    }

    /// The sum of two magnitudes, or their difference where `minus` holds: the
    /// first less the second, with the sign `neg` where the first is not the smaller.
    fn combine(neg: bool, m1: u64, e1: u32, m2: u64, e2: u32, minus: bool) -> (r: F64)
        requires
            m1 < TWO_53,
            m2 < TWO_53,
            e2 <= e1 <= 2045,
            e1 == 0 || m1 >= TWO_52,
        ensures
            ({
                let x = m1 as nat * pow2(e1 as nat);
                let y = m2 as nat * pow2(e2 as nat);
                r@ == (if !minus {
                    Datum::of_ratio(neg, x + y, 1)
                } else if x >= y {
                    Datum::of_ratio(neg, (x - y) as nat, 1)
                } else {
                    Datum::of_ratio(!neg, (y - x) as nat, 1)
                })
            }),
    {
        let ghost x = m1 as nat * pow2(e1 as nat);
        let ghost y = m2 as nat * pow2(e2 as nat);
        let (a, q, sticky, e) = F64::align(m1, e1, m2, e2);
        let ghost w = pow2(e as nat);
        proof {
            lemma_pow2_pos(e as nat);
            assert((q + 1) as nat * w == q as nat * w + w) by (nonlinear_arith);
        }
        if !minus {
            proof {
                assert((a + q) as nat * w == a as nat * w + q as nat * w) by (nonlinear_arith);
                lemma_whole_brackets(x + y, (a + q) as nat, e as nat);
            }
            F64::round_pack(neg, a + q, e + 2048, sticky, Ghost(x + y), Ghost(1nat))
        } else if a >= q {
            proof {
                assert((a - q) as nat * w == a as nat * w - q as nat * w) by (nonlinear_arith)
                    requires
                        a >= q,
                ;
            }
            if sticky {
                let m: u128 = a - q - 1;
                proof {
                    assert((a - q) as nat * w == m as nat * w + w) by (nonlinear_arith)
                        requires
                            m == a - q - 1,
                            a - q >= 1,
                    ;
                    assert(m as nat * w >= 0) by (nonlinear_arith);
                    lemma_whole_brackets((x - y) as nat, m as nat, e as nat);
                }
                F64::round_pack(neg, m, e + 2048, true, Ghost((x - y) as nat), Ghost(1nat))
            } else {
                proof {
                    assert((a - q) as nat * w >= 0) by (nonlinear_arith)
                        requires
                            a >= q,
                    ;
                    lemma_whole_brackets((x - y) as nat, (a - q) as nat, e as nat);
                }
                F64::round_pack(neg, a - q, e + 2048, false, Ghost((x - y) as nat), Ghost(1nat))
            }
        } else {
            proof {
                assert((q - a) as nat * w == q as nat * w - a as nat * w) by (nonlinear_arith)
                    requires
                        q >= a,
                ;
                assert((q - a) as nat * w > 0) by (nonlinear_arith)
                    requires
                        q > a,
                        w > 0,
                ;
                lemma_whole_brackets((y - x) as nat, (q - a) as nat, e as nat);
            }
            F64::round_pack(!neg, q - a, e + 2048, false, Ghost((y - x) as nat), Ghost(1nat))
        }
    }

    /// The difference.
    pub fn sub(self, other: F64) -> (r: F64)
        ensures
            r@ == self@.minus(other@),
    {
        proof {
            reveal(Datum::minus);
        }
        match (self.parts(), other.parts()) {
            (Parts::Nan, _) => F64::nan(),
            (_, Parts::Nan) => F64::nan(),
            (Parts::Infinite { neg: a }, Parts::Infinite { neg: b }) => if a != b {
                F64::infinity(a)
            } else {
                F64::nan()
            },
            (Parts::Infinite { neg: a }, Parts::Finite { .. }) => F64::infinity(a),
            (Parts::Finite { .. }, Parts::Infinite { neg: b }) => F64::infinity(!b),
            (
                Parts::Finite { neg: a, mant: m1, exp: e1 },
                Parts::Finite { neg: b, mant: m2, exp: e2 },
            ) => {
                proof {
                    lemma_zero_mant(m1 as nat, e1 as nat);
                    lemma_zero_mant(m2 as nat, e2 as nat);
                    if m1 == m2 && e1 == e2 {
                    } else if m1 as nat * pow2(e1 as nat) == m2 as nat * pow2(e2 as nat) {
                        lemma_canonical(m1 as nat, e1 as nat, m2 as nat, e2 as nat);
                    }
                }
                if m1 == m2 && e1 == e2 && (a == b || m1 == 0) {
                    F64::zero(a && !b)
                } else if e1 >= e2 {
                    F64::combine(a, m1, e1, m2, e2, a == b)
                } else {
                    F64::combine(!b, m2, e2, m1, e1, a == b)
                }
            },
        }
    }

    fn neg(self) -> (r: F64)
        ensures
            r@ == self@.negated(),
    {
        if self.bits >= SIGN {
            F64 { bits: self.bits - SIGN }
        } else {
            F64 { bits: self.bits + SIGN }
        }
    }

    /// The sum.
    pub fn add(self, other: F64) -> (r: F64)
        ensures
            r@ == self@.plus(other@),
    {
        self.sub(other.neg())
    }

    /// Whether the number is below the other; nothing is below NaN, nor NaN below it.
    pub fn lt(self, other: F64) -> (r: bool)
        ensures
            r == self@.less(other@),
    {
        proof {
            reveal(Datum::less);
        }
        match (self.parts(), other.parts()) {
            (Parts::Nan, _) => false,
            (_, Parts::Nan) => false,
            (Parts::Infinite { neg: a }, Parts::Infinite { neg: b }) => a && !b,
            (Parts::Infinite { neg: a }, Parts::Finite { .. }) => a,
            (Parts::Finite { .. }, Parts::Infinite { neg: b }) => !b,
            (
                Parts::Finite { neg: a, mant: m1, exp: e1 },
                Parts::Finite { neg: b, mant: m2, exp: e2 },
            ) => {
                proof {
                    lemma_zero_mant(m1 as nat, e1 as nat);
                    lemma_zero_mant(m2 as nat, e2 as nat);
                    if e1 < e2 || (e1 == e2 && m1 < m2) {
                        lemma_ordered(m1 as nat, e1 as nat, m2 as nat, e2 as nat);
                    } else if e2 < e1 || (e1 == e2 && m2 < m1) {
                        lemma_ordered(m2 as nat, e2 as nat, m1 as nat, e1 as nat);
                    }
                }
                let smaller = e1 < e2 || (e1 == e2 && m1 < m2);
                let larger = e2 < e1 || (e1 == e2 && m2 < m1);
                if a && b {
                    larger
                } else if a {
                    m1 != 0 || m2 != 0
                } else if b {
                    false
                } else {
                    smaller
                }
            },
        }
    }

    /// The integer part of `mant * 2^exp` units, held to 2^64, and what is left
    /// over.
    fn whole(mant: u64, exp: u32) -> (r: (u128, Rest))
        requires
            mant < TWO_53,
            exp <= 2045,
        ensures
            ({
                let mag = mant as nat * pow2(exp as nat);
                if mag / one() >= 0x1_0000_0000_0000_0000 {
                    r.0 == 0x1_0000_0000_0000_0000
                } else {
                    &&& r.0 == mag / one()
                    &&& r.1 != Rest::Something
                    &&& rounding::within(mag, r.0 as nat, one(), r.1)
                }
            }),
    {
        let ghost mag = mant as nat * pow2(exp as nat);
        let mut q: u128 = mant as u128;
        let mut e: u32 = exp;
        let mut rest = Rest::Nothing;
        proof {
            lemma_pow2_pos(exp as nat);
            lemma_pow2_pos(1074);
        }
        while e > 1074 && q < 0x1_0000_0000_0000_0000
            invariant
                e <= exp,
                exp < 1074 ==> e == exp,
                exp >= 1074 ==> e >= 1074,
                q < 0x2_0000_0000_0000_0000,
                exp < 1074 ==> q == mant,
                q as nat * pow2(e as nat) == mag,
            decreases e,
        {
            proof {
                lemma_pow2_unfold(e as nat);
                assert(q as nat * pow2(e as nat) == (2 * q) as nat * pow2((e - 1) as nat))
                    by (nonlinear_arith)
                    requires
                        pow2(e as nat) == 2 * pow2((e - 1) as nat),
                ;
            }
            q = q * 2;
            e = e - 1;
        }
        if q >= 0x1_0000_0000_0000_0000 {
            proof {
                let top = 0x1_0000_0000_0000_0000nat;
                if e > 1074 {
                    lemma_pow2_strictly_increases(1074, e as nat);
                }
                assert(mag >= top * one()) by (nonlinear_arith)
                    requires
                        mag == q as nat * pow2(e as nat),
                        pow2(e as nat) >= one(),
                        q >= top,
                ;
                lemma_div_is_ordered((top * one()) as int, mag as int, one() as int);
                lemma_div_by_multiple(top as int, one() as int);
            }
            return (0x1_0000_0000_0000_0000, Rest::Nothing);
        }
        proof {
            lemma_pow2_pos(e as nat);
        }
        while e < 1074
            invariant
                e <= 1074,
                q < 0x1_0000_0000_0000_0000,
                rest != Rest::Something,
                rounding::within(mag, q as nat, pow2(e as nat), rest),
            decreases 1074 - e,
        {
            proof {
                rounding::lemma_halve(mag, q as nat, pow2(e as nat), rest);
                lemma_pow2_unfold((e + 1) as nat);
            }
            rest = rest.halved(q % 2 == 1);
            q = q / 2;
            e = e + 1;
        }
        proof {
            lemma_fundamental_div_mod_converse(
                mag as int,
                one() as int,
                q as int,
                mag - q as nat * one(),
            );
        }
        (q, rest)
    }

    /// `x.floor() as i64`.
    pub fn floor_i64(self) -> (r: i64)
        ensures
            r == self@.floor_i64(),
    {
        proof {
            reveal(Datum::floor_i64);
        }
        match self.parts() {
            Parts::Nan => 0,
            Parts::Infinite { neg } => if neg {
                i64::MIN
            } else {
                i64::MAX
            },
            Parts::Finite { neg, mant, exp } => {
                let (q, rest) = F64::whole(mant, exp);
                let ghost mag = mant as nat * pow2(exp as nat);
                proof {
                    lemma_pow2_pos(1074);
                    lemma_fundamental_div_mod(mag as int, one() as int);
                    assert((mag / one()) * one() == one() * (mag / one())) by (nonlinear_arith);
                    lemma_floor_negative(mag, one());
                    if mag / one() >= 0x1_0000_0000_0000_0000 {
                        assert(-(mag as int) / (one() as int) <= -0x1_0000_0000_0000_0000);
                    }
                }
                if !neg {
                    if q > 0x7FFF_FFFF_FFFF_FFFF {
                        i64::MAX
                    } else {
                        q as i64
                    }
                } else {
                    let up: u128 = if rest != Rest::Nothing {
                        q + 1
                    } else {
                        q
                    };
                    if up >= 0x8000_0000_0000_0000 {
                        i64::MIN
                    } else {
                        -(up as i64)
                    }
                }
            },
        }
    }

    /// `x.round() as u64`.
    pub fn round_u64(self) -> (r: u64)
        ensures
            r == self@.round_u64(),
    {
        proof {
            reveal(Datum::round_u64);
        }
        match self.parts() {
            Parts::Nan => 0,
            Parts::Infinite { neg } => if neg {
                0
            } else {
                u64::MAX
            },
            Parts::Finite { neg, mant, exp } => {
                let (q, rest) = F64::whole(mant, exp);
                let half = rest == Rest::Half || rest == Rest::AboveHalf;
                proof {
                    lemma_pow2_pos(1074);
                    let mag = mant as nat * pow2(exp as nat);
                    lemma_half_up(mag, one());
                    lemma_fundamental_div_mod(mag as int, one() as int);
                    assert((mag / one()) * one() == one() * (mag / one())) by (nonlinear_arith);
                }
                let up: u128 = if half {
                    q + 1
                } else {
                    q
                };
                if neg {
                    0
                } else if q > 0xFFFF_FFFF_FFFF_FFFF || up > 0xFFFF_FFFF_FFFF_FFFF {
                    u64::MAX
                } else {
                    up as u64
                }
            },
        }
    }

    /// `x as u64`.
    pub fn trunc_u64(self) -> (r: u64)
        ensures
            r == self@.trunc_u64(),
    {
        proof {
            reveal(Datum::trunc_u64);
        }
        match self.parts() {
            Parts::Nan => 0,
            Parts::Infinite { neg } => if neg {
                0
            } else {
                u64::MAX
            },
            Parts::Finite { neg, mant, exp } => {
                let (q, _rest) = F64::whole(mant, exp);
                if neg {
                    0
                } else if q > 0xFFFF_FFFF_FFFF_FFFF {
                    u64::MAX
                } else {
                    q as u64
                }
            },
        }
    }
}

} // verus!
