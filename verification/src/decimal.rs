//! Binary64 numbers in decimal, correctly rounded.

use crate::binary64;
use crate::binary64::{Datum, Parts, F64};
use crate::rounding;
use crate::rounding::{Rest, TWO_53};
use crate::text;
use vstd::arithmetic::div_mod::*;
use vstd::arithmetic::power2::*;
use vstd::prelude::*;

verus! {

pub open spec fn pow10(n: nat) -> nat
    decreases n,
{
    if n == 0 {
        1
    } else {
        10 * pow10((n - 1) as nat)
    }
}

pub open spec fn pow5(n: nat) -> nat
    decreases n,
{
    if n == 0 {
        1
    } else {
        5 * pow5((n - 1) as nat)
    }
}

/// The last `count` decimal digits of `n`.
pub open spec fn last_digits(n: nat, count: nat) -> Seq<char>
    decreases count,
{
    if count == 0 {
        Seq::empty()
    } else {
        last_digits(n / 10, (count - 1) as nat).push(text::digit(n))
    }
}

/// A count of `10^-places`, written with that many digits behind the point.
pub open spec fn pointed(n: nat, places: nat) -> Seq<char> {
    if places == 0 {
        text::digits(n)
    } else {
        text::digits(n / pow10(places)) + "."@ + last_digits(n, places)
    }
}

pub open spec fn sign(neg: bool) -> Seq<char> {
    if neg {
        "-"@
    } else {
        ""@
    }
}

/// A number with a fixed count of digits behind the point, to the nearest, ties
/// to even.
#[verifier::opaque]
pub open spec fn fixed(x: Datum, places: nat) -> Seq<char> {
    match x {
        Datum::Nan => "NaN"@,
        Datum::Infinite { neg } => sign(neg) + "inf"@,
        Datum::Finite { neg, mag } => sign(neg) + pointed(
            rounding::nearest(mag * pow10(places), binary64::one()),
            places,
        ),
    }
}

/// How many decimal digits `n` has.
pub open spec fn width(n: nat) -> nat {
    text::digits(n).len()
}

/// A positive magnitude in scientific notation, with four digits behind the point.
/// Counted in 10^-1074 the magnitude is an integer; its leading five digits,
/// rounded to the nearest with ties to even, are the significand.
pub open spec fn scaled(mag: nat) -> Seq<char> {
    let n = mag * pow5(1074);
    let lead = rounding::nearest(n, pow10((width(n) - 5) as nat));
    if lead < 100000 {
        pointed(lead, 4) + "e"@ + text::integer(width(n) - 1075)
    } else {
        pointed(10000, 4) + "e"@ + text::integer(width(n) - 1074)
    }
}

/// A number in scientific notation, with four digits behind the point.
#[verifier::opaque]
pub open spec fn scientific(x: Datum) -> Seq<char> {
    match x {
        Datum::Nan => "NaN"@,
        Datum::Infinite { neg } => sign(neg) + "inf"@,
        Datum::Finite { neg, mag } => if mag == 0 {
            sign(neg) + "0.0000e0"@
        } else {
            sign(neg) + scaled(mag)
        },
    }
}

/// The number that a row of digits denotes, the last one lowest.
spec fn value(v: Seq<u8>) -> nat
    decreases v.len(),
{
    if v.len() == 0 {
        0
    } else {
        10 * value(v.drop_last()) + v.last() as nat
    }
}

spec fn are_digits(v: Seq<u8>) -> bool {
    forall|i: int| 0 <= i < v.len() ==> v[i] < 10
}

proof fn lemma_push(v: Seq<u8>, d: u8)
    requires
        are_digits(v),
        d < 10,
    ensures
        are_digits(v.push(d)),
        value(v.push(d)) == 10 * value(v) + d,
        v.push(d).drop_last() == v,
{
    assert(v.push(d).drop_last() =~= v);
}

/// `k` times the number, and `carry` more.
fn times(v: Vec<u8>, k: u8, carry: u8) -> (r: Vec<u8>)
    requires
        are_digits(v@),
        k <= 5,
        carry < 10,
    ensures
        are_digits(r@),
        value(r@) == k * value(v@) + carry,
        r@.len() <= v@.len() + 1,
    decreases v.len(),
{
    let mut w = v;
    match w.pop() {
        None => {
            proof {
                lemma_push(w@, carry);
                assert(k * 0 == 0);
            }
            if carry > 0 {
                w.push(carry);
            }
            w
        },
        Some(d) => {
            assert(k * d <= 45) by (nonlinear_arith)
                requires
                    k <= 5,
                    d < 10,
            ;
            let t: u8 = k * d + carry;
            let mut out = times(w, k, t / 10);
            proof {
                lemma_push(out@, t % 10);
                let rest = value(w@);
                assert(k * (10 * rest + d) == 10 * (k * rest) + k * d) by (nonlinear_arith);
            }
            out.push(t % 10);
            out
        },
    }
}

/// Half the number, and whether it was odd.
fn half(v: Vec<u8>) -> (r: (Vec<u8>, bool))
    requires
        are_digits(v@),
    ensures
        are_digits(r.0@),
        value(r.0@) == value(v@) / 2,
        r.1 == (value(v@) % 2 == 1),
    decreases v.len(),
{
    let mut w = v;
    match w.pop() {
        None => (w, false),
        Some(d) => {
            let (mut out, odd) = half(w);
            let t: u8 = if odd {
                10 + d
            } else {
                d
            };
            proof {
                lemma_push(out@, t / 2);
            }
            out.push(t / 2);
            (out, t % 2 == 1)
        },
    }
}

/// One more than the number.
fn plus_one(v: Vec<u8>) -> (r: Vec<u8>)
    requires
        are_digits(v@),
    ensures
        are_digits(r@),
        value(r@) == value(v@) + 1,
{
    let r = times(v, 1, 1);
    assert(1 * value(v@) == value(v@));
    r
}

/// The digits of a number.
fn row(n: u64) -> (r: Vec<u8>)
    ensures
        are_digits(r@),
        value(r@) == n,
        r@.len() <= n,
    decreases n,
{
    if n == 0 {
        Vec::new()
    } else {
        let mut out = row(n / 10);
        proof {
            lemma_push(out@, (n % 10) as u8);
        }
        out.push((n % 10) as u8);
        out
    }
}

/// Whether all digits are zero.
fn is_zero(v: &Vec<u8>) -> (r: bool)
    requires
        are_digits(v@),
    ensures
        r == (value(v@) == 0),
{
    let mut i: usize = 0;
    proof {
        assert(v@.take(0) =~= Seq::empty());
    }
    while i < v.len()
        invariant
            are_digits(v@),
            i <= v@.len(),
            value(v@.take(i as int)) == 0,
        decreases v.len() - i,
    {
        proof {
            assert(v@.take(i + 1).drop_last() =~= v@.take(i as int));
        }
        if v[i] != 0 {
            proof {
                lemma_value_grows(v@, i + 1);
            }
            return false;
        }
        i = i + 1;
    }
    proof {
        assert(v@.take(i as int) =~= v@);
    }
    true
}

proof fn lemma_value_grows(v: Seq<u8>, k: int)
    requires
        0 <= k <= v.len(),
    ensures
        value(v) >= value(v.take(k)),
    decreases v.len() - k,
{
    if k < v.len() {
        assert(v.take(k + 1).drop_last() =~= v.take(k));
        lemma_value_grows(v, k + 1);
    } else {
        assert(v.take(k) =~= v);
    }
}

/// The number in decimal.
fn show_row(v: Vec<u8>) -> (r: String)
    requires
        are_digits(v@),
    ensures
        r@ == text::digits(value(v@)),
    decreases v.len(),
{
    let mut w = v;
    match w.pop() {
        None => text::show_u64(0),
        Some(d) => {
            if is_zero(&w) {
                text::show_u64(d as u64)
            } else {
                let mut s = show_row(w);
                s.push(text::digit_char(d));
                s
            }
        },
    }
}

/// Cuts the last `count` digits off: what is left, and those digits.
fn cut(v: Vec<u8>, count: u32) -> (r: (Vec<u8>, String))
    requires
        are_digits(v@),
    ensures
        are_digits(r.0@),
        value(r.0@) == value(v@) / pow10(count as nat),
        r.1@ == last_digits(value(v@), count as nat),
    decreases count,
{
    let mut w = v;
    if count == 0 {
        (w, String::new())
    } else {
        let d: u8 = match w.pop() {
            Some(d) => d,
            None => 0,
        };
        let ghost rest = value(w@);
        let (out, mut s) = cut(w, count - 1);
        s.push(text::digit_char(d));
        proof {
            let n = value(v@);
            assert(n == 10 * rest + d);
            assert(n / 10 == rest);
            lemma_pow10_pos((count - 1) as nat);
            lemma_div_denominator(n as int, 10, pow10((count - 1) as nat) as int);
        }
        (out, s)
    }
}

pub proof fn lemma_pow10_pos(n: nat)
    ensures
        pow10(n) > 0,
    decreases n,
{
    if n > 0 {
        lemma_pow10_pos((n - 1) as nat);
    }
}

/// The number, counted in `10^-places`.
fn show_pointed(v: Vec<u8>, places: u32) -> (r: String)
    requires
        are_digits(v@),
    ensures
        r@ == pointed(value(v@), places as nat),
{
    if places == 0 {
        show_row(v)
    } else {
        let (front, back) = cut(v, places);
        let mut s = show_row(front);
        s.append(".");
        s.append(back.as_str());
        s
    }
}

fn show_sign(neg: bool) -> (r: String)
    ensures
        r@ == sign(neg),
{
    if neg {
        "-".to_owned()
    } else {
        "".to_owned()
    }
}

/// `format!("{:.places$}", x)`.
pub fn show_fixed(x: F64, places: u32) -> (r: String)
    ensures
        r@ == fixed(x@, places as nat),
{
    proof {
        reveal(fixed);
    }
    match x.parts() {
        Parts::Nan => "NaN".to_owned(),
        Parts::Infinite { neg } => {
            let mut s = show_sign(neg);
            s.append("inf");
            s
        },
        Parts::Finite { neg, mant, exp } => {
            let mut s = show_sign(neg);
            let ghost mag = mant as nat * pow2(exp as nat);
            let ghost total = mag * pow10(places as nat);
            let mut v = row(mant);
            let mut i: u32 = 0;
            assert(mant as nat * pow10(0) == mant) by (nonlinear_arith)
                requires
                    pow10(0) == 1,
            ;
            while i < places
                invariant
                    i <= places,
                    are_digits(v@),
                    value(v@) == mant as nat * pow10(i as nat),
                decreases places - i,
            {
                proof {
                    lemma_push(v@, 0);
                    assert(10 * (mant as nat * pow10(i as nat)) == mant as nat * (10 * pow10(
                        i as nat,
                    ))) by (nonlinear_arith);
                }
                v.push(0);
                i = i + 1;
            }
            let mut e: u32 = exp;
            proof {
                assert((mant as nat * pow10(places as nat)) * pow2(exp as nat) == (mant as nat
                    * pow2(exp as nat)) * pow10(places as nat)) by (nonlinear_arith);
            }
            while e > 1074
                invariant
                    e <= exp,
                    exp < 1074 ==> e == exp,
                    exp >= 1074 ==> e >= 1074,
                    are_digits(v@),
                    value(v@) * pow2(e as nat) == total,
                decreases e,
            {
                proof {
                    lemma_pow2_unfold(e as nat);
                    let n = value(v@);
                    assert(n * pow2(e as nat) == (2 * n + 0) * pow2((e - 1) as nat))
                        by (nonlinear_arith)
                        requires
                            pow2(e as nat) == 2 * pow2((e - 1) as nat),
                    ;
                }
                v = times(v, 2, 0);
                e = e - 1;
            }
            let mut rest = Rest::Nothing;
            proof {
                lemma_pow2_pos(e as nat);
            }
            while e < 1074
                invariant
                    e <= 1074,
                    are_digits(v@),
                    rest != Rest::Something,
                    rounding::within(total, value(v@), pow2(e as nat), rest),
                decreases 1074 - e,
            {
                proof {
                    rounding::lemma_halve(total, value(v@), pow2(e as nat), rest);
                    lemma_pow2_unfold((e + 1) as nat);
                }
                let (w, odd) = half(v);
                v = w;
                rest = rest.halved(odd);
                e = e + 1;
            }
            proof {
                rounding::lemma_within_nearest(total, value(v@), binary64::one(), rest);
            }
            let odd = v.len() > 0 && v[v.len() - 1] % 2 == 1;
            if rest.rounds_up(odd) {
                v = plus_one(v);
            }
            s.append(show_pointed(v, places).as_str());
            s
        },
    }
}

/// What is left over when the step grows tenfold and the quotient loses its last
/// digit.
spec fn after_tenth(rest: Rest, d: u8) -> Rest {
    if d < 5 {
        if d == 0 && rest == Rest::Nothing {
            Rest::Nothing
        } else {
            Rest::BelowHalf
        }
    } else if d == 5 && rest == Rest::Nothing {
        Rest::Half
    } else {
        Rest::AboveHalf
    }
}

fn tenth(rest: Rest, d: u8) -> (r: Rest)
    ensures
        r == after_tenth(rest, d),
{
    if d < 5 {
        if d == 0 && rest == Rest::Nothing {
            Rest::Nothing
        } else {
            Rest::BelowHalf
        }
    } else if d == 5 && rest == Rest::Nothing {
        Rest::Half
    } else {
        Rest::AboveHalf
    }
}

proof fn lemma_tenth(total: nat, m: nat, d: u8, step: nat, rest: Rest)
    requires
        rounding::within(total, 10 * m + d as nat, step, rest),
        d < 10,
    ensures
        rounding::within(total, m, 10 * step, after_tenth(rest, d)),
{
    assert((10 * m + d as nat) * step == m * (10 * step) + d as nat * step) by (nonlinear_arith);
    if d < 5 {
        assert(d as nat * step <= 4 * step) by (nonlinear_arith)
            requires
                d <= 4,
        ;
        if d > 0 {
            assert(d as nat * step > 0) by (nonlinear_arith)
                requires
                    d > 0,
                    step > 0,
            ;
        }
    } else if d > 5 {
        assert(d as nat * step >= 6 * step) by (nonlinear_arith)
            requires
                d >= 6,
        ;
        assert(d as nat * step <= 9 * step) by (nonlinear_arith)
            requires
                d <= 9,
        ;
    }
}

/// A row that does not begin with zero is as long as its number is wide.
proof fn lemma_width(v: Seq<u8>)
    requires
        are_digits(v),
        v.len() > 0,
        v[0] != 0,
    ensures
        width(value(v)) == v.len(),
        value(v) > 0,
    decreases v.len(),
{
    let front = v.drop_last();
    if v.len() == 1 {
        assert(value(front) == 0);
    } else {
        assert(front[0] == v[0]);
        lemma_width(front);
        assert(value(v) / 10 == value(front));
    }
}

/// Zeros in front do not count.
proof fn lemma_skip_zeros(v: Seq<u8>, k: int)
    requires
        0 <= k <= v.len(),
        forall|i: int| 0 <= i < k ==> v[i] == 0,
    ensures
        value(v.skip(k)) == value(v),
    decreases v.len(),
{
    if v.len() == k {
        if k > 0 {
            lemma_skip_zeros(v.drop_last(), k - 1);
            assert(v.drop_last().skip(k - 1) =~= Seq::empty());
        }
        assert(v.skip(k) =~= Seq::empty());
    } else {
        lemma_skip_zeros(v.drop_last(), k);
        assert(v.skip(k).drop_last() =~= v.drop_last().skip(k));
        assert(v.skip(k).last() == v.last());
    }
}

/// The row without zeros in front.
fn strip(v: &Vec<u8>) -> (r: Vec<u8>)
    requires
        are_digits(v@),
    ensures
        are_digits(r@),
        value(r@) == value(v@),
        r@.len() <= v@.len(),
        r@.len() > 0 ==> r@[0] != 0,
{
    let mut k: usize = 0;
    while k < v.len() && v[k] == 0
        invariant
            k <= v@.len(),
            forall|i: int| 0 <= i < k ==> v@[i] == 0,
        decreases v.len() - k,
    {
        k = k + 1;
    }
    let mut out: Vec<u8> = Vec::new();
    let mut i: usize = k;
    while i < v.len()
        invariant
            k <= i <= v@.len(),
            out@ == v@.subrange(k as int, i as int),
        decreases v.len() - i,
    {
        out.push(v[i]);
        proof {
            assert(v@.subrange(k as int, i + 1) =~= v@.subrange(k as int, i as int).push(
                v@[i as int],
            ));
        }
        i = i + 1;
    }
    proof {
        lemma_skip_zeros(v@, k as int);
        assert(out@ =~= v@.skip(k as int));
    }
    out
}

pub proof fn lemma_pow5_large(n: nat)
    requires
        n >= 8,
    ensures
        pow5(n) >= 390625,
    decreases n,
{
    if n == 8 {
        reveal_with_fuel(pow5, 9);
    } else {
        lemma_pow5_large((n - 1) as nat);
    }
}

/// The number of a short row.
fn number(v: &Vec<u8>) -> (r: u64)
    requires
        are_digits(v@),
        v@.len() <= 5,
    ensures
        r == value(v@),
        r < 100000,
{
    let mut n: u64 = 0;
    let mut i: usize = 0;
    proof {
        reveal_with_fuel(pow10, 6);
        assert(v@.take(0) =~= Seq::empty());
    }
    while i < v.len()
        invariant
            are_digits(v@),
            i <= v@.len() <= 5,
            n == value(v@.take(i as int)),
            n < pow10(i as nat),
            pow10(5) == 100000,
            pow10(4) == 10000,
            pow10(3) == 1000,
            pow10(2) == 100,
            pow10(1) == 10,
            pow10(0) == 1,
        decreases v.len() - i,
    {
        proof {
            assert(v@.take(i + 1).drop_last() =~= v@.take(i as int));
            assert(i == 0 || i == 1 || i == 2 || i == 3 || i == 4);
        }
        n = 10 * n + v[i] as u64;
        i = i + 1;
    }
    proof {
        assert(v@.take(i as int) =~= v@);
        assert(i == 0 || i == 1 || i == 2 || i == 3 || i == 4 || i == 5);
    }
    n
}

/// A row of five digits or fewer denotes less than 100000; a longer number than
/// that needs a longer row.
proof fn lemma_row_bound(v: Seq<u8>)
    requires
        are_digits(v),
        v.len() <= 5,
    ensures
        value(v) < 100000,
{
    reveal_with_fuel(value, 6);
}

/// The digits of `mant * 2^exp` units, counted in 10^-1074.
fn expanded(mant: u64, exp: u32) -> (r: Vec<u8>)
    requires
        mant < TWO_53,
        exp <= 2045,
    ensures
        are_digits(r@),
        value(r@) == (mant as nat * pow2(exp as nat)) * pow5(1074),
        r@.len() <= 0x20_0000_0000_2000,
        r@.len() > 0 ==> r@[0] != 0,
{
    let mut v = row(mant);
    let mut i: u32 = 0;
    proof {
        lemma2_to64();
        assert(mant as nat * pow2(0) == mant) by (nonlinear_arith)
            requires
                pow2(0) == 1,
        ;
    }
    while i < exp
        invariant
            i <= exp <= 2045,
            mant < TWO_53,
            are_digits(v@),
            value(v@) == mant as nat * pow2(i as nat),
            v@.len() <= mant + i,
        decreases exp - i,
    {
        proof {
            lemma_pow2_unfold((i + 1) as nat);
            assert(2 * (mant as nat * pow2(i as nat)) == mant as nat * pow2((i + 1) as nat))
                by (nonlinear_arith)
                requires
                    pow2((i + 1) as nat) == 2 * pow2(i as nat),
            ;
        }
        v = times(v, 2, 0);
        i = i + 1;
    }
    let ghost mag = mant as nat * pow2(exp as nat);
    let mut j: u32 = 0;
    assert(mag * pow5(0) == mag) by (nonlinear_arith)
        requires
            pow5(0) == 1,
    ;
    while j < 1074
        invariant
            j <= 1074,
            exp <= 2045,
            mant < TWO_53,
            are_digits(v@),
            value(v@) == mag * pow5(j as nat),
            v@.len() <= mant + exp + j,
        decreases 1074 - j,
    {
        proof {
            assert(5 * (mag * pow5(j as nat)) == mag * (5 * pow5(j as nat))) by (nonlinear_arith);
        }
        v = times(v, 5, 0);
        j = j + 1;
    }
    strip(&v)
}

fn show_scaled(mant: u64, exp: u32) -> (r: String)
    requires
        0 < mant < TWO_53,
        exp <= 2045,
    ensures
        r@ == scaled(mant as nat * pow2(exp as nat)),
{
    let ghost mag = mant as nat * pow2(exp as nat);
    let ghost total = mag * pow5(1074);
    let mut v = expanded(mant, exp);
    let len: usize = v.len();
    proof {
        lemma_pow2_pos(exp as nat);
        lemma_pow5_large(1074);
        assert(total >= 390625) by (nonlinear_arith)
            requires
                total == (mant as nat * pow2(exp as nat)) * pow5(1074),
                mant >= 1,
                pow2(exp as nat) >= 1,
                pow5(1074) >= 390625,
        ;
        if len <= 5 {
            lemma_row_bound(v@);
        }
        lemma_width(v@);
    }
    let mut rest = Rest::Nothing;
    let mut c: usize = 0;
    while v.len() > 5
        invariant
            are_digits(v@),
            len > 5,
            c + v@.len() == len,
            v@.len() >= 5,
            rest != Rest::Something,
            rounding::within(total, value(v@), pow10(c as nat), rest),
        decreases v.len(),
    {
        match v.pop() {
            Some(d) => {
                proof {
                    lemma_tenth(total, value(v@), d, pow10(c as nat), rest);
                }
                rest = tenth(rest, d);
            },
            None => {},
        }
        c = c + 1;
    }
    let low = number(&v);
    let lead: u64 = if rest.rounds_up(low % 2 == 1) {
        low + 1
    } else {
        low
    };
    proof {
        rounding::lemma_within_nearest(total, value(v@), pow10(c as nat), rest);
    }
    if lead < 100000 {
        let mut s = show_pointed(row(lead), 4);
        s.append("e");
        s.append(text::show_i64(len as i64 - 1075).as_str());
        s
    } else {
        let mut s = show_pointed(row(10000), 4);
        s.append("e");
        s.append(text::show_i64(len as i64 - 1074).as_str());
        s
    }
}

/// `format!("{:.4e}", x)`.
pub fn show_scientific(x: F64) -> (r: String)
    ensures
        r@ == scientific(x@),
{
    proof {
        reveal(scientific);
    }
    match x.parts() {
        Parts::Nan => "NaN".to_owned(),
        Parts::Infinite { neg } => {
            let mut s = show_sign(neg);
            s.append("inf");
            s
        },
        Parts::Finite { neg, mant, exp } => {
            let mut s = show_sign(neg);
            proof {
                lemma_pow2_pos(exp as nat);
                let mag = mant as nat * pow2(exp as nat);
                assert(mag == 0 <==> mant == 0) by (nonlinear_arith)
                    requires
                        mag == mant as nat * pow2(exp as nat),
                        pow2(exp as nat) > 0,
                ;
            }
            if mant == 0 {
                s.append("0.0000e0");
            } else {
                s.append(show_scaled(mant, exp).as_str());
            }
            s
        },
    }
}

} // verus!
