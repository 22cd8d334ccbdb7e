//! Laws of weights, overhead, pools and sequences: how each follows from what is put in.
//!
//! Magnitudes of binary64 numbers are counted in units, of which `one()` make the
//! number one.

use crate::binary64;
use crate::binary64::Datum;
use crate::choice::Engine;
use crate::close;
use crate::fit;
use crate::fit::FitReport;
use crate::laws::sizes;
use crate::order;
use crate::rounding;
use crate::rounding::{TWO_52, TWO_53};
use crate::sizing;
use crate::sizing::{
    Allocator, Band, Calibration, DeviceSet, LlamaCpp, ModelShape, QuantScheme, Vllm, Workload,
};
use vstd::arithmetic::div_mod::*;
use vstd::arithmetic::power2::*;
use vstd::prelude::*;

verus! {

/// The weights of a model are its parameters times the bytes per weight, but for two
/// roundings, to the nearest byte; for every scheme.
pub proof fn law_weights_follow_the_scheme(m: ModelShape, weight: Datum)
    requires
        0 < m.n_params <= 0x4_0000_0000_0000,
        weight.spans(10, 10),
    ensures
        exists|bytes: nat| #[trigger]
            close::close(bytes, m.n_params as nat * weight->mag, 2) && 2 * rounding::distance(
                m.weights(weight) as nat,
                bytes,
                binary64::one(),
            ) <= binary64::one(),
{
    let n = m.n_params as nat;
    let one = binary64::one();
    let y = weight->mag;
    lemma2_to64();
    lemma2_to64_rest();
    lemma_pow2_pos(1074);
    close::lemma_of_nat_close(n, 50);
    let nd = Datum::of_nat(n);
    close::lemma_times_close(nd, 0, 50, weight, 10, 10);
    let p = nd.times(weight)->mag;
    assert((n * one) * y == (n * y) * one) by (nonlinear_arith);
    close::lemma_close_cancel(p, n * y, one, 1);
    close::lemma_close_more(p, n * y, 1, 2);
    let q = (2 * p + one) / (2 * one);
    lemma_fundamental_div_mod((2 * p + one) as int, (2 * one) as int);
    lemma_mod_bound((2 * p + one) as int, (2 * one) as int);
    assert((2 * one) * q == 2 * (q * one)) by (nonlinear_arith);
    lemma_pow2_adds(1074, 60);
    assert(q <= 0x1000_0000_0000_0001) by (nonlinear_arith)
        requires
            p <= one * 0x1000_0000_0000_0000,
            2 * (q * one) <= 2 * p + one,
            one > 0,
    ;
    reveal(Datum::round_u64);
    assert(m.weights(weight) == q);
}

proof fn lemma_round_monotone(a: Datum, b: Datum)
    requires
        a.at_most(b),
        Datum::zero().at_most(a),
    ensures
        a.round_u64() <= b.round_u64(),
{
    reveal(Datum::round_u64);
    lemma_pow2_pos(1074);
    if a is Finite && b is Finite {
        let one = binary64::one();
        if a->mag <= b->mag {
            lemma_div_is_ordered(
                (2 * a->mag + one) as int,
                (2 * b->mag + one) as int,
                (2 * one) as int,
            );
        }
        lemma_fundamental_div_mod(one as int, (2 * one) as int);
        lemma_basic_div(one as int, (2 * one) as int);
    }
}

/// A heavier scheme, or a model of more parameters, never has fewer bytes of weights.
pub proof fn law_heavier_schemes_weigh_no_less(
    small: ModelShape,
    large: ModelShape,
    light: Datum,
    heavy: Datum,
)
    requires
        small.n_params <= large.n_params,
        light.is_size(),
        heavy.is_size(),
        light.at_most(heavy),
    ensures
        small.weights(light) <= large.weights(heavy),
{
    lemma2_to64();
    lemma2_to64_rest();
    let a = Datum::of_nat(small.n_params as nat);
    let b = Datum::of_nat(large.n_params as nat);
    order::lemma_of_nat_within(small.n_params as nat, 64);
    order::lemma_of_nat_within(large.n_params as nat, 64);
    order::lemma_of_nat_monotone(small.n_params as nat, large.n_params as nat);
    order::lemma_times_monotone(a, light, heavy);
    order::lemma_times_monotone(heavy, a, b);
    order::lemma_times_commutes(heavy, a);
    order::lemma_times_commutes(heavy, b);
    order::lemma_at_most_transitive(a.times(light), a.times(heavy), b.times(heavy));
    sizes::lemma_product_not_negative(a, light);
    lemma_round_monotone(a.times(light), b.times(heavy));
}

/// So many sequences fit, and one more does not, but for one rounding.
pub open spec fn fills(count: i64, pool: Datum, per_seq: nat) -> bool {
    let size = per_seq * binary64::one();
    &&& count >= 0
    &&& count >= 1 ==> pool.units() > 0 && (count * size) * 0x1F_FFFF_FFFF_FFFF <= pool.units()
        * 0x20_0000_0000_0001
    &&& count < i64::MAX && pool.units() >= 0 ==> pool.units() * 0x1F_FFFF_FFFF_FFFF < ((count + 1)
        * size) * 0x20_0000_0000_0001
}

proof fn lemma_sequences_fill(pool: Datum, per_seq: nat)
    requires
        pool is Finite,
        pool.representable(),
        0 < per_seq < TWO_53,
    ensures
        fills(fit::not_negative(fit::sequences(pool, per_seq)), pool, per_seq),
{
    let one = binary64::one();
    let b = Datum::of_nat(per_seq);
    let y = per_seq * one;
    let x = pool->mag;
    let k = fit::not_negative(fit::sequences(pool, per_seq));
    lemma2_to64();
    lemma2_to64_rest();
    lemma_pow2_pos(1074);
    binary64::lemma_of_nat_exact(per_seq);
    assert(y > 0) by (nonlinear_arith)
        requires
            y == per_seq * one,
            per_seq > 0,
            one > 0,
    ;
    sizes::law_a_sequence_needs_its_bytes(pool, per_seq);
    reveal(Datum::less);
    if k < 1 {
        assert(pool.units() < y);
        assert(k == 0);
        assert((k + 1) * y == y) by (nonlinear_arith)
            requires
                k == 0,
        ;
    } else {
        assert(x >= y && !pool->Finite_neg);
        lemma_pow2_strictly_increases(52, 1074);
        assert(x * one >= TWO_52 * y) by (nonlinear_arith)
            requires
                x >= y,
                one >= TWO_52,
        ;
        close::lemma_rounded_close(x * one, y);
        let v = rounding::rounded(x * one, y);
        vstd::arithmetic::power::lemma_pow1(0x1F_FFFF_FFFF_FFFF);
        vstd::arithmetic::power::lemma_pow1(0x20_0000_0000_0001);
        reveal(Datum::over);
        reveal(Datum::floor_i64);
        let c = k as nat;
        lemma_pow2_adds(1074, 64);
        lemma_pow2_strictly_increases(1138, 2098);
        lemma_fundamental_div_mod(v as int, one as int);
        lemma_mod_bound(v as int, one as int);
        let f = v / one;
        assert(c * one <= v) by (nonlinear_arith)
            requires
                c <= f || v >= one * 0x1_0000_0000_0000_0000,
                c <= 0x1_0000_0000_0000_0000,
                v >= one * f,
                one > 0,
        ;
        assert((c * y) * 0x1F_FFFF_FFFF_FFFF <= x * 0x20_0000_0000_0001) by (nonlinear_arith)
            requires
                c * one <= v,
                (v * y) * 0x1F_FFFF_FFFF_FFFF <= (x * one) * 0x20_0000_0000_0001,
                one > 0,
        {
            assert((c * one) * y <= v * y);
            assert(((c * y) * 0x1F_FFFF_FFFF_FFFF) * one <= (x * 0x20_0000_0000_0001) * one);
        }
        if k < i64::MAX {
            assert(c == f);
            assert(v < (c + 1) * one) by (nonlinear_arith)
                requires
                    v < one * c + one,
            ;
            assert(x * 0x1F_FFFF_FFFF_FFFF < ((c + 1) * y) * 0x20_0000_0000_0001)
                by (nonlinear_arith)
                requires
                    v < (c + 1) * one,
                    (x * one) * 0x1F_FFFF_FFFF_FFFF <= (v * y) * 0x20_0000_0000_0001,
                    one > 0,
                    y > 0,
            {
                assert(v * y < ((c + 1) * one) * y);
                assert((x * 0x1F_FFFF_FFFF_FFFF) * one < (((c + 1) * y) * 0x20_0000_0000_0001)
                    * one);
            }
        }
    }
}

/// The sequences of a report fill its pool: low, best and high count are how often the
/// bytes of one sequence go into the low, best and high pool.
pub proof fn law_sequences_fill_the_pool<Q: QuantScheme + ?Sized, E: Allocator + ?Sized>(
    r: FitReport,
    m: ModelShape,
    hw: DeviceSet,
    q: &Q,
    e: &E,
    w: Workload,
    c: Calibration,
)
    requires
        fit::reports(r, m, hw, q, e, w, c),
        sizes::finite(r.kv_pool@),
        0 < r.bytes_per_seq < TWO_53,
    ensures
        fills(r.max_seqs.0, r.kv_pool.low@, r.bytes_per_seq as nat),
        fills(r.max_seqs.1, r.kv_pool.best@, r.bytes_per_seq as nat),
        fills(r.max_seqs.2, r.kv_pool.high@, r.bytes_per_seq as nat),
{
    order::law_numbers_are_representable(r.kv_pool.low);
    order::law_numbers_are_representable(r.kv_pool.best);
    order::law_numbers_are_representable(r.kv_pool.high);
    assert(r.kv_pool@.low == r.kv_pool.low@);
    assert(r.kv_pool@.best == r.kv_pool.best@);
    assert(r.kv_pool@.high == r.kv_pool.high@);
    lemma_sequences_fill(r.kv_pool.low@, r.bytes_per_seq as nat);
    lemma_sequences_fill(r.kv_pool.best@, r.bytes_per_seq as nat);
    lemma_sequences_fill(r.kv_pool.high@, r.bytes_per_seq as nat);
}

/// A difference is off by one part in 2^53 at most.
proof fn lemma_minus_error(a: Datum, b: Datum)
    requires
        a is Finite,
        b is Finite,
        -(pow2(2000) as int) < a.units() - b.units() < pow2(2000),
    ensures
        a.minus(b) is Finite,
        ({
            let exact = a.units() - b.units();
            let gap = a.minus(b).units() - exact;
            let size = if exact < 0 {
                -exact
            } else {
                exact
            };
            -size <= gap * TWO_53 <= size
        }),
{
    reveal(Datum::minus);
    let exact = a.units() - b.units();
    let n = (if exact < 0 {
        -exact
    } else {
        exact
    }) as nat;
    if n > 0 {
        let v = rounding::rounded(n, 1);
        rounding::lemma_rounding_error(n, 1);
        if n < TWO_52 {
            rounding::lemma_nearest(n, 1, n, 0);
        }
        rounding::lemma_rounded_monotone(n, 1, pow2(2000), 1);
        assert(pow2(2000) == 1 * (pow2(2000) * 1));
        rounding::lemma_rounded_exact(pow2(2000), 1, 1, 2000);
        lemma_pow2_strictly_increases(2000, 2098);
        assert(v * 1 == v);
    }
}

/// Weights, overhead and pool make up a budget, to one part in 2^50; all in units.
pub open spec fn makes_up(pool: Datum, weights: nat, overhead: Datum, budget: nat) -> bool {
    let parts = weights * binary64::one() + overhead.units();
    let gap = pool.units() + parts - budget;
    &&& pool is Finite
    &&& -(budget + parts) <= gap * 0x4_0000_0000_0000 <= budget + parts
}

proof fn lemma_makes_up(budget: Datum, weights: u64, overhead: Datum)
    requires
        budget.within(900),
        overhead.within(900),
    ensures
        makes_up(
            budget.minus(Datum::of_nat(weights as nat)).minus(overhead),
            weights as nat,
            overhead,
            budget.units() as nat,
        ),
{
    let w = Datum::of_nat(weights as nat);
    let one = binary64::one();
    lemma2_to64();
    lemma2_to64_rest();
    order::lemma_of_nat_within(weights as nat, 64);
    lemma_pow2_strictly_increases(1138, 1974);
    lemma_pow2_adds(1974, 26);
    if weights > 0 {
        close::lemma_of_nat_close(weights as nat, 64);
        vstd::arithmetic::power::lemma_pow1(0x1F_FFFF_FFFF_FFFF);
        vstd::arithmetic::power::lemma_pow1(0x20_0000_0000_0001);
    } else {
        binary64::lemma_of_nat_exact(0);
        assert(0 * one == 0);
    }
    let exact = weights as nat * one;
    let m = w.units();
    assert(m * 0x1F_FFFF_FFFF_FFFF <= exact * 0x20_0000_0000_0001);
    assert(exact * 0x1F_FFFF_FFFF_FFFF <= m * 0x20_0000_0000_0001);
    lemma_pow2_pos(1974);
    lemma_minus_error(budget, w);
    let rest = budget.minus(w);
    lemma_minus_error(rest, overhead);
    let pool = rest.minus(overhead);
    let b = budget.units();
    let o = overhead.units();
    let x = rest.units();
    assert(-(m + exact) <= (m - exact) * 0x20_0000_0000_0000 <= m + exact);
    assert(-(b + m) <= (x - (b - m)) * 0x20_0000_0000_0000 <= b + m);
    assert(-2 * (b + m) <= x <= 2 * (b + m));
    assert(-(2 * (b + m) + o) <= (pool.units() - (x - o)) * 0x20_0000_0000_0000 <= 2 * (b + m) + o);
}

/// Memory is conserved on every engine: weights, overhead and pool make up what the
/// engine shares out, which is VRAM, or VRAM times its share. A high overhead belongs to
/// the low end of the pool.
pub proof fn law_pools_make_up_the_memory(
    total_vram: u64,
    weights: u64,
    overhead: Band,
    vllm: Vllm,
)
    requires
        total_vram > 0,
        vllm.util@.spans(20, 1),
        overhead.low.within(900),
        overhead.best.within(900),
        overhead.high.within(900),
    ensures
        exists|budget: nat| #[trigger]
            close::close(budget, total_vram as nat * vllm.util@->mag, 2) && ({
                let pool = vllm.pool(total_vram, weights, overhead);
                &&& makes_up(pool.low, weights as nat, overhead.high, budget)
                &&& makes_up(pool.best, weights as nat, overhead.best, budget)
                &&& makes_up(pool.high, weights as nat, overhead.low, budget)
            }),
        exists|budget: nat| #[trigger]
            close::close(budget, total_vram as nat * binary64::one(), 1) && ({
                let pool = LlamaCpp.pool(total_vram, weights, overhead);
                &&& makes_up(pool.low, weights as nat, overhead.high, budget)
                &&& makes_up(pool.best, weights as nat, overhead.best, budget)
                &&& makes_up(pool.high, weights as nat, overhead.low, budget)
            }),
{
    let one = binary64::one();
    let n = total_vram as nat;
    let v = Datum::of_nat(n);
    let u = vllm.util@->mag;
    lemma2_to64();
    lemma2_to64_rest();
    lemma_pow2_pos(1074);
    close::lemma_of_nat_close(n, 64);
    lemma_pow2_strictly_increases(1138, 1974);
    lemma_makes_up(v, weights, overhead.low);
    lemma_makes_up(v, weights, overhead.best);
    lemma_makes_up(v, weights, overhead.high);
    let b = v->mag;
    assert(close::close(b, n * one, 1));
    close::lemma_times_close(v, 0, 64, vllm.util@, 20, 1);
    let grab = v.times(vllm.util@);
    lemma_pow2_strictly_increases(1139, 1974);
    lemma_makes_up(grab, weights, overhead.low);
    lemma_makes_up(grab, weights, overhead.best);
    lemma_makes_up(grab, weights, overhead.high);
    let g = grab->mag;
    close::lemma_close_scaled(b, n * one, u, 1);
    assert((n * one) * u == (n * u) * one) by (nonlinear_arith);
    close::lemma_close_through(g * one, b * u, 1, (n * u) * one, 1);
    close::lemma_close_cancel(g, n * u, one, 2);
    assert(close::close(g, n * u, 2));
}

/// An engine that reserves all of VRAM has the pool of one that reserves nothing.
pub proof fn law_reserving_all_is_reserving_nothing(
    total_vram: u64,
    weights: u64,
    overhead: Band,
    vllm: Vllm,
)
    requires
        vllm.util@ == Datum::of_nat(1),
    ensures
        vllm.pool(total_vram, weights, overhead) == LlamaCpp.pool(total_vram, weights, overhead),
{
    binary64::lemma_of_nat_finite(total_vram as nat);
    order::lemma_of_nat_representable(total_vram as nat);
    order::lemma_times_one(Datum::of_nat(total_vram as nat));
}

/// A larger share gives no smaller a pool.
pub proof fn law_a_larger_share_is_no_worse(
    total_vram: u64,
    weights: u64,
    overhead: Band,
    small: Vllm,
    large: Vllm,
)
    requires
        small.util@.is_size(),
        large.util@.is_size(),
        small.util@.at_most(large.util@),
        sizes::finite(overhead),
    ensures
        sizes::below(
            small.pool(total_vram, weights, overhead),
            large.pool(total_vram, weights, overhead),
        ),
{
    let v = Datum::of_nat(total_vram as nat);
    sizes::lemma_of_nat_size(total_vram as nat);
    order::lemma_times_monotone(v, small.util@, large.util@);
    sizes::lemma_left_over_monotone(
        v.times(small.util@),
        v.times(large.util@),
        weights,
        overhead,
    );
}

/// What an engine reserves at startup is VRAM times its share, in whole bytes; an engine
/// without a share reserves nothing.
pub proof fn law_what_is_reserved<Q: QuantScheme + ?Sized>(
    r: FitReport,
    m: ModelShape,
    hw: DeviceSet,
    q: &Q,
    e: Engine,
    w: Workload,
    c: Calibration,
)
    requires
        fit::reports(r, m, hw, q, &e, w, c),
        0 < r.total_vram <= i64::MAX,
        e matches Engine::Vllm(v) ==> v.util@.spans(20, 0),
    ensures
        match e {
            Engine::Vllm(v) => r.managed_pool matches Some(bytes) && exists|share: nat| #[trigger]
                close::close(share, r.total_vram as nat * v.util@->mag, 2) && bytes
                    * binary64::one() <= share < (bytes + 1) * binary64::one(),
            Engine::LlamaCpp(_) => r.managed_pool is None,
        },
{
    if let Engine::Vllm(engine) = e {
        let one = binary64::one();
        let n = r.total_vram as nat;
        let u = engine.util@->mag;
        let v = Datum::of_nat(n);
        lemma2_to64();
        lemma2_to64_rest();
        lemma_pow2_pos(1074);
        close::lemma_of_nat_close(n, 63);
        close::lemma_times_close(v, 0, 63, engine.util@, 20, 0);
        let g = v.times(engine.util@)->mag;
        let b = v->mag;
        close::lemma_close_scaled(b, n * one, u, 1);
        assert((n * one) * u == (n * u) * one) by (nonlinear_arith);
        close::lemma_close_through(g * one, b * u, 1, (n * u) * one, 1);
        close::lemma_close_cancel(g, n * u, one, 2);
        reveal(Datum::trunc_u64);
        lemma_fundamental_div_mod(g as int, one as int);
        lemma_mod_bound(g as int, one as int);
        let f = g / one;
        lemma_pow2_adds(1074, 63);
        assert(f <= 0x8000_0000_0000_0000) by (nonlinear_arith)
            requires
                one * f <= g,
                g <= one * 0x8000_0000_0000_0000,
                one > 0,
        ;
        assert(f * one == one * f && (f + 1) * one == one * f + one) by (nonlinear_arith);
    }
}

proof fn lemma_activation_close(m: ModelShape)
    requires
        m.d_model > 0,
    ensures
        Calibration::activation(m).spans(12, 32),
        close::close(
            Calibration::activation(m)->mag * 4096,
            m.d_model as nat * binary64::one(),
            1,
        ),
{
    let one = binary64::one();
    let d = m.d_model as nat;
    lemma2_to64();
    lemma_pow2_pos(1074);
    close::lemma_of_nat_close(d, 32);
    close::lemma_of_nat_close(4096, 12);
    close::lemma_over_close(Datum::of_nat(d), 0, 32, Datum::of_nat(4096), 0, 12);
    let a = Calibration::activation(m)->mag;
    assert(a * (4096 * one) == (a * 4096) * one) by (nonlinear_arith);
    close::lemma_close_cancel(a * 4096, d * one, one, 1);
}

proof fn lemma_per_device_close(m: ModelShape)
    requires
        m.d_model > 0,
    ensures
        ({
            let runtime: nat = if m.active_params != m.n_params {
                70
            } else {
                28
            };
            &&& Calibration::per_device(m).spans(7, 34)
            &&& close::close(
                Calibration::per_device(m)->mag * 409600,
                (runtime * 4096 + 55 * m.d_model as nat) * binary64::one(),
                4,
            )
        }),
{
    let one = binary64::one();
    let d = m.d_model as nat;
    let act = Calibration::activation(m);
    let runtime: nat = if m.active_params != m.n_params {
        70
    } else {
        28
    };
    lemma_pow2_pos(1074);
    lemma_activation_close(m);
    close::lemma_literal_close(55);
    close::lemma_literal_close(runtime);
    let l = Datum::literal(55, 100);
    close::lemma_times_close(l, 7, 1, act, 12, 32);
    let graphs = l.times(act);
    let g = graphs->mag;
    let x = l->mag;
    let a = act->mag;
    // g * 409600 * one ~ (l * 100) * (act * 4096) ~ (55 * one) * (d * one)
    close::lemma_close_scaled(g * one, x * a, 409600, 1);
    assert((g * one) * 409600 == (g * 409600) * one) by (nonlinear_arith);
    assert((x * a) * 409600 == (x * 100) * (a * 4096)) by (nonlinear_arith);
    close::lemma_close_times(x * 100, 55 * one, 1, a * 4096, d * one, 1);
    assert((55 * one) * (d * one) == ((55 * d) * one) * one) by (nonlinear_arith);
    close::lemma_close_through(
        (g * 409600) * one,
        (x * 100) * (a * 4096),
        1,
        ((55 * d) * one) * one,
        2,
    );
    close::lemma_close_cancel(g * 409600, (55 * d) * one, one, 3);
    let rt = Datum::literal(runtime, 100);
    let r = rt->mag;
    close::lemma_close_scaled(r * 100, runtime * one, 4096, 1);
    assert((r * 100) * 4096 == r * 409600);
    assert((runtime * one) * 4096 == (runtime * 4096) * one) by (nonlinear_arith);
    close::lemma_close_more(r * 409600, (runtime * 4096) * one, 1, 3);
    close::lemma_close_plus(
        r * 409600,
        (runtime * 4096) * one,
        g * 409600,
        (55 * d) * one,
        3,
    );
    let want = (runtime * 4096 + 55 * d) * one;
    assert((runtime * 4096) * one + (55 * d) * one == want) by (nonlinear_arith)
        requires
            want == (runtime * 4096 + 55 * d) * one,
    ;
    lemma_pow2_strictly_increases(1075, 1107);
    close::lemma_plus_spans(rt, 7, 33, graphs);
    let p = Calibration::per_device(m)->mag;
    close::lemma_close_scaled(p, r + g, 409600, 1);
    assert((r + g) * 409600 == r * 409600 + g * 409600);
    close::lemma_close_through(p * 409600, (r + g) * 409600, 1, want, 3);
}

/// The measured overhead, in GiB, is `d_model / 4096` once, and for each device 0.28 (0.70
/// for a mixture of experts) and `0.55 * d_model / 4096`: affine in the count of devices,
/// but for rounding. Its band reaches a fifth of it to either side.
pub proof fn law_measured_overhead_is_affine(c: Calibration, m: ModelShape, count: u32)
    requires
        c.is_measured(m, count),
        m.d_model > 0,
        count > 0,
    ensures
        ({
            let runtime: nat = if m.active_params != m.n_params {
                70
            } else {
                28
            };
            let d = m.d_model as nat;
            let once = 100 * d;
            let each = runtime * 4096 + 55 * d;
            let gib = 1_073_741_824 * binary64::one();
            &&& sizes::finite(c.overhead@)
            &&& close::close(c.overhead.best@->mag * 409600, (once + count as nat * each) * gib, 7)
            &&& close::close(c.overhead.low@->mag * 100, c.overhead.best@->mag * 80, 2)
            &&& close::close(c.overhead.high@->mag * 100, c.overhead.best@->mag * 120, 2)
        }),
{
    let one = binary64::one();
    let runtime: nat = if m.active_params != m.n_params {
        70
    } else {
        28
    };
    let d = m.d_model as nat;
    let n = count as nat;
    let each = runtime * 4096 + 55 * d;
    let once = 100 * d;
    lemma2_to64();
    lemma2_to64_rest();
    lemma_pow2_pos(1074);
    lemma_activation_close(m);
    lemma_per_device_close(m);
    let act = Calibration::activation(m);
    let per = Calibration::per_device(m);
    close::lemma_of_nat_close(n, 32);
    close::lemma_times_close(Datum::of_nat(n), 0, 32, per, 7, 34);
    let all = Datum::of_nat(n).times(per);
    let p = per->mag;
    assert((n * one) * p == (n * p) * one) by (nonlinear_arith);
    close::lemma_close_cancel(all->mag, n * p, one, 1);
    close::lemma_close_scaled(all->mag, n * p, 409600, 1);
    close::lemma_close_scaled(p * 409600, each * one, n, 4);
    assert((p * 409600) * n == (n * p) * 409600 && (each * one) * n == (n * each) * one)
        by (nonlinear_arith);
    close::lemma_close_through(all->mag * 409600, (n * p) * 409600, 1, (n * each) * one, 4);
    let a = act->mag;
    close::lemma_close_scaled(a * 4096, d * one, 100, 1);
    assert((a * 4096) * 100 == a * 409600);
    assert((d * one) * 100 == once * one) by (nonlinear_arith)
        requires
            once == 100 * d,
    ;
    close::lemma_close_more(a * 409600, once * one, 1, 5);
    close::lemma_close_plus(
        a * 409600,
        once * one,
        all->mag * 409600,
        (n * each) * one,
        5,
    );
    let sum = once + n * each;
    assert(once * one + (n * each) * one == sum * one) by (nonlinear_arith)
        requires
            sum == once + n * each,
    ;
    lemma_pow2_strictly_increases(1106, 1140);
    close::lemma_plus_spans(act, 12, 66, all);
    let tot = act.plus(all);
    close::lemma_close_scaled(tot->mag, a + all->mag, 409600, 1);
    assert((a + all->mag) * 409600 == a * 409600 + all->mag * 409600);
    close::lemma_close_through(
        tot->mag * 409600,
        (a + all->mag) * 409600,
        1,
        sum * one,
        5,
    );
    close::lemma_of_nat_close(1_073_741_824, 30);
    close::lemma_times_close(tot, 12, 67, Datum::of_nat(1_073_741_824), 0, 30);
    let best = tot.times(Datum::of_nat(1_073_741_824));
    let t = tot->mag;
    assert(t * (1_073_741_824 * one) == (t * 1_073_741_824) * one) by (nonlinear_arith);
    close::lemma_close_cancel(best->mag, t * 1_073_741_824, one, 1);
    close::lemma_close_scaled(best->mag, t * 1_073_741_824, 409600, 1);
    close::lemma_close_scaled(t * 409600, sum * one, 1_073_741_824, 6);
    assert((t * 409600) * 1_073_741_824 == (t * 1_073_741_824) * 409600);
    assert((sum * one) * 1_073_741_824 == sum * (1_073_741_824 * one)) by (nonlinear_arith);
    close::lemma_close_through(
        best->mag * 409600,
        (t * 1_073_741_824) * 409600,
        1,
        sum * (1_073_741_824 * one),
        6,
    );
    assert(c.overhead@.low == c.overhead.low@);
    assert(c.overhead@.best == c.overhead.best@ && c.overhead.best@ == best);
    assert(c.overhead@.high == c.overhead.high@);
    lemma_scaled_by_hundredths(best, 80);
    lemma_scaled_by_hundredths(best, 120);
}

proof fn lemma_scaled_by_hundredths(a: Datum, n: nat)
    requires
        a.spans(12, 97),
        1 <= n <= 200,
    ensures
        a.times(Datum::literal(n, 100)) is Finite,
        close::close(a.times(Datum::literal(n, 100))->mag * 100, a->mag * n, 2),
{
    let one = binary64::one();
    lemma_pow2_pos(1074);
    close::lemma_literal_close(n);
    let l = Datum::literal(n, 100);
    close::lemma_times_close(a, 12, 97, l, 7, 1);
    let r = a.times(l)->mag;
    let x = a->mag;
    let y = l->mag;
    close::lemma_close_scaled(r * one, x * y, 100, 1);
    assert((r * one) * 100 == (r * 100) * one) by (nonlinear_arith);
    close::lemma_close_scaled(y * 100, n * one, x, 1);
    assert((y * 100) * x == (x * y) * 100 && (n * one) * x == (x * n) * one) by (nonlinear_arith);
    close::lemma_close_through((r * 100) * one, (x * y) * 100, 1, (x * n) * one, 1);
    close::lemma_close_cancel(r * 100, x * n, one, 2);
}

/// The efficiencies that were measured hold for every model and count of devices:
/// 0.55, 0.61 and 0.68 of the bandwidth, and 0.25, 0.40 and 0.55 of the peak.
pub proof fn law_measured_efficiencies_transfer(c: Calibration, m: ModelShape, count: u32)
    requires
        c.is_measured(m, count),
    ensures
        close::close(c.mbu.low@->mag * 100, 55 * binary64::one(), 1),
        close::close(c.mbu.best@->mag * 100, 61 * binary64::one(), 1),
        close::close(c.mbu.high@->mag * 100, 68 * binary64::one(), 1),
        close::close(c.mfu.low@->mag * 100, 25 * binary64::one(), 1),
        close::close(c.mfu.best@->mag * 100, 40 * binary64::one(), 1),
        close::close(c.mfu.high@->mag * 100, 55 * binary64::one(), 1),
        c.mbu.calibrated && !c.mfu.calibrated && c.overhead.calibrated,
{
    close::lemma_literal_close(25);
    close::lemma_literal_close(40);
    close::lemma_literal_close(55);
    close::lemma_literal_close(61);
    close::lemma_literal_close(68);
    assert(c.mbu@.low == c.mbu.low@ && c.mbu@.best == c.mbu.best@ && c.mbu@.high == c.mbu.high@);
    assert(c.mfu@.low == c.mfu.low@ && c.mfu@.best == c.mfu.best@ && c.mfu@.high == c.mfu.high@);
    assert(c.mbu@.calibrated == c.mbu.calibrated && c.mfu@.calibrated == c.mfu.calibrated);
    assert(c.overhead@.calibrated == c.overhead.calibrated);
}

/// Without measurements the overhead is 2.5, 3 and 4 GB whatever the model and the devices,
/// decode reaches 0.60, 0.70 and 0.85 of the bandwidth, prefill 0.30, 0.40 and 0.50 of the
/// peak, and nothing counts as calibrated.
pub proof fn law_rough_bands_are_wide(c: Calibration)
    requires
        c.is_uncalibrated(),
    ensures
        c.overhead.low@->mag == 2_500_000_000 * binary64::one(),
        c.overhead.best@->mag == 3_000_000_000 * binary64::one(),
        c.overhead.high@->mag == 4_000_000_000 * binary64::one(),
        close::close(c.mbu.low@->mag * 100, 60 * binary64::one(), 1),
        close::close(c.mbu.best@->mag * 100, 70 * binary64::one(), 1),
        close::close(c.mbu.high@->mag * 100, 85 * binary64::one(), 1),
        close::close(c.mfu.low@->mag * 100, 30 * binary64::one(), 1),
        close::close(c.mfu.best@->mag * 100, 40 * binary64::one(), 1),
        close::close(c.mfu.high@->mag * 100, 50 * binary64::one(), 1),
        !c.mbu.calibrated && !c.mfu.calibrated && !c.overhead.calibrated,
{
    close::lemma_literal_close(30);
    close::lemma_literal_close(40);
    close::lemma_literal_close(50);
    close::lemma_literal_close(60);
    close::lemma_literal_close(70);
    close::lemma_literal_close(85);
    binary64::lemma_of_nat_exact(2_500_000_000);
    binary64::lemma_of_nat_exact(3_000_000_000);
    binary64::lemma_of_nat_exact(4_000_000_000);
    assert(c.mbu@.low == c.mbu.low@ && c.mbu@.best == c.mbu.best@ && c.mbu@.high == c.mbu.high@);
    assert(c.mfu@.low == c.mfu.low@ && c.mfu@.best == c.mfu.best@ && c.mfu@.high == c.mfu.high@);
    assert(c.overhead@.low == c.overhead.low@ && c.overhead@.best == c.overhead.best@
        && c.overhead@.high == c.overhead.high@);
    assert(c.mbu@.calibrated == c.mbu.calibrated && c.mfu@.calibrated == c.mfu.calibrated);
    assert(c.overhead@.calibrated == c.overhead.calibrated);
}

/// Sequences that take no memory are not counted: a report on such a setup does not serve.
pub proof fn law_sequences_without_state_are_not_counted<
    Q: QuantScheme + ?Sized,
    E: Allocator + ?Sized,
>(r: FitReport, m: ModelShape, hw: DeviceSet, q: &Q, e: &E, w: Workload, c: Calibration)
    requires
        fit::reports(r, m, hw, q, e, w, c),
        r.bytes_per_seq == 0,
    ensures
        r.max_seqs == (0i64, 0i64, 0i64),
        !r.serves,
{
}

} // verus!
