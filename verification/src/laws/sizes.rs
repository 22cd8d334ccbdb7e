//! Laws of memory, capacity and speed.

use crate::binary64;
use crate::binary64::Datum;
use crate::choice;
use crate::choice::Engine;
use crate::fit;
use crate::fit::FitReport;
use crate::order;
use crate::registry;
use crate::rounding;
use crate::rounding::TWO_53;
use crate::sizing;
use crate::sizing::{
    Allocator, Band, Calibration, DeviceSet, LlamaCpp, ModelShape, QuantScheme, StateGeometry,
    Workload,
};
use vstd::arithmetic::power2::*;
use vstd::prelude::*;

verus! {

/// Attention state is linear in the sequence length: `n` tokens take `n` times the
/// bytes of one.
pub proof fn law_attention_state_is_linear(m: ModelShape, n: nat, kv_bytes: nat)
    requires
        !(m.state is Ssm),
    ensures
        m.state_at(n, kv_bytes) == n * m.state_at(1, kv_bytes),
{
    let p = m.state.per_token();
    let layers = m.layers as nat;
    assert((p * n * kv_bytes) * layers == n * ((p * 1 * kv_bytes) * layers)) by (nonlinear_arith);
}

/// Recurrent state is constant in the sequence length, and does not depend on the
/// KV dtype.
pub proof fn law_recurrent_state_is_constant(
    m: ModelShape,
    n1: nat,
    n2: nat,
    kv_bytes1: nat,
    kv_bytes2: nat,
)
    requires
        m.state is Ssm,
    ensures
        m.state_at(n1, kv_bytes1) == m.state_at(n2, kv_bytes2),
{
}

/// The KV cache in fp8 takes half of what it takes in fp16, whatever the weights
/// are held in.
pub proof fn law_fp8_halves_the_kv_cache(m: ModelShape, n: nat)
    requires
        !(m.state is Ssm),
    ensures
        m.state_at(n, 2) == 2 * m.state_at(n, 1),
{
    let p = m.state.per_token();
    let layers = m.layers as nat;
    assert((p * n * 2) * layers == 2 * ((p * n * 1) * layers)) by (nonlinear_arith);
}

/// Grouped-query attention shrinks the state of multi-head attention by the ratio
/// of the heads, linearly.
pub proof fn law_gqa_shrinks_linearly(
    head_dim: u32,
    n_heads: u32,
    n_kv_heads: u32,
    n: nat,
    kv_bytes: nat,
)
    ensures
        (StateGeometry::Mha { head_dim, n_heads }).layer_bytes(n, kv_bytes) * n_kv_heads as nat == (
        StateGeometry::Gqa { head_dim, n_kv_heads }).layer_bytes(n, kv_bytes) * n_heads as nat,
{
    let h = head_dim as nat;
    let a = n_heads as nat;
    let b = n_kv_heads as nat;
    assert(((2 * a * h) * n * kv_bytes) * b == ((2 * b * h) * n * kv_bytes) * a)
        by (nonlinear_arith);
}

/// Latent attention keeps one latent and one rope key for each token, whatever the
/// count of heads; it takes less than grouped-query attention exactly where those
/// are fewer than the keys and values of its heads.
pub proof fn law_mla_has_no_head_factor(
    d_c: u32,
    d_rope: u32,
    head_dim: u32,
    n_kv_heads: u32,
    n: nat,
    kv_bytes: nat,
)
    requires
        n > 0,
        kv_bytes > 0,
    ensures
        (StateGeometry::Mla { d_c, d_rope }).layer_bytes(n, kv_bytes) == (d_c + d_rope) * n
            * kv_bytes,
        (StateGeometry::Mla { d_c, d_rope }).layer_bytes(n, kv_bytes) < (StateGeometry::Gqa {
            head_dim,
            n_kv_heads,
        }).layer_bytes(n, kv_bytes) <==> d_c + d_rope < 2 * n_kv_heads * head_dim,
{
    let x = d_c as nat + d_rope as nat;
    let y = 2 * n_kv_heads as nat * head_dim as nat;
    assert(x * n * kv_bytes < y * n * kv_bytes <==> x < y) by (nonlinear_arith)
        requires
            n > 0,
            kv_bytes > 0,
    ;
}

/// The bytes of a token, over all layers: `2 * n_heads * head_dim * L * kv_bytes` for
/// multi-head attention, `2 * n_kv * head_dim * L * kv_bytes` for grouped-query attention,
/// `(d_c + d_rope) * L * kv_bytes` for latent attention, and what each layer holds for
/// recurrent state.
pub proof fn law_kv_bytes_per_token(m: ModelShape, kv_bytes: nat)
    ensures
        m.state matches StateGeometry::Mha { head_dim, n_heads } ==> m.state_at(1, kv_bytes) == 2
            * n_heads * head_dim * m.layers * kv_bytes,
        m.state matches StateGeometry::Ssm { state_bytes_per_layer } ==> m.state_at(1, kv_bytes)
            == state_bytes_per_layer * m.layers,
        m.state matches StateGeometry::Gqa { head_dim, n_kv_heads } ==> m.state_at(1, kv_bytes) == 2
            * n_kv_heads * head_dim * m.layers * kv_bytes,
        m.state matches StateGeometry::Mla { d_c, d_rope } ==> m.state_at(1, kv_bytes) == (d_c
            + d_rope) * m.layers * kv_bytes,
{
    let p = m.state.per_token() as int;
    let l = m.layers as int;
    assert((p * 1 * kv_bytes) * l == p * l * kv_bytes) by (nonlinear_arith);
}

/// Schemes of whole bytes give exact weights, as long as those are below 2^53.
pub proof fn law_whole_byte_weights_are_exact(m: ModelShape, bytes: nat)
    requires
        0 < bytes < TWO_53,
        m.n_params < TWO_53,
        m.n_params * bytes < TWO_53,
    ensures
        m.weights(Datum::of_nat(bytes)) == m.n_params * bytes,
{
    let n = m.n_params as nat;
    let one = binary64::one();
    let v = n * bytes;
    binary64::lemma_of_nat_exact(n);
    binary64::lemma_of_nat_exact(bytes);
    binary64::lemma_of_nat_exact(v);
    lemma_pow2_pos(1074);
    assert((n * one) * (bytes * one) == v * (pow2(1074) * one)) by (nonlinear_arith)
        requires
            v == n * bytes,
            one == pow2(1074),
    ;
    rounding::lemma_rounded_exact((n * one) * (bytes * one), one, v, 1074);
    assert(Datum::of_nat(n).times(Datum::of_nat(bytes)) == Datum::of_nat(v)) by {
        reveal(Datum::times);
        reveal(Datum::of_nat);
        assert(v * one == v * (pow2(1074) * 1));
        rounding::lemma_rounded_exact(v * one, 1, v, 1074);
    }
    assert((2 * (v * one) + one) / (2 * one) == v) by {
        assert(2 * (v * one) + one == v * (2 * one) + one) by (nonlinear_arith);
        vstd::arithmetic::div_mod::lemma_fundamental_div_mod_converse(
            (2 * (v * one) + one) as int,
            (2 * one) as int,
            v as int,
            one as int,
        );
    }
    reveal(Datum::round_u64);
}

/// Low, best and high come in that order.
pub open spec fn ordered(b: Band) -> bool {
    b.low.at_most(b.best) && b.best.at_most(b.high)
}

/// A band of finite numbers.
pub open spec fn finite(b: Band) -> bool {
    b.low is Finite && b.best is Finite && b.high is Finite
}

proof fn lemma_left_over_ordered(budget: Datum, weights: u64, overhead: Band)
    requires
        !(budget is Nan),
        finite(overhead),
        ordered(overhead),
    ensures
        ordered(sizing::left_over(budget, weights, overhead)),
{
    let w = Datum::of_nat(weights as nat);
    binary64::lemma_of_nat_finite(weights as nat);
    let rest = budget.minus(w);
    assert(!(rest is Nan)) by {
        reveal(Datum::minus);
    }
    order::lemma_minus_antitone(rest, overhead.low, overhead.best);
    order::lemma_minus_antitone(rest, overhead.best, overhead.high);
}

/// What an engine has to share out: all of VRAM, or the part that it reserves.
pub open spec fn budget(e: Engine, total_vram: u64) -> Datum {
    match e {
        Engine::Vllm(v) => Datum::of_nat(total_vram as nat).times(v.util@),
        Engine::LlamaCpp(_) => Datum::of_nat(total_vram as nat),
    }
}

/// The share that an engine reserves, if it reserves one, is a finite number.
pub open spec fn has_finite_share(e: Engine) -> bool {
    e matches Engine::Vllm(v) ==> v.util@ is Finite
}

/// The share that an engine reserves, if it reserves one, lies between none and all.
pub open spec fn has_proper_share(e: Engine) -> bool {
    e matches Engine::Vllm(v) ==> v.util@.is_size() && v.util@.at_most(Datum::of_nat(1))
}

proof fn lemma_budget(e: Engine, total_vram: u64)
    requires
        has_finite_share(e),
    ensures
        !(budget(e, total_vram) is Nan),
{
    binary64::lemma_of_nat_finite(total_vram as nat);
    reveal(Datum::times);
}

/// The pool of an engine is a band in order, low to high, for every overhead that
/// is one.
pub proof fn law_pools_are_ordered(e: Engine, total_vram: u64, weights: u64, overhead: Band)
    requires
        finite(overhead),
        ordered(overhead),
        has_finite_share(e),
    ensures
        ordered(e.pool(total_vram, weights, overhead)),
{
    lemma_budget(e, total_vram);
    lemma_left_over_ordered(budget(e, total_vram), weights, overhead);
}

proof fn lemma_of_nat_positive(n: nat)
    requires
        0 < n <= u64::MAX,
    ensures
        Datum::of_nat(n).is_positive(),
{
    binary64::lemma_of_nat_finite(n);
    binary64::lemma_of_nat_exact(1);
    order::lemma_of_nat_monotone(1, n);
    reveal(Datum::of_nat);
    lemma_pow2_pos(1074);
}

/// A larger pool holds no fewer sequences.
pub proof fn law_sequences_are_monotone(small: Datum, large: Datum, per_seq: nat)
    requires
        small.at_most(large),
        per_seq <= u64::MAX,
    ensures
        fit::sequences(small, per_seq) <= fit::sequences(large, per_seq),
{
    if per_seq > 0 {
        lemma_of_nat_positive(per_seq);
        order::lemma_over_monotone(small, large, Datum::of_nat(per_seq));
        order::lemma_floor_monotone(
            small.over(Datum::of_nat(per_seq)),
            large.over(Datum::of_nat(per_seq)),
        );
    }
}

/// The sequences of a report come in order, low to high, where its pool does.
pub proof fn law_max_seqs_are_ordered<Q: QuantScheme + ?Sized, E: Allocator + ?Sized>(
    r: FitReport,
    m: ModelShape,
    hw: DeviceSet,
    q: &Q,
    e: &E,
    w: Workload,
    c: Calibration,
)
    requires
        fit::reports(r, m, hw, q, e, w, c),
        ordered(r.kv_pool@),
    ensures
        0 <= r.max_seqs.0 <= r.max_seqs.1 <= r.max_seqs.2,
{
    law_sequences_are_monotone(r.kv_pool@.low, r.kv_pool@.best, r.bytes_per_seq as nat);
    law_sequences_are_monotone(r.kv_pool@.best, r.kv_pool@.high, r.bytes_per_seq as nat);
}

/// One band lies nowhere above the other.
pub open spec fn below(a: Band, b: Band) -> bool {
    a.low.at_most(b.low) && a.best.at_most(b.best) && a.high.at_most(b.high)
}

pub proof fn lemma_left_over_monotone(small: Datum, large: Datum, weights: u64, overhead: Band)
    requires
        small.at_most(large),
        finite(overhead),
    ensures
        below(
            sizing::left_over(small, weights, overhead),
            sizing::left_over(large, weights, overhead),
        ),
{
    let w = Datum::of_nat(weights as nat);
    binary64::lemma_of_nat_finite(weights as nat);
    order::lemma_minus_monotone(small, large, w);
    order::lemma_minus_monotone(small.minus(w), large.minus(w), overhead.low);
    order::lemma_minus_monotone(small.minus(w), large.minus(w), overhead.best);
    order::lemma_minus_monotone(small.minus(w), large.minus(w), overhead.high);
}

pub proof fn lemma_of_nat_size(n: nat)
    requires
        n <= u64::MAX,
    ensures
        Datum::of_nat(n).is_size(),
{
    binary64::lemma_of_nat_finite(n);
    reveal(Datum::of_nat);
}

/// More VRAM gives an engine no smaller a pool.
pub proof fn law_more_vram_is_no_worse(
    e: Engine,
    small: u64,
    large: u64,
    weights: u64,
    overhead: Band,
)
    requires
        small <= large,
        finite(overhead),
        has_proper_share(e),
    ensures
        below(e.pool(small, weights, overhead), e.pool(large, weights, overhead)),
{
    let a = Datum::of_nat(small as nat);
    let b = Datum::of_nat(large as nat);
    lemma_of_nat_size(small as nat);
    lemma_of_nat_size(large as nat);
    order::lemma_of_nat_monotone(small as nat, large as nat);
    if let Engine::Vllm(v) = e {
        order::lemma_times_monotone(v.util@, a, b);
        order::lemma_times_commutes(v.util@, a);
        order::lemma_times_commutes(v.util@, b);
    }
    lemma_left_over_monotone(budget(e, small), budget(e, large), weights, overhead);
}

/// Lighter weights leave an engine no smaller a pool.
pub proof fn law_lighter_weights_are_no_worse(
    e: Engine,
    total_vram: u64,
    light: u64,
    heavy: u64,
    overhead: Band,
)
    requires
        light <= heavy,
        finite(overhead),
        has_finite_share(e),
    ensures
        below(e.pool(total_vram, heavy, overhead), e.pool(total_vram, light, overhead)),
{
    let all = budget(e, total_vram);
    let a = Datum::of_nat(light as nat);
    let b = Datum::of_nat(heavy as nat);
    lemma_budget(e, total_vram);
    binary64::lemma_of_nat_finite(light as nat);
    binary64::lemma_of_nat_finite(heavy as nat);
    order::lemma_of_nat_monotone(light as nat, heavy as nat);
    order::lemma_minus_antitone(all, a, b);
    order::lemma_minus_monotone(all.minus(b), all.minus(a), overhead.low);
    order::lemma_minus_monotone(all.minus(b), all.minus(a), overhead.best);
    order::lemma_minus_monotone(all.minus(b), all.minus(a), overhead.high);
}

proof fn lemma_budget_within_vram(e: Engine, total_vram: u64)
    requires
        has_proper_share(e),
    ensures
        budget(e, total_vram).at_most(Datum::of_nat(total_vram as nat)),
{
    let v = Datum::of_nat(total_vram as nat);
    lemma_of_nat_size(total_vram as nat);
    lemma_of_nat_size(1);
    order::lemma_of_nat_representable(total_vram as nat);
    order::lemma_times_one(v);
    if let Engine::Vllm(engine) = e {
        order::lemma_times_monotone(v, engine.util@, Datum::of_nat(1));
    }
}

/// An engine that reserves a share of VRAM at startup never has a larger pool than
/// one that allocates all of it as it goes.
pub proof fn law_reserving_is_no_better(
    e: Engine,
    total_vram: u64,
    weights: u64,
    overhead: Band,
)
    requires
        finite(overhead),
        has_proper_share(e),
    ensures
        below(
            e.pool(total_vram, weights, overhead),
            LlamaCpp.pool(total_vram, weights, overhead),
        ),
{
    lemma_budget_within_vram(e, total_vram);
    lemma_left_over_monotone(
        budget(e, total_vram),
        Datum::of_nat(total_vram as nat),
        weights,
        overhead,
    );
}

/// The pool never exceeds the VRAM, whatever the weights and the overhead are.
pub proof fn law_pool_is_within_vram(e: Engine, total_vram: u64, weights: u64, overhead: Band)
    requires
        finite(overhead),
        ordered(overhead),
        overhead.low.is_size(),
        has_proper_share(e),
    ensures
        e.pool(total_vram, weights, overhead).high.at_most(Datum::of_nat(total_vram as nat)),
{
    let v = Datum::of_nat(total_vram as nat);
    let w = Datum::of_nat(weights as nat);
    lemma_of_nat_size(total_vram as nat);
    lemma_of_nat_size(weights as nat);
    order::lemma_of_nat_representable(total_vram as nat);
    order::lemma_minus_at_most(v, w);
    order::lemma_minus_monotone(v.minus(w), v, overhead.low);
    order::lemma_minus_at_most(v, overhead.low);
    order::lemma_at_most_transitive(v.minus(w).minus(overhead.low), v.minus(overhead.low), v);
    law_reserving_is_no_better(e, total_vram, weights, overhead);
    order::lemma_at_most_transitive(
        e.pool(total_vram, weights, overhead).high,
        LlamaCpp.pool(total_vram, weights, overhead).high,
        v,
    );
}

/// The exact difference of two integers below 2^53.
proof fn lemma_minus_exact(a: Datum, x: int, n: nat)
    requires
        a is Finite,
        a.units() == x * binary64::one(),
        n < TWO_53,
        -(TWO_53 as int) < x - n < TWO_53,
    ensures
        a.minus(Datum::of_nat(n)) is Finite,
        a.minus(Datum::of_nat(n)).units() == (x - n) * binary64::one(),
{
    reveal(Datum::minus);
    binary64::lemma_of_nat_exact(n);
    let one = binary64::one() as int;
    let d = x - n;
    lemma_pow2_pos(1074);
    lemma_pow2_pos(2098);
    assert(x * one - n * one == d * one) by (nonlinear_arith)
        requires
            d == x - n,
    ;
    let mag = (if d < 0 {
        -d
    } else {
        d
    }) as nat;
    assert((d < 0 ==> d * one < 0) && (d > 0 ==> d * one > 0) && (d == 0 ==> d * one == 0)
        && -(d * one) == (-d) * one) by (nonlinear_arith)
        requires
            one > 0,
    ;
    binary64::lemma_of_nat_exact(mag);
    assert(mag * one == mag * (pow2(1074) * 1));
    rounding::lemma_rounded_exact(mag * binary64::one(), 1, mag, 1074);
    reveal(Datum::of_nat);
}

/// Memory is conserved: weights, overhead and the pool make up what there is to share
/// out, exactly, as long as the byte counts are whole and below 2^53.
pub proof fn law_memory_is_conserved(bytes: nat, weights: u64, overhead: nat)
    requires
        bytes < TWO_53,
        weights + overhead < TWO_53,
    ensures
        ({
            let o = Datum::of_nat(overhead);
            let pool = sizing::left_over(Datum::of_nat(bytes), weights, Band::point(o));
            let rest = bytes - weights - overhead;
            &&& finite(pool)
            &&& pool.low.units() == rest * binary64::one()
            &&& pool.best.units() == rest * binary64::one()
            &&& pool.high.units() == rest * binary64::one()
        }),
{
    let all = Datum::of_nat(bytes);
    let w = Datum::of_nat(weights as nat);
    binary64::lemma_of_nat_exact(bytes);
    lemma_minus_exact(all, bytes as int, weights as nat);
    lemma_minus_exact(all.minus(w), bytes - weights, overhead);
}

/// Either way of calibrating.
pub open spec fn is_calibration(c: Calibration, m: ModelShape, count: u32) -> bool {
    c.is_measured(m, count) || c.is_uncalibrated()
}

proof fn lemma_share(n: nat)
    requires
        0 < n <= 100,
    ensures
        Datum::literal(n, 100).within(0),
        Datum::literal(n, 100).is_positive(),
        Datum::literal(n, 100).at_most(Datum::of_nat(1)),
{
    lemma2_to64();
    order::lemma_literal_within(n, 100, 0);
    order::lemma_literal_monotone(n, 100, 1, 1);
    order::lemma_literal_whole(1);
    reveal(Datum::literal);
    let one = binary64::one();
    lemma_pow2_adds(8, 1066);
    lemma_pow2_pos(1066);
    let p = pow2(1066);
    assert(100 * 1 <= (n * one) * 1) by (nonlinear_arith)
        requires
            one == 256 * p,
            p > 0,
            n > 0,
    ;
    assert(1 * 100 <= (n * one) * 1);
    rounding::lemma_rounded_monotone(1, 1, n * one, 100);
    rounding::lemma_nearest(1, 1, 1, 0);
}

proof fn lemma_measured_overhead_within(m: ModelShape, count: u32)
    ensures
        Calibration::activation(m).within(32),
        Calibration::per_device(m).within(33),
        Calibration::overhead_bytes(m, count).within(96),
{
    lemma2_to64();
    lemma2_to64_rest();
    order::lemma_of_nat_within(m.d_model as nat, 32);
    order::lemma_of_nat_within(4096, 12);
    order::lemma_of_nat_monotone(1, 4096);
    order::lemma_over_within(Datum::of_nat(m.d_model as nat), 32, Datum::of_nat(4096));
    let activation = Calibration::activation(m);
    lemma_share(70);
    lemma_share(28);
    lemma_share(55);
    order::lemma_times_within(Datum::literal(55, 100), 0, activation, 32);
    order::lemma_within_more(Datum::literal(70, 100), 0, 32);
    order::lemma_within_more(Datum::literal(28, 100), 0, 32);
    let graphs = Datum::literal(55, 100).times(activation);
    order::lemma_plus_within(Datum::literal(70, 100), graphs, 32);
    order::lemma_plus_within(Datum::literal(28, 100), graphs, 32);
    let each = Calibration::per_device(m);
    order::lemma_of_nat_within(count as nat, 32);
    order::lemma_times_within(Datum::of_nat(count as nat), 32, each, 33);
    order::lemma_within_more(activation, 32, 65);
    order::lemma_plus_within(activation, Datum::of_nat(count as nat).times(each), 65);
    order::lemma_of_nat_within(1_073_741_824, 30);
    order::lemma_times_within(
        activation.plus(Datum::of_nat(count as nat).times(each)),
        66,
        Datum::of_nat(1_073_741_824),
        30,
    );
}

/// Every band of a calibration is finite, not negative and in order, and no
/// efficiency exceeds one.
pub proof fn law_calibrations_are_ordered(c: Calibration, m: ModelShape, count: u32)
    requires
        is_calibration(c, m, count),
    ensures
        finite(c.overhead@) && ordered(c.overhead@) && c.overhead@.low.is_size(),
        finite(c.mfu@) && ordered(c.mfu@) && c.mfu@.low.is_positive(),
        finite(c.mbu@) && ordered(c.mbu@) && c.mbu@.low.is_positive(),
        c.mfu@.high.at_most(Datum::of_nat(1)),
        c.mbu@.high.at_most(Datum::of_nat(1)),
{
    lemma2_to64();
    lemma_share(25);
    lemma_share(30);
    lemma_share(40);
    lemma_share(50);
    lemma_share(55);
    lemma_share(60);
    lemma_share(61);
    lemma_share(68);
    lemma_share(70);
    lemma_share(80);
    lemma_share(85);
    order::lemma_literal_monotone(30, 100, 40, 100);
    order::lemma_literal_monotone(40, 100, 50, 100);
    order::lemma_literal_monotone(25, 100, 40, 100);
    order::lemma_literal_monotone(40, 100, 55, 100);
    order::lemma_literal_monotone(55, 100, 61, 100);
    order::lemma_literal_monotone(61, 100, 68, 100);
    order::lemma_literal_monotone(60, 100, 70, 100);
    order::lemma_literal_monotone(70, 100, 85, 100);
    if c.is_uncalibrated() {
        binary64::lemma_of_nat_exact(2_500_000_000);
        binary64::lemma_of_nat_exact(3_000_000_000);
        binary64::lemma_of_nat_exact(4_000_000_000);
        order::lemma_of_nat_monotone(2_500_000_000, 3_000_000_000);
        order::lemma_of_nat_monotone(3_000_000_000, 4_000_000_000);
    }
    if c.is_measured(m, count) {
        let best = Calibration::overhead_bytes(m, count);
        lemma_measured_overhead_within(m, count);
        order::lemma_times_representable(
            Calibration::activation(m).plus(
                Datum::of_nat(count as nat).times(Calibration::per_device(m)),
            ),
            Datum::of_nat(1_073_741_824),
        );
        order::lemma_times_one(best);
        lemma_of_nat_size(1);
        order::lemma_times_monotone(best, Datum::literal(80, 100), Datum::of_nat(1));
        order::lemma_times_within(best, 96, Datum::literal(80, 100), 0);
        order::lemma_literal_within(120, 100, 1);
        order::lemma_literal_monotone(1, 1, 120, 100);
        order::lemma_literal_whole(1);
        order::lemma_times_monotone(best, Datum::of_nat(1), Datum::literal(120, 100));
        order::lemma_times_within(best, 96, Datum::literal(120, 100), 1);
    }
}

/// The sequences of a report come in order, low to high, on every engine of the
/// registry and under either calibration; a low end that serves means a verdict
/// that serves.
pub proof fn law_reports_are_ordered<Q: QuantScheme + ?Sized>(
    r: FitReport,
    m: ModelShape,
    hw: DeviceSet,
    q: &Q,
    e: Engine,
    w: Workload,
    c: Calibration,
)
    requires
        fit::reports(r, m, hw, q, &e, w, c),
        is_calibration(c, m, hw.count),
        has_finite_share(e),
    ensures
        ordered(r.kv_pool@),
        0 <= r.max_seqs.0 <= r.max_seqs.1 <= r.max_seqs.2,
        r.max_seqs.0 >= 1 ==> r.serves,
        r.serves <==> r.max_seqs.1 >= 1,
{
    law_calibrations_are_ordered(c, m, hw.count);
    law_pools_are_ordered(e, r.total_vram, r.weights, c.overhead@);
    law_max_seqs_are_ordered(r, m, hw, q, &e, w, c);
}

/// The engines that users can name share out at most all of VRAM.
pub proof fn law_known_engines_have_a_proper_share(name: Seq<char>, e: Engine)
    requires
        choice::known_engine(name) is Some,
        choice::is_engine(e, choice::known_engine(name)->0),
    ensures
        has_proper_share(e),
{
    lemma_share(90);
}

/// A pool that is empty or overdrawn holds nothing.
proof fn lemma_empty_pool(pool: Datum, per_seq: nat)
    requires
        pool.at_most(Datum::zero()),
        0 < per_seq <= u64::MAX,
    ensures
        fit::sequences(pool, per_seq) <= 0,
{
    let b = Datum::of_nat(per_seq);
    lemma_of_nat_positive(per_seq);
    order::lemma_over_monotone(pool, Datum::zero(), b);
    order::lemma_floor_monotone(pool.over(b), Datum::zero().over(b));
    reveal(Datum::over);
    reveal(Datum::floor_i64);
    assert(0 * binary64::one() == 0);
    rounding::lemma_nearest(0, b->mag, 0, 0);
    lemma_pow2_pos(1074);
    lemma_pow2_pos(2098);
    assert(0int / (binary64::one() as int) == 0) by (nonlinear_arith)
        requires
            binary64::one() > 0,
    ;
}

/// A sequence that takes more bytes never lets a pool hold more of them.
pub proof fn law_longer_sequences_are_no_more(pool: Datum, short: nat, long: nat)
    requires
        0 < short <= long <= u64::MAX,
    ensures
        fit::not_negative(fit::sequences(pool, long)) <= fit::not_negative(
            fit::sequences(pool, short),
        ),
{
    let a = Datum::of_nat(short);
    let b = Datum::of_nat(long);
    lemma_of_nat_positive(short);
    lemma_of_nat_positive(long);
    order::lemma_of_nat_monotone(short, long);
    if pool is Nan {
        reveal(Datum::over);
        reveal(Datum::floor_i64);
    } else if Datum::zero().at_most(pool) {
        order::lemma_over_larger(pool, a, b);
        order::lemma_floor_monotone(pool.over(b), pool.over(a));
    } else {
        lemma_empty_pool(pool, long);
    }
}

/// A longer context takes no less state.
proof fn lemma_state_monotone(m: ModelShape, n1: nat, n2: nat, kv_bytes: nat)
    requires
        n1 <= n2,
    ensures
        m.state_at(n1, kv_bytes) <= m.state_at(n2, kv_bytes),
{
    let p = m.state.per_token();
    let layers = m.layers as nat;
    assert((p * n1 * kv_bytes) * layers <= (p * n2 * kv_bytes) * layers) by (nonlinear_arith)
        requires
            n1 <= n2,
    ;
}

/// Along a scan the capacity never grows with the context, low, best or high.
pub proof fn law_capacity_falls_with_context<Q: QuantScheme + ?Sized, E: Allocator + ?Sized>(
    list: Seq<FitReport>,
    i: int,
    j: int,
    m: ModelShape,
    hw: DeviceSet,
    q: &Q,
    e: &E,
    prompt: u32,
    kv_bytes: u8,
    ctxs: Seq<u32>,
    c: Calibration,
)
    requires
        fit::sweeps(list, m, hw, q, e, prompt, kv_bytes, ctxs, c),
        0 <= i < ctxs.len(),
        0 <= j < ctxs.len(),
        ctxs[i] <= ctxs[j],
        list[i].bytes_per_seq > 0,
    ensures
        list[j].max_seqs.0 <= list[i].max_seqs.0,
        list[j].max_seqs.1 <= list[i].max_seqs.1,
        list[j].max_seqs.2 <= list[i].max_seqs.2,
        list[j].serves ==> list[i].serves,
{
    let a = list[i];
    let b = list[j];
    assert(fit::reports(a, m, hw, q, e, fit::at_context(ctxs[i], prompt, kv_bytes), c));
    assert(fit::reports(b, m, hw, q, e, fit::at_context(ctxs[j], prompt, kv_bytes), c));
    lemma_state_monotone(m, ctxs[i] as nat, ctxs[j] as nat, kv_bytes as nat);
    let x = a.bytes_per_seq as nat;
    let y = b.bytes_per_seq as nat;
    law_longer_sequences_are_no_more(a.kv_pool@.low, x, y);
    law_longer_sequences_are_no_more(a.kv_pool@.best, x, y);
    law_longer_sequences_are_no_more(a.kv_pool@.high, x, y);
}

proof fn lemma_bandwidth_size(hw: DeviceSet)
    ensures
        hw.bandwidth().is_size(),
{
    lemma2_to64();
    lemma2_to64_rest();
    let bw = hw.device.mem_bw_bytes_s as nat;
    order::lemma_of_nat_within(bw, 64);
    order::lemma_of_nat_within(hw.count as nat, 32);
    order::lemma_times_within(Datum::of_nat(bw), 64, Datum::of_nat(hw.count as nat), 32);
}

/// The rate of decode is a band in order, low to high, as the efficiencies are.
pub proof fn law_decode_is_ordered(hw: DeviceSet, bytes_read: nat, mbu: Band)
    requires
        finite(mbu),
        ordered(mbu),
        mbu.low.is_size(),
        0 < bytes_read <= u64::MAX,
    ensures
        ordered(fit::token_rate(hw, bytes_read, mbu)),
{
    let bw = hw.bandwidth();
    lemma_bandwidth_size(hw);
    lemma_of_nat_positive(bytes_read);
    let read = Datum::of_nat(bytes_read);
    order::lemma_times_monotone(bw, mbu.low, mbu.best);
    order::lemma_times_monotone(bw, mbu.best, mbu.high);
    order::lemma_over_monotone(bw.times(mbu.low), bw.times(mbu.best), read);
    order::lemma_over_monotone(bw.times(mbu.best), bw.times(mbu.high), read);
}

pub proof fn lemma_product_not_negative(a: Datum, b: Datum)
    requires
        a.is_size(),
        b.is_size(),
    ensures
        Datum::zero().at_most(a.times(b)),
{
    reveal(Datum::times);
    let x = a->mag;
    let y = b->mag;
    if x == 0 || y == 0 {
        assert(x * y == 0) by (nonlinear_arith)
            requires
                x == 0 || y == 0,
        ;
        lemma_pow2_pos(1074);
        lemma_pow2_pos(2098);
        rounding::lemma_nearest(0, binary64::one(), 0, 0);
    }
}

/// Decode is memory-bound: the more bytes each token reads, the lower its rate.
pub proof fn law_decode_falls_with_bytes_read(hw: DeviceSet, few: nat, many: nat, mbu: Band)
    requires
        finite(mbu),
        ordered(mbu),
        mbu.low.is_size(),
        0 < few <= many <= u64::MAX,
    ensures
        below(fit::token_rate(hw, many, mbu), fit::token_rate(hw, few, mbu)),
{
    let bw = hw.bandwidth();
    lemma_bandwidth_size(hw);
    lemma_of_nat_positive(few);
    lemma_of_nat_positive(many);
    order::lemma_of_nat_monotone(few, many);
    let a = Datum::of_nat(few);
    let b = Datum::of_nat(many);
    lemma_product_not_negative(bw, mbu.low);
    lemma_product_not_negative(bw, mbu.best);
    lemma_product_not_negative(bw, mbu.high);
    order::lemma_over_larger(bw.times(mbu.low), a, b);
    order::lemma_over_larger(bw.times(mbu.best), a, b);
    order::lemma_over_larger(bw.times(mbu.high), a, b);
}

proof fn lemma_work_positive(n_params: u64, prompt: u32)
    requires
        n_params > 0,
        prompt > 0,
    ensures
        Datum::of_nat(2).times(Datum::of_nat(n_params as nat)).times(
            Datum::of_nat(prompt as nat),
        ).is_positive(),
{
    lemma2_to64();
    lemma2_to64_rest();
    let two = Datum::of_nat(2);
    let n = Datum::of_nat(n_params as nat);
    let p = Datum::of_nat(prompt as nat);
    order::lemma_of_nat_within(2, 1);
    order::lemma_of_nat_within(n_params as nat, 64);
    order::lemma_of_nat_within(prompt as nat, 32);
    order::lemma_times_within(two, 1, n, 64);
    order::lemma_times_within(two.times(n), 65, p, 32);
    order::lemma_of_nat_monotone(1, n_params as nat);
    order::lemma_of_nat_monotone(1, prompt as nat);
    lemma_of_nat_positive(2);
    order::lemma_of_nat_representable(2);
    order::lemma_times_positive(two, n);
    order::lemma_times_representable(two, n);
    order::lemma_times_positive(two.times(n), p);
}

/// The time to the first token is a band in order, low to high: a high efficiency
/// makes the low end.
pub proof fn law_first_token_is_ordered(m: ModelShape, hw: DeviceSet, w: Workload, mfu: Band)
    requires
        finite(mfu),
        ordered(mfu),
        mfu.low.is_positive(),
        hw.flops() is Finite,
        !hw.flops()->Finite_neg,
        m.n_params > 0,
        w.prompt_tokens > 0,
    ensures
        ordered(fit::first_token(m, hw, w, mfu)),
{
    let work = Datum::of_nat(2).times(Datum::of_nat(m.n_params as nat)).times(
        Datum::of_nat(w.prompt_tokens as nat),
    );
    let flops = hw.flops();
    lemma_work_positive(m.n_params, w.prompt_tokens);
    order::lemma_times_monotone(flops, mfu.low, mfu.best);
    order::lemma_times_monotone(flops, mfu.best, mfu.high);
    reveal(Datum::times);
    order::lemma_over_antitone(work, flops.times(mfu.low), flops.times(mfu.best));
    order::lemma_over_antitone(work, flops.times(mfu.best), flops.times(mfu.high));
}

/// Comparing the weights with VRAM compares the byte counts, as long as those are
/// below 2^53.
pub proof fn law_naive_check_compares_bytes<Q: QuantScheme + ?Sized, E: Allocator + ?Sized>(
    r: FitReport,
    m: ModelShape,
    hw: DeviceSet,
    q: &Q,
    e: &E,
    w: Workload,
    c: Calibration,
)
    requires
        fit::reports(r, m, hw, q, e, w, c),
        r.weights < TWO_53,
        r.total_vram < TWO_53,
    ensures
        r.naive_would_say <==> r.weights < r.total_vram,
{
    reveal(Datum::less);
    binary64::lemma_of_nat_exact(r.weights as nat);
    binary64::lemma_of_nat_exact(r.total_vram as nat);
    lemma_pow2_pos(1074);
    let one = binary64::one();
    let a = r.weights as nat;
    let b = r.total_vram as nat;
    assert(a * one < b * one <==> a < b) by (nonlinear_arith)
        requires
            one > 0,
    ;
}

/// The state of every model of the registry fits in 64 bits at every context length
/// and every size of a KV element.
pub proof fn law_known_models_fit(m: ModelShape, id: Seq<char>, ctx: u32, kv_bytes: nat)
    requires
        registry::known_model(id) is Some,
        registry::is_model(m, id, registry::known_model(id)->0),
        kv_bytes <= u8::MAX,
    ensures
        m.state_fits(ctx as nat, kv_bytes),
{
    lemma_known_state_bound(m, id, ctx, kv_bytes);
}

proof fn lemma_known_state_bound(m: ModelShape, id: Seq<char>, ctx: u32, kv_bytes: nat)
    requires
        registry::known_model(id) is Some,
        registry::is_model(m, id, registry::known_model(id)->0),
        kv_bytes <= u8::MAX,
    ensures
        m.state_fits(ctx as nat, kv_bytes),
        m.state_at(ctx as nat, kv_bytes) <= 0x1000_0000_0000_0000,
{
    let p = m.state.per_token();
    let n = ctx as nat;
    let layers = m.layers as nat;
    assert(p <= 8192) by {
        match m.state {
            StateGeometry::Mha { head_dim, n_heads } => {
                assert(2 * n_heads as nat * head_dim as nat <= 8192) by (nonlinear_arith)
                    requires
                        n_heads <= 32,
                        head_dim <= 128,
                ;
            },
            StateGeometry::Gqa { head_dim, n_kv_heads } => {
                assert(2 * n_kv_heads as nat * head_dim as nat <= 8192) by (nonlinear_arith)
                    requires
                        n_kv_heads <= 32,
                        head_dim <= 128,
                ;
            },
            _ => {},
        }
    }
    assert(layers <= 80);
    assert(p * n <= 8192 * 0x1_0000_0000) by (nonlinear_arith)
        requires
            p <= 8192,
            n <= 0x1_0000_0000,
    ;
    assert(p * n * kv_bytes <= 8192 * 0x1_0000_0000 * 255) by (nonlinear_arith)
        requires
            p * n <= 8192 * 0x1_0000_0000,
            kv_bytes <= 255,
    ;
    assert((p * n * kv_bytes) * layers <= (8192 * 0x1_0000_0000 * 255) * 80) by (nonlinear_arith)
        requires
            p * n * kv_bytes <= 8192 * 0x1_0000_0000 * 255,
            layers <= 80,
    ;
}

/// A count of bytes of at most `2^k` rounds to no more.
proof fn lemma_round_within(a: Datum, k: nat)
    requires
        a.within(k),
    ensures
        a.round_u64() <= pow2(k),
{
    reveal(Datum::round_u64);
    let one = binary64::one();
    lemma_pow2_adds(1074, k);
    lemma_pow2_pos(1074);
    let mag = a->mag;
    let top = pow2(k);
    let q = (2 * mag + one) / (2 * one);
    vstd::arithmetic::div_mod::lemma_fundamental_div_mod(
        (2 * mag + one) as int,
        (2 * one) as int,
    );
    assert(q <= top) by (nonlinear_arith)
        requires
            mag <= one * top,
            (2 * one) * q <= 2 * mag + one,
            one > 0,
    ;
}

proof fn lemma_bits_within(n: nat)
    requires
        n <= 1600,
    ensures
        registry::hundredths_of_bits(n).within(4),
{
    lemma2_to64();
    order::lemma_literal_within(n, 100, 4);
    order::lemma_of_nat_monotone(1, 8);
    binary64::lemma_of_nat_finite(8);
    order::lemma_over_within(Datum::literal(n, 100), 4, Datum::of_nat(8));
}

proof fn lemma_known_weight_within(name: Seq<char>)
    requires
        registry::known_quant(name) is Some,
    ensures
        (registry::known_quant(name)->0).1.within(4),
{
    lemma2_to64();
    order::lemma_of_nat_within(2, 4);
    order::lemma_of_nat_within(1, 4);
    lemma_bits_within(850);
    lemma_bits_within(656);
    lemma_bits_within(567);
    lemma_bits_within(480);
    lemma_bits_within(455);
    lemma_bits_within(391);
    lemma_bits_within(335);
    lemma_bits_within(451);
    lemma_bits_within(425);
}

pub proof fn lemma_larger_sets_fit<E: Allocator + ?Sized>(
    m: ModelShape,
    hw: DeviceSet,
    weight: Datum,
    e: &E,
    w: Workload,
    overhead: Band,
    from: nat,
)
    requires
        hw.device.vram_bytes <= 0x1FFF_FFFF_FFFF_FFFF,
    ensures
        fit::larger_sets_fit(m, hw, weight, e, w, overhead, from),
    decreases 16 - from,
{
    if 0 < from <= 8 {
        lemma_larger_sets_fit(m, hw, weight, e, w, overhead, 2 * from);
        let vram = hw.device.vram_bytes as nat;
        assert(vram * from <= 0x1FFF_FFFF_FFFF_FFFF * 8) by (nonlinear_arith)
            requires
                vram <= 0x1FFF_FFFF_FFFF_FFFF,
                from <= 8,
        ;
    }
}

/// Sizing never overflows on models, devices and quantisations of the registry, at
/// any context length and size of a KV element, up to 2^26 devices.
pub proof fn law_registry_is_in_range<E: Allocator + ?Sized>(
    m: ModelShape,
    id: Seq<char>,
    hw: DeviceSet,
    gpu: Seq<char>,
    dtype: Seq<char>,
    e: &E,
    w: Workload,
    overhead: Band,
)
    requires
        registry::known_model(id) is Some,
        registry::is_model(m, id, registry::known_model(id)->0),
        registry::known_device(gpu) is Some,
        registry::is_device(hw.device, gpu, registry::known_device(gpu)->0),
        hw.count <= 0x400_0000,
        registry::known_quant(dtype) is Some,
    ensures
        fit::in_range(m, hw, (registry::known_quant(dtype)->0).1, e, w, overhead),
{
    let weight = (registry::known_quant(dtype)->0).1;
    let vram = hw.device.vram_bytes as nat;
    let count = hw.count as nat;
    assert(vram <= 0x30_0000_0000);
    assert(vram * count <= 0x30_0000_0000 * 0x400_0000) by (nonlinear_arith)
        requires
            vram <= 0x30_0000_0000,
            count <= 0x400_0000,
    ;
    law_known_models_fit(m, id, 1, w.kv_bytes as nat);
    law_known_models_fit(m, id, w.ctx, w.kv_bytes as nat);
    lemma2_to64();
    lemma2_to64_rest();
    let n = Datum::of_nat(m.n_params as nat);
    lemma_known_weight_within(dtype);
    order::lemma_of_nat_within(m.n_params as nat, 40);
    order::lemma_times_within(n, 40, weight, 4);
    lemma_round_within(n.times(weight), 44);
    lemma_known_state_bound(m, id, w.ctx, w.kv_bytes as nat);
    lemma_larger_sets_fit(m, hw, weight, e, w, overhead, 2);
}

/// The KV dtype is a choice of its own: it touches neither weights nor pool, and a
/// smaller one never holds fewer sequences.
pub proof fn law_kv_dtype_is_independent<Q: QuantScheme + ?Sized, E: Allocator + ?Sized>(
    small: FitReport,
    large: FitReport,
    m: ModelShape,
    hw: DeviceSet,
    q: &Q,
    e: &E,
    ctx: u32,
    prompt: u32,
    kv_small: u8,
    kv_large: u8,
    c: Calibration,
)
    requires
        fit::reports(small, m, hw, q, e, fit::at_context(ctx, prompt, kv_small), c),
        fit::reports(large, m, hw, q, e, fit::at_context(ctx, prompt, kv_large), c),
        kv_small <= kv_large,
        small.bytes_per_seq > 0,
    ensures
        small.weights == large.weights,
        small.kv_pool@ == large.kv_pool@,
        large.max_seqs.0 <= small.max_seqs.0,
        large.max_seqs.1 <= small.max_seqs.1,
        large.max_seqs.2 <= small.max_seqs.2,
{
    let p = m.state.per_token();
    let n = ctx as nat;
    let a = kv_small as nat;
    let b = kv_large as nat;
    let layers = m.layers as nat;
    assert((p * n * a) * layers <= (p * n * b) * layers) by (nonlinear_arith)
        requires
            a <= b,
    ;
    let x = small.bytes_per_seq as nat;
    let y = large.bytes_per_seq as nat;
    law_longer_sequences_are_no_more(small.kv_pool@.low, x, y);
    law_longer_sequences_are_no_more(small.kv_pool@.best, x, y);
    law_longer_sequences_are_no_more(small.kv_pool@.high, x, y);
}

/// More devices of a kind never hold fewer sequences, at the same overhead.
pub proof fn law_more_devices_hold_no_fewer<Q: QuantScheme + ?Sized>(
    few: FitReport,
    many: FitReport,
    m: ModelShape,
    hw: DeviceSet,
    count: u32,
    q: &Q,
    e: Engine,
    w: Workload,
    c: Calibration,
)
    requires
        fit::reports(few, m, hw, q, &e, w, c),
        fit::reports(many, m, fit::with_count(hw, count), q, &e, w, c),
        hw.count <= count,
        finite(c.overhead@),
        has_proper_share(e),
    ensures
        below(few.kv_pool@, many.kv_pool@),
        few.max_seqs.0 <= many.max_seqs.0,
        few.max_seqs.1 <= many.max_seqs.1,
        few.max_seqs.2 <= many.max_seqs.2,
        few.serves ==> many.serves,
{
    let v = hw.device.vram_bytes as nat;
    let a = hw.count as nat;
    let b = count as nat;
    assert(v * a <= v * b) by (nonlinear_arith)
        requires
            a <= b,
    ;
    law_more_vram_is_no_worse(e, few.total_vram, many.total_vram, few.weights, c.overhead@);
    let per_seq = few.bytes_per_seq as nat;
    law_sequences_are_monotone(few.kv_pool@.low, many.kv_pool@.low, per_seq);
    law_sequences_are_monotone(few.kv_pool@.best, many.kv_pool@.best, per_seq);
    law_sequences_are_monotone(few.kv_pool@.high, many.kv_pool@.high, per_seq);
}

/// The naive check errs on one side only: whatever serves has weights below VRAM.
pub proof fn law_what_serves_passes_the_naive_check<Q: QuantScheme + ?Sized>(
    r: FitReport,
    m: ModelShape,
    hw: DeviceSet,
    q: &Q,
    e: Engine,
    w: Workload,
    c: Calibration,
)
    requires
        fit::reports(r, m, hw, q, &e, w, c),
        c.overhead@.best.is_size(),
        has_proper_share(e),
        r.serves,
    ensures
        r.naive_would_say,
{
    let all = budget(e, r.total_vram);
    let vram = Datum::of_nat(r.total_vram as nat);
    let weights = Datum::of_nat(r.weights as nat);
    let overhead = c.overhead@.best;
    let zero = Datum::zero();
    lemma_of_nat_size(r.total_vram as nat);
    lemma_of_nat_size(r.weights as nat);
    lemma_budget_within_vram(e, r.total_vram);
    reveal(Datum::less);
    if !r.naive_would_say {
        assert(vram.at_most(weights));
        order::lemma_at_most_transitive(all, vram, weights);
        order::lemma_minus_monotone(all, weights, weights);
        assert(weights.minus(weights).at_most(zero)) by {
            reveal(Datum::minus);
        }
        order::lemma_at_most_transitive(all.minus(weights), weights.minus(weights), zero);
        order::lemma_minus_monotone(all.minus(weights), zero, overhead);
        assert(zero.representable()) by {
            rounding::lemma_nearest(0, 1, 0, 0);
            lemma_pow2_pos(2098);
        }
        order::lemma_minus_at_most(zero, overhead);
        order::lemma_at_most_transitive(r.kv_pool@.best, zero.minus(overhead), zero);
        lemma_empty_pool(r.kv_pool@.best, r.bytes_per_seq as nat);
    }
}

/// More devices of a kind decode no slower.
pub proof fn law_more_devices_decode_no_slower(
    hw: DeviceSet,
    count: u32,
    bytes_read: nat,
    mbu: Band,
)
    requires
        hw.count <= count,
        finite(mbu),
        ordered(mbu),
        mbu.low.is_size(),
        0 < bytes_read <= u64::MAX,
    ensures
        below(
            fit::token_rate(hw, bytes_read, mbu),
            fit::token_rate(fit::with_count(hw, count), bytes_read, mbu),
        ),
{
    let more = fit::with_count(hw, count);
    let each = Datum::of_nat(hw.device.mem_bw_bytes_s as nat);
    let a = hw.bandwidth();
    let b = more.bandwidth();
    lemma_bandwidth_size(hw);
    lemma_bandwidth_size(more);
    lemma_of_nat_size(hw.device.mem_bw_bytes_s as nat);
    lemma_of_nat_size(hw.count as nat);
    lemma_of_nat_size(count as nat);
    order::lemma_of_nat_monotone(hw.count as nat, count as nat);
    order::lemma_times_monotone(each, Datum::of_nat(hw.count as nat), Datum::of_nat(count as nat));
    lemma_of_nat_positive(bytes_read);
    lemma_rate_monotone(a, b, mbu.low, Datum::of_nat(bytes_read));
    lemma_rate_monotone(a, b, mbu.best, Datum::of_nat(bytes_read));
    lemma_rate_monotone(a, b, mbu.high, Datum::of_nat(bytes_read));
}

proof fn lemma_rate_monotone(a: Datum, b: Datum, share: Datum, read: Datum)
    requires
        a.is_size(),
        b.is_size(),
        a.at_most(b),
        share.is_size(),
        read.is_positive(),
    ensures
        a.times(share).over(read).at_most(b.times(share).over(read)),
{
    order::lemma_times_monotone(share, a, b);
    order::lemma_times_commutes(share, a);
    order::lemma_times_commutes(share, b);
    order::lemma_over_monotone(a.times(share), b.times(share), read);
}

/// Every quantity of a report says where it comes from: the pool is as calibrated as
/// the overhead, the first token as the efficiency of prefill, and decode as that of
/// the memory. None of them is exact.
pub proof fn law_reports_carry_their_calibration<Q: QuantScheme + ?Sized>(
    r: FitReport,
    m: ModelShape,
    hw: DeviceSet,
    q: &Q,
    e: Engine,
    w: Workload,
    c: Calibration,
)
    requires
        fit::reports(r, m, hw, q, &e, w, c),
    ensures
        r.calibrated == c.overhead.calibrated,
        r.kv_pool.calibrated == c.overhead.calibrated && !r.kv_pool.exact,
        r.ttft.calibrated == c.mfu.calibrated && !r.ttft.exact,
        r.decode.calibrated == c.mbu.calibrated && !r.decode.exact,
        c.is_measured(m, hw.count) ==> r.calibrated && r.decode.calibrated && !r.ttft.calibrated,
        c.is_uncalibrated() ==> !r.calibrated && !r.decode.calibrated && !r.ttft.calibrated,
{
    assert(r.kv_pool@.calibrated == r.kv_pool.calibrated);
    assert(r.kv_pool@.exact == r.kv_pool.exact);
    assert(r.ttft@.calibrated == r.ttft.calibrated && r.ttft@.exact == r.ttft.exact);
    assert(r.decode@.calibrated == r.decode.calibrated && r.decode@.exact == r.decode.exact);
    assert(c.overhead@.calibrated == c.overhead.calibrated);
    assert(c.mfu@.calibrated == c.mfu.calibrated);
    assert(c.mbu@.calibrated == c.mbu.calibrated);
}

/// A pool holds a sequence exactly where it is not below the bytes of one, although
/// sequences are counted by a quotient that is rounded.
pub proof fn law_a_sequence_needs_its_bytes(pool: Datum, per_seq: nat)
    requires
        !(pool is Nan),
        pool.representable(),
        0 < per_seq <= u64::MAX,
    ensures
        fit::sequences(pool, per_seq) >= 1 <==> !pool.less(Datum::of_nat(per_seq)),
{
    lemma_of_nat_positive(per_seq);
    order::lemma_of_nat_representable(per_seq);
    order::lemma_quotient_reaches_one(pool, Datum::of_nat(per_seq));
}

/// A model serves exactly where the best estimate of the pool is not below the bytes
/// of one sequence; the same holds of the low and the high end of the count.
pub proof fn law_serving_needs_room_for_one_sequence<
    Q: QuantScheme + ?Sized,
    E: Allocator + ?Sized,
>(
    r: FitReport,
    m: ModelShape,
    hw: DeviceSet,
    q: &Q,
    e: &E,
    w: Workload,
    c: Calibration,
)
    requires
        fit::reports(r, m, hw, q, e, w, c),
        r.bytes_per_seq > 0,
    ensures
        !(r.kv_pool.best@ is Nan) ==> (r.serves <==> !r.kv_pool.best@.less(
            Datum::of_nat(r.bytes_per_seq as nat),
        )),
        !(r.kv_pool.low@ is Nan) ==> (r.max_seqs.0 >= 1 <==> !r.kv_pool.low@.less(
            Datum::of_nat(r.bytes_per_seq as nat),
        )),
        !(r.kv_pool.high@ is Nan) ==> (r.max_seqs.2 >= 1 <==> !r.kv_pool.high@.less(
            Datum::of_nat(r.bytes_per_seq as nat),
        )),
{
    let per_seq = r.bytes_per_seq as nat;
    order::law_numbers_are_representable(r.kv_pool.low);
    order::law_numbers_are_representable(r.kv_pool.best);
    order::law_numbers_are_representable(r.kv_pool.high);
    assert(r.kv_pool@.low == r.kv_pool.low@);
    assert(r.kv_pool@.best == r.kv_pool.best@);
    assert(r.kv_pool@.high == r.kv_pool.high@);
    if !(r.kv_pool.low@ is Nan) {
        law_a_sequence_needs_its_bytes(r.kv_pool.low@, per_seq);
    }
    if !(r.kv_pool.best@ is Nan) {
        law_a_sequence_needs_its_bytes(r.kv_pool.best@, per_seq);
    }
    if !(r.kv_pool.high@ is Nan) {
        law_a_sequence_needs_its_bytes(r.kv_pool.high@, per_seq);
    }
}

} // verus!
