//! Laws of the roofline: what times, rates and the ridge point amount to.
//!
//! Magnitudes of binary64 numbers are counted in units, of which `one()` make the
//! number one.

use crate::binary64;
use crate::binary64::Datum;
use crate::close;
use crate::fit;
use crate::fit::FitReport;
use crate::laws::sizes;
use crate::order;
use crate::rounding;
use crate::rounding::{TWO_52, TWO_53};
use crate::sizing::{
    Allocator, Band, Calibration, DeviceSet, Fp16, Fp8, ModelShape, QuantScheme, Workload,
};
use vstd::arithmetic::power2::*;
use vstd::prelude::*;

verus! {

/// Devices with a peak and a bandwidth that are known and of middling size.
pub open spec fn is_rated(hw: DeviceSet) -> bool {
    &&& hw.count > 0
    &&& hw.device.mem_bw_bytes_s > 0
    &&& hw.device.peak_flops@.spans(0, 100)
}

/// An efficiency of middling size.
pub open spec fn is_share(share: Datum) -> bool {
    share.spans(20, 1)
}

pub open spec fn are_shares(b: Band) -> bool {
    is_share(b.low) && is_share(b.best) && is_share(b.high)
}

proof fn lemma_flops_close(hw: DeviceSet)
    requires
        is_rated(hw),
    ensures
        hw.flops().spans(0, 132),
        close::close(hw.flops()->mag, hw.device.peak_flops@->mag * hw.count as nat, 1),
{
    let peak = hw.device.peak_flops@;
    let count = hw.count as nat;
    let one = binary64::one();
    lemma2_to64();
    lemma_pow2_pos(1074);
    close::lemma_of_nat_close(count, 32);
    close::lemma_times_close(peak, 0, 100, Datum::of_nat(count), 0, 32);
    let p = peak->mag;
    assert(p * (count * one) == (p * count) * one) by (nonlinear_arith);
    close::lemma_close_cancel(hw.flops()->mag, p * count, one, 1);
}

proof fn lemma_bandwidth_close(hw: DeviceSet)
    requires
        hw.count > 0,
        hw.device.mem_bw_bytes_s > 0,
    ensures
        hw.bandwidth().spans(0, 96),
        close::close(
            hw.bandwidth()->mag,
            (hw.device.mem_bw_bytes_s as nat * hw.count as nat) * binary64::one(),
            2,
        ),
{
    let each = hw.device.mem_bw_bytes_s as nat;
    let count = hw.count as nat;
    let one = binary64::one();
    lemma2_to64();
    lemma2_to64_rest();
    lemma_pow2_pos(1074);
    close::lemma_of_nat_close(count, 32);
    close::lemma_of_nat_close(each, 64);
    close::lemma_times_close(Datum::of_nat(each), 0, 64, Datum::of_nat(count), 0, 32);
    let b = Datum::of_nat(each)->mag;
    assert(b * (count * one) == (b * count) * one) by (nonlinear_arith);
    close::lemma_close_cancel(hw.bandwidth()->mag, b * count, one, 1);
    close::lemma_close_scaled(b, each * one, count, 1);
    assert((each * one) * count == (each * count) * one) by (nonlinear_arith);
    close::lemma_close_through(hw.bandwidth()->mag, b * count, 1, (each * count) * one, 1);
}

/// The devices of a set add up: memory exactly, bandwidth and FLOPs but for rounding.
pub proof fn law_device_sets_add_up(hw: DeviceSet)
    requires
        is_rated(hw),
    ensures
        hw.vram() == hw.device.vram_bytes * hw.count,
        hw.bandwidth() is Finite && hw.flops() is Finite,
        close::close(
            hw.bandwidth()->mag,
            (hw.device.mem_bw_bytes_s as nat * hw.count as nat) * binary64::one(),
            2,
        ),
        close::close(hw.flops()->mag, hw.device.peak_flops@->mag * hw.count as nat, 1),
{
    lemma_flops_close(hw);
    lemma_bandwidth_close(hw);
}

proof fn lemma_rate_close(hw: DeviceSet, bytes: nat, share: Datum)
    requires
        hw.count > 0,
        hw.device.mem_bw_bytes_s > 0,
        is_share(share),
        0 < bytes <= u64::MAX,
    ensures
        ({
            let rate = hw.bandwidth().times(share).over(Datum::of_nat(bytes));
            &&& rate.spans(84, 97)
            &&& close::close(
                rate->mag * bytes,
                (hw.device.mem_bw_bytes_s as nat * hw.count as nat) * share->mag,
                5,
            )
        }),
{
    let one = binary64::one();
    let total = hw.device.mem_bw_bytes_s as nat * hw.count as nat;
    let bw = hw.bandwidth();
    let s = share->mag;
    lemma2_to64();
    lemma2_to64_rest();
    lemma_pow2_pos(1074);
    lemma_bandwidth_close(hw);
    close::lemma_times_close(bw, 0, 96, share, 20, 1);
    let a = bw.times(share);
    close::lemma_of_nat_close(bytes, 64);
    let read = Datum::of_nat(bytes);
    close::lemma_over_close(a, 20, 97, read, 0, 64);
    let q = a.over(read)->mag;
    // q * bytes * one ~ q * read ~ a * one ~ bw * s ~ total * one * s
    close::lemma_close_swap(read->mag, bytes * one, 1);
    close::lemma_close_scaled(bytes * one, read->mag, q, 1);
    assert((bytes * one) * q == (q * bytes) * one) by (nonlinear_arith);
    assert(read->mag * q == q * read->mag) by (nonlinear_arith);
    close::lemma_close_through((q * bytes) * one, q * read->mag, 1, a->mag * one, 1);
    close::lemma_close_through((q * bytes) * one, a->mag * one, 2, bw->mag * s, 1);
    close::lemma_close_scaled(bw->mag, total * one, s, 2);
    assert((total * one) * s == (total * s) * one) by (nonlinear_arith);
    close::lemma_close_through((q * bytes) * one, bw->mag * s, 3, (total * s) * one, 2);
    close::lemma_close_cancel(q * bytes, total * s, one, 5);
}

/// Decode is bound by memory: the rate times the bytes of the weights and of one
/// sequence is what the devices can move, whatever the quantisation, the engine and the
/// model.
pub proof fn law_decode_moves_weights_and_state<Q: QuantScheme + ?Sized, E: Allocator + ?Sized>(
    r: FitReport,
    m: ModelShape,
    hw: DeviceSet,
    q: &Q,
    e: &E,
    w: Workload,
    c: Calibration,
)
    requires
        fit::reports(r, m, hw, q, e, w, c),
        is_rated(hw),
        are_shares(c.mbu@),
        0 < r.weights + r.bytes_per_seq <= u64::MAX,
    ensures
        ({
            let bytes = (r.weights + r.bytes_per_seq) as nat;
            let moved = hw.device.mem_bw_bytes_s as nat * hw.count as nat;
            &&& r.decode.low@ is Finite && r.decode.best@ is Finite && r.decode.high@ is Finite
            &&& close::close(r.decode.low@->mag * bytes, moved * c.mbu.low@->mag, 5)
            &&& close::close(r.decode.best@->mag * bytes, moved * c.mbu.best@->mag, 5)
            &&& close::close(r.decode.high@->mag * bytes, moved * c.mbu.high@->mag, 5)
        }),
{
    let bytes = (r.weights + r.bytes_per_seq) as nat;
    assert(r.decode@.low == r.decode.low@);
    assert(r.decode@.best == r.decode.best@);
    assert(r.decode@.high == r.decode.high@);
    lemma_rate_close(hw, bytes, c.mbu.low@);
    lemma_rate_close(hw, bytes, c.mbu.best@);
    lemma_rate_close(hw, bytes, c.mbu.high@);
}

proof fn lemma_over_half(a: Datum, b: Datum, c: Datum)
    requires
        a.spans(20, 97),
        b.spans(0, 64),
        c.spans(0, 65),
        c->mag == 2 * b->mag,
    ensures
        a.over(b) == a.over(c).times(Datum::of_nat(2)),
{
    close::lemma_over_close(a, 20, 97, b, 0, 64);
    close::lemma_over_close(a, 20, 97, c, 0, 65);
    let one = binary64::one();
    let x = a->mag * one;
    let y = b->mag;
    let v = rounding::rounded(x, 2 * y);
    reveal(Datum::over);
    lemma_large(a.over(c), 85, 97);
    assert(x >= TWO_53 * y) by {
        let p1 = pow2(1054);
        let q2 = pow2(1138);
        lemma_pow2_adds(1054, 1074);
        lemma_pow2_adds(1138, 53);
        lemma_pow2_strictly_increases(1191, 2128);
        lemma2_to64_rest();
        lemma2_to64();
        assert(a->mag * one >= 0x20_0000_0000_0000 * y) by (nonlinear_arith)
            requires
                a->mag >= p1,
                y <= q2,
                p1 * one >= q2 * 0x20_0000_0000_0000,
        ;
    }
    order::lemma_over_representable(a, c);
    lemma_times_two(a.over(c));
}

proof fn lemma_large(a: Datum, lo: nat, hi: nat)
    requires
        a.spans(lo, hi),
        lo <= 1000,
        hi <= 1000,
    ensures
        a->mag >= TWO_53,
        2 * a->mag < binary64::beyond(),
{
    lemma2_to64();
    lemma2_to64_rest();
    lemma_pow2_strictly_increases(53, (1074 - lo) as nat);
    lemma_pow2_unfold(1074 + hi + 1);
    lemma_pow2_strictly_increases(1074 + hi + 1, 2098);
}

/// Twice a number of the format.
proof fn lemma_times_two(a: Datum)
    requires
        a is Finite,
        a.representable(),
        a->mag >= TWO_53,
    ensures
        a.times(Datum::of_nat(2)) == Datum::bounded(a->Finite_neg, 2 * a->mag),
{
    reveal(Datum::times);
    binary64::lemma_of_nat_exact(2);
    lemma_pow2_pos(1074);
    let x = a->mag;
    let one = binary64::one();
    assert(x * (2 * one) == (2 * x) * one) by (nonlinear_arith);
    rounding::lemma_rounded_scaled(2 * x, 1, one);
    assert(1 * one == one);
    rounding::lemma_rounded_doubles(x, 1);
}

proof fn lemma_of_nat_doubles(n: nat)
    requires
        0 < n,
        2 * n <= u64::MAX,
    ensures
        Datum::of_nat(n).spans(0, 64),
        Datum::of_nat(2 * n).spans(0, 64),
        Datum::of_nat(2 * n)->mag == 2 * Datum::of_nat(n)->mag,
{
    lemma2_to64();
    lemma2_to64_rest();
    close::lemma_of_nat_close(n, 64);
    close::lemma_of_nat_close(2 * n, 64);
    reveal(Datum::of_nat);
    let one = binary64::one();
    lemma_pow2_strictly_increases(52, 1074);
    assert(n * one >= TWO_52 * 1) by (nonlinear_arith)
        requires
            n >= 1,
            one >= TWO_52,
    ;
    assert((2 * n) * one == 2 * (n * one)) by (nonlinear_arith);
    rounding::lemma_rounded_doubles(n * one, 1);
}

/// Half the bytes to read make twice the rate, to the last bit, whatever it is that
/// takes them: two quantisations, two context lengths, two models.
pub proof fn law_half_the_bytes_double_the_rate<
    Q: QuantScheme + ?Sized,
    P: QuantScheme + ?Sized,
    E: Allocator + ?Sized,
    F: Allocator + ?Sized,
>(
    heavy: FitReport,
    light: FitReport,
    m: ModelShape,
    n: ModelShape,
    hw: DeviceSet,
    q: &Q,
    p: &P,
    e: &E,
    f: &F,
    w: Workload,
    x: Workload,
    c: Calibration,
    d: Calibration,
)
    requires
        fit::reports(heavy, m, hw, q, e, w, c),
        fit::reports(light, n, hw, p, f, x, d),
        c.mbu@ == d.mbu@,
        is_rated(hw),
        are_shares(c.mbu@),
        0 < light.weights + light.bytes_per_seq,
        heavy.weights + heavy.bytes_per_seq == 2 * (light.weights + light.bytes_per_seq),
        heavy.weights + heavy.bytes_per_seq <= u64::MAX,
    ensures
        light.decode.low@ == heavy.decode.low@.times(Datum::of_nat(2)),
        light.decode.best@ == heavy.decode.best@.times(Datum::of_nat(2)),
        light.decode.high@ == heavy.decode.high@.times(Datum::of_nat(2)),
{
    let bytes = (light.weights + light.bytes_per_seq) as nat;
    lemma_of_nat_doubles(bytes);
    lemma_bandwidth_close(hw);
    let bw = hw.bandwidth();
    let a = Datum::of_nat(bytes);
    let b = Datum::of_nat(2 * bytes);
    lemma_pow2_strictly_increases(1138, 1139);
    assert(b.spans(0, 65));
    close::lemma_times_close(bw, 0, 96, c.mbu.low@, 20, 1);
    close::lemma_times_close(bw, 0, 96, c.mbu.best@, 20, 1);
    close::lemma_times_close(bw, 0, 96, c.mbu.high@, 20, 1);
    lemma_over_half(bw.times(c.mbu.low@), a, b);
    lemma_over_half(bw.times(c.mbu.best@), a, b);
    lemma_over_half(bw.times(c.mbu.high@), a, b);
    assert(light.decode@.low == light.decode.low@ && heavy.decode@.low == heavy.decode.low@);
    assert(light.decode@.best == light.decode.best@ && heavy.decode@.best == heavy.decode.best@);
    assert(light.decode@.high == light.decode.high@ && heavy.decode@.high == heavy.decode.high@);
    assert(c.mbu@.low == d.mbu.low@ && c.mbu@.best == d.mbu.best@ && c.mbu@.high == d.mbu.high@);
}

/// Of two quantisations the one with the lighter weights decodes no slower.
pub proof fn law_lighter_weights_decode_no_slower<
    Q: QuantScheme + ?Sized,
    P: QuantScheme + ?Sized,
    E: Allocator + ?Sized,
>(
    heavy: FitReport,
    light: FitReport,
    m: ModelShape,
    hw: DeviceSet,
    q: &Q,
    p: &P,
    e: &E,
    w: Workload,
    c: Calibration,
)
    requires
        fit::reports(heavy, m, hw, q, e, w, c),
        fit::reports(light, m, hw, p, e, w, c),
        is_rated(hw),
        are_shares(c.mbu@),
        light.weights <= heavy.weights,
        0 < light.weights + light.bytes_per_seq,
        heavy.weights + heavy.bytes_per_seq <= u64::MAX,
    ensures
        sizes::below(heavy.decode@, light.decode@),
{
    let few = (light.weights + light.bytes_per_seq) as nat;
    let many = (heavy.weights + heavy.bytes_per_seq) as nat;
    let bw = hw.bandwidth();
    lemma2_to64();
    lemma2_to64_rest();
    lemma_bandwidth_close(hw);
    close::lemma_of_nat_close(few, 64);
    close::lemma_of_nat_close(many, 64);
    order::lemma_of_nat_monotone(few, many);
    lemma_pow2_pos(1074);
    close::lemma_times_close(bw, 0, 96, c.mbu.low@, 20, 1);
    close::lemma_times_close(bw, 0, 96, c.mbu.best@, 20, 1);
    close::lemma_times_close(bw, 0, 96, c.mbu.high@, 20, 1);
    let a = Datum::of_nat(few);
    let b = Datum::of_nat(many);
    order::lemma_over_larger(bw.times(c.mbu.low@), a, b);
    order::lemma_over_larger(bw.times(c.mbu.best@), a, b);
    order::lemma_over_larger(bw.times(c.mbu.high@), a, b);
}

/// The work of prefill.
proof fn lemma_work_close(n: nat, p: nat)
    requires
        0 < n <= u64::MAX,
        0 < p <= u32::MAX,
    ensures
        ({
            let twice = Datum::of_nat(2).times(Datum::of_nat(n));
            let work = twice.times(Datum::of_nat(p));
            &&& twice.spans(0, 65)
            &&& close::close(twice->mag, (2 * n) * binary64::one(), 2)
            &&& work.spans(0, 97)
            &&& close::close(work->mag, (2 * n * p) * binary64::one(), 3)
        }),
{
    let one = binary64::one();
    lemma2_to64();
    lemma2_to64_rest();
    lemma_pow2_pos(1074);
    close::lemma_of_nat_close(2, 1);
    close::lemma_of_nat_close(n, 64);
    close::lemma_of_nat_close(p, 32);
    let two = Datum::of_nat(2);
    let nd = Datum::of_nat(n);
    let pd = Datum::of_nat(p);
    close::lemma_times_close(two, 0, 1, nd, 0, 64);
    let twice = two.times(nd);
    assert((2 * one) * nd->mag == (2 * nd->mag) * one) by (nonlinear_arith);
    close::lemma_close_cancel(twice->mag, 2 * nd->mag, one, 1);
    close::lemma_close_scaled(nd->mag, n * one, 2, 1);
    assert(nd->mag * 2 == 2 * nd->mag && (n * one) * 2 == (2 * n) * one) by (nonlinear_arith);
    close::lemma_close_through(twice->mag, 2 * nd->mag, 1, (2 * n) * one, 1);
    close::lemma_times_close(twice, 0, 65, pd, 0, 32);
    let work = twice.times(pd);
    let t = twice->mag;
    assert(t * (p * one) == (t * p) * one) by (nonlinear_arith);
    close::lemma_close_cancel(work->mag, t * p, one, 1);
    close::lemma_close_scaled(t, (2 * n) * one, p, 2);
    assert(((2 * n) * one) * p == (2 * n * p) * one) by (nonlinear_arith);
    close::lemma_close_through(work->mag, t * p, 1, (2 * n * p) * one, 2);
}

proof fn lemma_time_close(hw: DeviceSet, n: nat, p: nat, share: Datum)
    requires
        is_rated(hw),
        is_share(share),
        0 < n <= u64::MAX,
        0 < p <= u32::MAX,
    ensures
        ({
            let work = Datum::of_nat(2).times(Datum::of_nat(n)).times(Datum::of_nat(p));
            let time = work.over(hw.flops().times(share));
            let one = binary64::one();
            &&& time.spans(133, 117)
            &&& close::close(
                time->mag * ((hw.device.peak_flops@->mag * hw.count as nat) * share->mag),
                (2 * n * p) * (one * one * one),
                6,
            )
        }),
{
    let one = binary64::one();
    let total = hw.device.peak_flops@->mag * hw.count as nat;
    let s = share->mag;
    let flops = hw.flops();
    lemma_flops_close(hw);
    lemma_work_close(n, p);
    lemma_pow2_pos(1074);
    let work = Datum::of_nat(2).times(Datum::of_nat(n)).times(Datum::of_nat(p));
    close::lemma_times_close(flops, 0, 132, share, 20, 1);
    let speed = flops.times(share);
    close::lemma_over_close(work, 0, 97, speed, 20, 133);
    let t = work.over(speed)->mag;
    // t * total * s ~ t * flops * s ~ t * speed * one ~ work * one * one ~ 2 n p one^3
    close::lemma_close_swap(flops->mag, total, 1);
    close::lemma_close_scaled(total, flops->mag, s, 1);
    close::lemma_close_swap(speed->mag * one, flops->mag * s, 1);
    close::lemma_close_through(total * s, flops->mag * s, 1, speed->mag * one, 1);
    close::lemma_close_scaled(total * s, speed->mag * one, t, 2);
    assert((total * s) * t == t * (total * s)) by (nonlinear_arith);
    let v = speed->mag;
    assert((v * one) * t == (t * v) * one) by (nonlinear_arith);
    close::lemma_close_scaled(t * v, work->mag * one, one, 1);
    close::lemma_close_through(t * (total * s), (t * v) * one, 2, (work->mag * one) * one, 1);
    close::lemma_close_scaled(work->mag, (2 * n * p) * one, one * one, 3);
    let k = work->mag;
    let z = 2 * n * p;
    assert(k * (one * one) == (k * one) * one) by (nonlinear_arith);
    assert((z * one) * (one * one) == z * (one * one * one)) by (nonlinear_arith);
    close::lemma_close_through(t * (total * s), (k * one) * one, 3, z * (one * one * one), 3);
}

/// Prefill is bound by compute: the time to the first token times what the devices reach
/// is two operations for each parameter and token of the prompt.
pub proof fn law_prefill_does_its_work<Q: QuantScheme + ?Sized, E: Allocator + ?Sized>(
    r: FitReport,
    m: ModelShape,
    hw: DeviceSet,
    q: &Q,
    e: &E,
    w: Workload,
    c: Calibration,
)
    requires
        fit::reports(r, m, hw, q, e, w, c),
        is_rated(hw),
        are_shares(c.mfu@),
        m.n_params > 0,
        w.prompt_tokens > 0,
    ensures
        ({
            let one = binary64::one();
            let work = (2 * m.n_params as nat * w.prompt_tokens as nat) * (one * one * one);
            let peak = hw.device.peak_flops@->mag * hw.count as nat;
            &&& r.ttft.low@ is Finite && r.ttft.best@ is Finite && r.ttft.high@ is Finite
            &&& close::close(r.ttft.low@->mag * (peak * c.mfu.high@->mag), work, 6)
            &&& close::close(r.ttft.best@->mag * (peak * c.mfu.best@->mag), work, 6)
            &&& close::close(r.ttft.high@->mag * (peak * c.mfu.low@->mag), work, 6)
        }),
{
    let n = m.n_params as nat;
    let p = w.prompt_tokens as nat;
    lemma_time_close(hw, n, p, c.mfu.low@);
    lemma_time_close(hw, n, p, c.mfu.best@);
    lemma_time_close(hw, n, p, c.mfu.high@);
    assert(r.ttft@.low == r.ttft.low@);
    assert(r.ttft@.best == r.ttft.best@);
    assert(r.ttft@.high == r.ttft.high@);
}

/// An empty prompt takes no time.
pub proof fn law_an_empty_prompt_takes_no_time(
    m: ModelShape,
    hw: DeviceSet,
    w: Workload,
    mfu: Band,
)
    requires
        is_rated(hw),
        are_shares(mfu),
        w.prompt_tokens == 0,
    ensures
        fit::first_token(m, hw, w, mfu).low == Datum::zero(),
        fit::first_token(m, hw, w, mfu).best == Datum::zero(),
        fit::first_token(m, hw, w, mfu).high == Datum::zero(),
{
    lemma2_to64();
    lemma2_to64_rest();
    let n = m.n_params as nat;
    let twice = Datum::of_nat(2).times(Datum::of_nat(n));
    order::lemma_of_nat_within(2, 1);
    order::lemma_of_nat_within(n, 64);
    order::lemma_times_within(Datum::of_nat(2), 1, Datum::of_nat(n), 64);
    binary64::lemma_of_nat_exact(0);
    binary64::lemma_of_nat_exact(2);
    lemma_flops_close(hw);
    close::lemma_times_close(hw.flops(), 0, 132, mfu.low, 20, 1);
    close::lemma_times_close(hw.flops(), 0, 132, mfu.best, 20, 1);
    close::lemma_times_close(hw.flops(), 0, 132, mfu.high, 20, 1);
    lemma_pow2_pos(1074);
    lemma_pow2_pos(2098);
    lemma_pow2_pos(1054);
    let one = binary64::one();
    assert(0 * one == 0);
    let t = twice->mag;
    assert(t * 0 == 0);
    rounding::lemma_nearest(0, one, 0, 0);
    reveal(Datum::times);
    reveal(Datum::of_nat);
    let work = twice.times(Datum::of_nat(0));
    assert(work == Datum::zero());
    lemma_zero_over(hw.flops().times(mfu.low));
    lemma_zero_over(hw.flops().times(mfu.best));
    lemma_zero_over(hw.flops().times(mfu.high));
}

proof fn lemma_zero_over(b: Datum)
    requires
        b.is_positive(),
    ensures
        Datum::zero().over(b) == Datum::zero(),
{
    reveal(Datum::over);
    assert(0 * binary64::one() == 0);
    rounding::lemma_nearest(0, b->mag, 0, 0);
    lemma_pow2_pos(2098);
}

/// A longer prompt, or a model of more parameters, never takes less time.
pub proof fn law_more_prefill_takes_no_less(
    small: ModelShape,
    large: ModelShape,
    hw: DeviceSet,
    short: Workload,
    long: Workload,
    mfu: Band,
)
    requires
        is_rated(hw),
        are_shares(mfu),
        small.n_params <= large.n_params,
        short.prompt_tokens <= long.prompt_tokens,
    ensures
        sizes::below(
            fit::first_token(small, hw, short, mfu),
            fit::first_token(large, hw, long, mfu),
        ),
{
    lemma2_to64();
    lemma2_to64_rest();
    lemma_pow2_pos(1054);
    let two = Datum::of_nat(2);
    let n1 = Datum::of_nat(small.n_params as nat);
    let n2 = Datum::of_nat(large.n_params as nat);
    let p1 = Datum::of_nat(short.prompt_tokens as nat);
    let p2 = Datum::of_nat(long.prompt_tokens as nat);
    order::lemma_of_nat_within(2, 1);
    order::lemma_of_nat_within(small.n_params as nat, 64);
    order::lemma_of_nat_within(large.n_params as nat, 64);
    order::lemma_of_nat_within(short.prompt_tokens as nat, 32);
    order::lemma_of_nat_within(long.prompt_tokens as nat, 32);
    order::lemma_times_within(two, 1, n1, 64);
    order::lemma_times_within(two, 1, n2, 64);
    order::lemma_of_nat_monotone(small.n_params as nat, large.n_params as nat);
    order::lemma_of_nat_monotone(short.prompt_tokens as nat, long.prompt_tokens as nat);
    order::lemma_times_monotone(two, n1, n2);
    order::lemma_times_monotone(two.times(n1), p1, p2);
    order::lemma_times_monotone(p2, two.times(n1), two.times(n2));
    order::lemma_times_commutes(p2, two.times(n1));
    order::lemma_times_commutes(p2, two.times(n2));
    let w1 = two.times(n1).times(p1);
    let w2 = two.times(n2).times(p2);
    order::lemma_at_most_transitive(w1, two.times(n1).times(p2), w2);
    lemma_flops_close(hw);
    close::lemma_times_close(hw.flops(), 0, 132, mfu.low, 20, 1);
    close::lemma_times_close(hw.flops(), 0, 132, mfu.best, 20, 1);
    close::lemma_times_close(hw.flops(), 0, 132, mfu.high, 20, 1);
    order::lemma_over_monotone(w1, w2, hw.flops().times(mfu.low));
    order::lemma_over_monotone(w1, w2, hw.flops().times(mfu.best));
    order::lemma_over_monotone(w1, w2, hw.flops().times(mfu.high));
}

/// The work of prefill is counted without any rounding, as long as it is below 2^53: the
/// time is that of `2 * n_params * prompt_tokens` operations.
pub proof fn law_prefill_work_is_exact(m: ModelShape, hw: DeviceSet, w: Workload, mfu: Band)
    requires
        m.n_params < TWO_52,
        2 * m.n_params * w.prompt_tokens < TWO_53,
    ensures
        ({
            let work = Datum::of_nat((2 * m.n_params * w.prompt_tokens) as nat);
            let t = fit::first_token(m, hw, w, mfu);
            &&& t.low == work.over(hw.flops().times(mfu.high))
            &&& t.best == work.over(hw.flops().times(mfu.best))
            &&& t.high == work.over(hw.flops().times(mfu.low))
        }),
{
    let n = m.n_params as nat;
    let p = w.prompt_tokens as nat;
    lemma_whole_product(2, n);
    assert((2 * n) * p == 2 * n * p);
    lemma_whole_product(2 * n, p);
}

/// A product of integers below 2^53 is exact.
proof fn lemma_whole_product(a: nat, b: nat)
    requires
        a < TWO_53,
        b < TWO_53,
        a * b < TWO_53,
    ensures
        Datum::of_nat(a).times(Datum::of_nat(b)) == Datum::of_nat(a * b),
{
    let one = binary64::one();
    binary64::lemma_of_nat_exact(a);
    binary64::lemma_of_nat_exact(b);
    binary64::lemma_of_nat_exact(a * b);
    lemma_pow2_pos(1074);
    let v = a * b;
    assert((a * one) * (b * one) == v * (pow2(1074) * one)) by (nonlinear_arith)
        requires
            v == a * b,
            one == pow2(1074),
    ;
    rounding::lemma_rounded_exact((a * one) * (b * one), one, v, 1074);
    assert(v * one == v * (pow2(1074) * 1));
    rounding::lemma_rounded_exact(v * one, 1, v, 1074);
    reveal(Datum::of_nat);
    reveal(Datum::times);
}

/// A product doubles with a factor.
proof fn lemma_times_doubles(a: Datum, lo1: nat, hi1: nat, b: Datum, c: Datum, lo2: nat, hi2: nat)
    requires
        a.spans(lo1, hi1),
        b.spans(lo2, hi2),
        c is Finite,
        !c->Finite_neg,
        c->mag == 2 * b->mag,
        lo1 + lo2 <= 900,
        hi1 + hi2 <= 900,
    ensures
        a.times(b).spans(lo1 + lo2, hi1 + hi2),
        a.times(c) is Finite,
        !a.times(c)->Finite_neg,
        a.times(c)->mag == 2 * a.times(b)->mag,
{
    close::lemma_times_close(a, lo1, hi1, b, lo2, hi2);
    let one = binary64::one();
    let x = a->mag;
    let y = b->mag;
    let p1 = pow2((1074 - lo1) as nat);
    let p2 = pow2((1074 - lo2) as nat);
    lemma_pow2_adds((1074 - lo1) as nat, (1074 - lo2) as nat);
    lemma_pow2_adds(52, 1074);
    lemma_pow2_strictly_increases(1126, (2148 - lo1 - lo2) as nat);
    lemma2_to64_rest();
    lemma2_to64();
    assert(x * y >= TWO_52 * one) by (nonlinear_arith)
        requires
            x >= p1,
            y >= p2,
            p1 * p2 >= TWO_52 * one,
    ;
    lemma_pow2_pos(1074);
    rounding::lemma_rounded_doubles(x * y, one);
    assert(x * (2 * y) == 2 * (x * y)) by (nonlinear_arith);
    lemma_large(a.times(b), lo1 + lo2, hi1 + hi2);
    reveal(Datum::times);
}

/// A quotient doubles with its dividend.
proof fn lemma_over_doubles(a: Datum, c: Datum, lo1: nat, hi1: nat, b: Datum, lo2: nat, hi2: nat)
    requires
        a.spans(lo1, hi1),
        b.spans(lo2, hi2),
        c is Finite,
        !c->Finite_neg,
        c->mag == 2 * a->mag,
        lo1 + hi2 <= 900,
        hi1 + lo2 <= 900,
    ensures
        a.over(b).spans(lo1 + hi2, hi1 + lo2),
        c.over(b) == a.over(b).times(Datum::of_nat(2)),
{
    close::lemma_over_close(a, lo1, hi1, b, lo2, hi2);
    let one = binary64::one();
    let x = a->mag;
    let y = b->mag;
    let p1 = pow2((1074 - lo1) as nat);
    let q2 = pow2(1074 + hi2);
    lemma_pow2_adds((1074 - lo1) as nat, 1074);
    lemma_pow2_adds(52, 1074 + hi2);
    lemma_pow2_strictly_increases(1126 + hi2, (2148 - lo1) as nat);
    lemma2_to64_rest();
    lemma2_to64();
    assert(x * one >= TWO_52 * y) by (nonlinear_arith)
        requires
            x >= p1,
            y <= q2,
            p1 * one >= TWO_52 * q2,
    ;
    rounding::lemma_rounded_doubles(x * one, y);
    assert((2 * x) * one == 2 * (x * one)) by (nonlinear_arith);
    lemma_large(a.over(b), lo1 + hi2, hi1 + lo2);
    order::lemma_over_representable(a, b);
    lemma_times_two(a.over(b));
    reveal(Datum::over);
}

/// A prompt twice as long takes twice the time, to the last bit.
pub proof fn law_twice_the_prompt_takes_twice_the_time(
    m: ModelShape,
    hw: DeviceSet,
    short: Workload,
    long: Workload,
    mfu: Band,
)
    requires
        is_rated(hw),
        are_shares(mfu),
        m.n_params > 0,
        short.prompt_tokens > 0,
        long.prompt_tokens == 2 * short.prompt_tokens,
    ensures
        ({
            let a = fit::first_token(m, hw, short, mfu);
            let b = fit::first_token(m, hw, long, mfu);
            &&& b.low == a.low.times(Datum::of_nat(2))
            &&& b.best == a.best.times(Datum::of_nat(2))
            &&& b.high == a.high.times(Datum::of_nat(2))
        }),
{
    let n = m.n_params as nat;
    let p = short.prompt_tokens as nat;
    lemma2_to64();
    lemma_work_close(n, p);
    lemma_of_nat_doubles(p);
    close::lemma_of_nat_close(p, 32);
    let twice = Datum::of_nat(2).times(Datum::of_nat(n));
    lemma_times_doubles(twice, 0, 65, Datum::of_nat(p), Datum::of_nat(2 * p), 0, 32);
    let work = twice.times(Datum::of_nat(p));
    let double = twice.times(Datum::of_nat(2 * p));
    lemma_flops_close(hw);
    close::lemma_times_close(hw.flops(), 0, 132, mfu.low, 20, 1);
    close::lemma_times_close(hw.flops(), 0, 132, mfu.best, 20, 1);
    close::lemma_times_close(hw.flops(), 0, 132, mfu.high, 20, 1);
    lemma_over_doubles(work, double, 0, 97, hw.flops().times(mfu.low), 20, 133);
    lemma_over_doubles(work, double, 0, 97, hw.flops().times(mfu.best), 20, 133);
    lemma_over_doubles(work, double, 0, 97, hw.flops().times(mfu.high), 20, 133);
}

/// More devices of a kind take no longer to the first token.
pub proof fn law_more_devices_prefill_no_slower(
    m: ModelShape,
    hw: DeviceSet,
    more: DeviceSet,
    w: Workload,
    mfu: Band,
)
    requires
        is_rated(hw),
        are_shares(mfu),
        more.device == hw.device,
        more.count >= hw.count,
    ensures
        sizes::below(fit::first_token(m, more, w, mfu), fit::first_token(m, hw, w, mfu)),
{
    let peak = hw.device.peak_flops@;
    let a = Datum::of_nat(hw.count as nat);
    let b = Datum::of_nat(more.count as nat);
    lemma2_to64();
    lemma2_to64_rest();
    lemma_flops_close(hw);
    lemma_flops_close(more);
    order::lemma_of_nat_monotone(hw.count as nat, more.count as nat);
    close::lemma_of_nat_close(hw.count as nat, 32);
    close::lemma_of_nat_close(more.count as nat, 32);
    order::lemma_times_monotone(peak, a, b);
    let n = m.n_params as nat;
    let p = w.prompt_tokens as nat;
    let two = Datum::of_nat(2);
    order::lemma_of_nat_within(2, 1);
    order::lemma_of_nat_within(n, 64);
    order::lemma_of_nat_within(p, 32);
    order::lemma_times_within(two, 1, Datum::of_nat(n), 64);
    order::lemma_times_within(two.times(Datum::of_nat(n)), 65, Datum::of_nat(p), 32);
    let work = two.times(Datum::of_nat(n)).times(Datum::of_nat(p));
    lemma_time_antitone(work, hw.flops(), more.flops(), mfu.low);
    lemma_time_antitone(work, hw.flops(), more.flops(), mfu.best);
    lemma_time_antitone(work, hw.flops(), more.flops(), mfu.high);
}

proof fn lemma_time_antitone(work: Datum, few: Datum, many: Datum, share: Datum)
    requires
        work.is_size(),
        few.spans(0, 132),
        many.spans(0, 132),
        few.at_most(many),
        is_share(share),
    ensures
        work.over(many.times(share)).at_most(work.over(few.times(share))),
{
    close::lemma_times_close(few, 0, 132, share, 20, 1);
    close::lemma_times_close(many, 0, 132, share, 20, 1);
    order::lemma_times_monotone(share, few, many);
    order::lemma_times_commutes(share, few);
    order::lemma_times_commutes(share, many);
    lemma_pow2_pos(1054);
    order::lemma_over_larger(work, few.times(share), many.times(share));
}

proof fn lemma_ridge_parts(m: ModelShape, hw: DeviceSet, weights: nat)
    requires
        is_rated(hw),
        m.n_params > 0,
        0 < weights <= u64::MAX,
    ensures
        ({
            let n = m.n_params as nat;
            let each = hw.flops().over(hw.bandwidth());
            let all = each.times(Datum::of_nat(weights));
            let twice = Datum::of_nat(2).times(Datum::of_nat(n));
            let batch = all.over(twice);
            &&& each.spans(96, 132)
            &&& all.spans(96, 196)
            &&& twice.spans(0, 65)
            &&& batch.spans(161, 196)
            &&& close::close(
                batch->mag * (2 * n * hw.device.mem_bw_bytes_s as nat),
                weights * hw.device.peak_flops@->mag,
                9,
            )
        }),
{
    let one = binary64::one();
    let n = m.n_params as nat;
    let bwb = hw.device.mem_bw_bytes_s as nat;
    let count = hw.count as nat;
    let peak = hw.device.peak_flops@->mag;
    lemma2_to64();
    lemma2_to64_rest();
    lemma_pow2_pos(1074);
    lemma_flops_close(hw);
    lemma_bandwidth_close(hw);
    lemma_work_close(n, 1);
    close::lemma_of_nat_close(weights, 64);
    close::lemma_over_close(hw.flops(), 0, 132, hw.bandwidth(), 0, 96);
    let each = hw.flops().over(hw.bandwidth());
    let wd = Datum::of_nat(weights);
    close::lemma_times_close(each, 96, 132, wd, 0, 64);
    let all = each.times(wd);
    let twice = Datum::of_nat(2).times(Datum::of_nat(n));
    close::lemma_over_close(all, 96, 196, twice, 0, 65);
    let b = all.over(twice)->mag;
    let f = each->mag;
    let bw = hw.bandwidth()->mag;
    let fl = hw.flops()->mag;
    let d = twice->mag;
    let x = all->mag;
    // b * 2n * one ~ b * d ~ x * one ~ f * wd ~ f * weights * one
    close::lemma_close_swap(d, (2 * n) * one, 2);
    close::lemma_close_scaled((2 * n) * one, d, b, 2);
    assert(((2 * n) * one) * b == (b * (2 * n)) * one && d * b == b * d) by (nonlinear_arith);
    close::lemma_close_through((b * (2 * n)) * one, b * d, 2, x * one, 1);
    close::lemma_close_through((b * (2 * n)) * one, x * one, 3, f * wd->mag, 1);
    close::lemma_close_scaled(wd->mag, weights * one, f, 1);
    let g = wd->mag;
    assert(g * f == f * g && (weights * one) * f == (f * weights) * one) by (nonlinear_arith);
    close::lemma_close_through((b * (2 * n)) * one, f * g, 4, (f * weights) * one, 1);
    close::lemma_close_cancel(b * (2 * n), f * weights, one, 5);
    // times the bandwidth: f * bw ~ fl * one ~ peak * count * one
    close::lemma_close_scaled(b * (2 * n), f * weights, bw, 5);
    assert((f * weights) * bw == (f * bw) * weights) by (nonlinear_arith);
    close::lemma_close_scaled(f * bw, fl * one, weights, 1);
    close::lemma_close_through(
        (b * (2 * n)) * bw,
        (f * bw) * weights,
        5,
        (fl * one) * weights,
        1,
    );
    close::lemma_close_scaled(fl, peak * count, one * weights, 1);
    assert(fl * (one * weights) == (fl * one) * weights) by (nonlinear_arith);
    close::lemma_close_through(
        (b * (2 * n)) * bw,
        (fl * one) * weights,
        6,
        (peak * count) * (one * weights),
        1,
    );
    // and bw ~ bwb * count * one
    close::lemma_close_swap(bw, (bwb * count) * one, 2);
    close::lemma_close_scaled((bwb * count) * one, bw, b * (2 * n), 2);
    let l = b * (2 * n);
    assert(bw * l == l * bw) by (nonlinear_arith);
    close::lemma_close_through(
        ((bwb * count) * one) * l,
        l * bw,
        2,
        (peak * count) * (one * weights),
        7,
    );
    let c = count * one;
    assert(((bwb * count) * one) * l == (b * (2 * n * bwb)) * c) by (nonlinear_arith)
        requires
            l == b * (2 * n),
            c == count * one,
    ;
    assert((peak * count) * (one * weights) == (weights * peak) * c) by (nonlinear_arith)
        requires
            c == count * one,
    ;
    assert(c > 0) by (nonlinear_arith)
        requires
            c == count * one,
            count > 0,
            one > 0,
    ;
    close::lemma_close_cancel(b * (2 * n * bwb), weights * peak, c, 9);
}

/// At the ridge point the time to compute a batch equals the time to read the weights
/// once: batch times two operations for each parameter, over the peak, is weights over
/// bandwidth. The count of devices drops out.
pub proof fn law_the_ridge_balances<Q: QuantScheme + ?Sized, E: Allocator + ?Sized>(
    r: FitReport,
    m: ModelShape,
    hw: DeviceSet,
    q: &Q,
    e: &E,
    w: Workload,
    c: Calibration,
)
    requires
        fit::reports(r, m, hw, q, e, w, c),
        is_rated(hw),
        m.n_params > 0,
        r.weights > 0,
    ensures
        r.ridge_batch@ is Finite,
        close::close(
            r.ridge_batch@->mag * (2 * m.n_params as nat * hw.device.mem_bw_bytes_s as nat),
            r.weights as nat * hw.device.peak_flops@->mag,
            9,
        ),
{
    lemma_ridge_parts(m, hw, r.weights as nat);
}

/// Lighter weights never have a higher ridge.
pub proof fn law_lighter_weights_have_no_higher_ridge<
    Q: QuantScheme + ?Sized,
    P: QuantScheme + ?Sized,
    E: Allocator + ?Sized,
>(
    heavy: FitReport,
    light: FitReport,
    m: ModelShape,
    hw: DeviceSet,
    q: &Q,
    p: &P,
    e: &E,
    w: Workload,
    c: Calibration,
)
    requires
        fit::reports(heavy, m, hw, q, e, w, c),
        fit::reports(light, m, hw, p, e, w, c),
        is_rated(hw),
        m.n_params > 0,
        0 < light.weights <= heavy.weights,
    ensures
        light.ridge_batch@.at_most(heavy.ridge_batch@),
{
    lemma2_to64_rest();
    lemma_pow2_pos(1074);
    lemma_ridge_parts(m, hw, light.weights as nat);
    lemma_ridge_parts(m, hw, heavy.weights as nat);
    let each = hw.flops().over(hw.bandwidth());
    let a = Datum::of_nat(light.weights as nat);
    let b = Datum::of_nat(heavy.weights as nat);
    order::lemma_of_nat_monotone(light.weights as nat, heavy.weights as nat);
    close::lemma_of_nat_close(light.weights as nat, 64);
    close::lemma_of_nat_close(heavy.weights as nat, 64);
    order::lemma_times_monotone(each, a, b);
    order::lemma_over_monotone(
        each.times(a),
        each.times(b),
        Datum::of_nat(2).times(Datum::of_nat(m.n_params as nat)),
    );
}

/// Half the weights have half the ridge, to the last bit.
pub proof fn law_half_the_weights_have_half_the_ridge<
    Q: QuantScheme + ?Sized,
    P: QuantScheme + ?Sized,
    E: Allocator + ?Sized,
>(
    heavy: FitReport,
    light: FitReport,
    m: ModelShape,
    hw: DeviceSet,
    q: &Q,
    p: &P,
    e: &E,
    w: Workload,
    c: Calibration,
)
    requires
        fit::reports(heavy, m, hw, q, e, w, c),
        fit::reports(light, m, hw, p, e, w, c),
        is_rated(hw),
        m.n_params > 0,
        light.weights > 0,
        heavy.weights == 2 * light.weights,
    ensures
        heavy.ridge_batch@ == light.ridge_batch@.times(Datum::of_nat(2)),
{
    let half = light.weights as nat;
    lemma_ridge_parts(m, hw, half);
    lemma_of_nat_doubles(half);
    let each = hw.flops().over(hw.bandwidth());
    let twice = Datum::of_nat(2).times(Datum::of_nat(m.n_params as nat));
    lemma_times_doubles(each, 96, 132, Datum::of_nat(half), Datum::of_nat(2 * half), 0, 64);
    lemma_over_doubles(
        each.times(Datum::of_nat(half)),
        each.times(Datum::of_nat(2 * half)),
        96,
        196,
        twice,
        0,
        65,
    );
}

/// In fp8 the ridge is half of what it is in fp16.
pub proof fn law_fp8_halves_the_ridge<E: Allocator + ?Sized>(
    r16: FitReport,
    r8: FitReport,
    m: ModelShape,
    hw: DeviceSet,
    e: &E,
    w: Workload,
    c: Calibration,
)
    requires
        fit::reports(r16, m, hw, &Fp16, e, w, c),
        fit::reports(r8, m, hw, &Fp8, e, w, c),
        is_rated(hw),
        0 < m.n_params < TWO_52,
    ensures
        r16.weights == 2 * r8.weights,
        r16.ridge_batch@ == r8.ridge_batch@.times(Datum::of_nat(2)),
{
    assert(Fp16.weight() == Datum::of_nat(2));
    assert(Fp8.weight() == Datum::of_nat(1));
    sizes::law_whole_byte_weights_are_exact(m, 2);
    sizes::law_whole_byte_weights_are_exact(m, 1);
    law_half_the_weights_have_half_the_ridge(r16, r8, m, hw, &Fp16, &Fp8, e, w, c);
}

} // verus!
