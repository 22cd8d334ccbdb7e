//! Whether a model serves on a set of devices, how many sequences, and how fast.

use crate::binary64::{Datum, F64};
use crate::sizing::{
    Allocator, Band, Calibration, DeviceSet, Fp8, Interval, ModelShape, QuantScheme, Workload,
};
use crate::text;
use vstd::prelude::*;

verus! {

/// Bytes of the weights under a quantisation.
pub fn weights_bytes<Q: QuantScheme + ?Sized>(m: &ModelShape, q: &Q) -> (r: u64)
    ensures
        r == m.weights(q.weight()),
{
    F64::from_u64(m.n_params).mul(q.bytes_per_weight()).round_u64()
}

/// Bytes of state over all layers at sequence length `n`.
pub fn state_bytes(m: &ModelShape, n: u64, kv_bytes: u8) -> (r: u64)
    requires
        m.state_fits(n as nat, kv_bytes as nat),
    ensures
        r == m.state_at(n as nat, kv_bytes as nat),
{
    m.state.layer_state_bytes(n, kv_bytes) * m.layers as u64
}

/// `state_bytes`, or `None` where a product does not fit in 64 bits.
pub fn checked_state_bytes(m: &ModelShape, n: u64, kv_bytes: u8) -> (r: Option<u64>)
    ensures
        r is Some <==> m.state_fits(n as nat, kv_bytes as nat),
        r matches Some(b) ==> b == m.state_at(n as nat, kv_bytes as nat),
{
    m.state.checked_layer_state_bytes(n, kv_bytes)?.checked_mul(m.layers as u64)
}

/// Prefill is compute-bound: two operations for each parameter and token, over the
/// part of the peak that is reached. A high efficiency makes the low time.
pub open spec fn first_token(m: ModelShape, hw: DeviceSet, w: Workload, mfu: Band) -> Band {
    let work = Datum::of_nat(2).times(Datum::of_nat(m.n_params as nat)).times(
        Datum::of_nat(w.prompt_tokens as nat),
    );
    Band::spread(
        work.over(hw.flops().times(mfu.high)),
        work.over(hw.flops().times(mfu.best)),
        work.over(hw.flops().times(mfu.low)),
        mfu.calibrated,
    )
}

/// Seconds to the first token.
pub fn ttft_s(m: &ModelShape, hw: &DeviceSet, w: &Workload, c: &Calibration) -> (r: Interval)
    ensures
        r@ == first_token(*m, *hw, *w, c.mfu@),
{
    let work = F64::from_u64(2).mul(F64::from_u64(m.n_params)).mul(
        F64::from_u64(w.prompt_tokens as u64),
    );
    let flops = hw.total_flops();
    Interval::band(
        work.div(flops.mul(c.mfu.high)),
        work.div(flops.mul(c.mfu.best)),
        work.div(flops.mul(c.mfu.low)),
        c.mfu.calibrated,
    )
}

/// Decode is memory-bound: weights and state are read once for each token.
pub open spec fn token_rate(hw: DeviceSet, bytes_read: nat, mbu: Band) -> Band {
    let read = Datum::of_nat(bytes_read);
    Band::spread(
        hw.bandwidth().times(mbu.low).over(read),
        hw.bandwidth().times(mbu.best).over(read),
        hw.bandwidth().times(mbu.high).over(read),
        mbu.calibrated,
    )
}

/// Bytes that decode reads for one token.
pub open spec fn read_per_token(m: ModelShape, weight: Datum, w: Workload) -> nat {
    m.weights(weight) as nat + m.state_at(w.ctx as nat, w.kv_bytes as nat)
}

fn rate(hw: &DeviceSet, bytes_read: u64, mbu: Interval) -> (r: Interval)
    ensures
        r@ == token_rate(*hw, bytes_read as nat, mbu@),
{
    let read = F64::from_u64(bytes_read);
    let bw = hw.total_bw();
    Interval::band(
        bw.mul(mbu.low).div(read),
        bw.mul(mbu.best).div(read),
        bw.mul(mbu.high).div(read),
        mbu.calibrated,
    )
}

/// Tokens per second of one request.
pub fn decode_tok_s<Q: QuantScheme + ?Sized>(
    m: &ModelShape,
    hw: &DeviceSet,
    q: &Q,
    w: &Workload,
    c: &Calibration,
) -> (r: Interval)
    requires
        m.state_fits(w.ctx as nat, w.kv_bytes as nat),
        read_per_token(*m, q.weight(), *w) <= u64::MAX,
    ensures
        r@ == token_rate(*hw, read_per_token(*m, q.weight(), *w), c.mbu@),
{
    rate(hw, weights_bytes(m, q) + state_bytes(m, w.ctx as u64, w.kv_bytes), c.mbu)
}

/// The batch at which decode turns from memory-bound to compute-bound.
pub open spec fn ridge(m: ModelShape, hw: DeviceSet, weight: Datum) -> Datum {
    hw.flops().over(hw.bandwidth()).times(Datum::of_nat(m.weights(weight) as nat)).over(
        Datum::of_nat(2).times(Datum::of_nat(m.n_params as nat)),
    )
}

/// The batch at which decode turns from memory-bound to compute-bound.
pub fn ridge_batch<Q: QuantScheme + ?Sized>(m: &ModelShape, hw: &DeviceSet, q: &Q) -> (r: F64)
    ensures
        r@ == ridge(*m, *hw, q.weight()),
{
    hw.total_flops().div(hw.total_bw()).mul(F64::from_u64(weights_bytes(m, q))).div(
        F64::from_u64(2).mul(F64::from_u64(m.n_params)),
    )
}

/// Everything that is known about one setup.
pub struct FitReport {
    pub model: ModelShape,
    pub hw: DeviceSet,
    pub quant_name: String,
    pub engine_name: String,
    pub util: Option<F64>,
    pub total_vram: u64,
    pub managed_pool: Option<u64>,
    pub weights: u64,
    pub overhead: Interval,
    pub kv_pool: Interval,
    pub kv_per_token: u64,
    pub bytes_per_seq: u64,
    pub kv_bytes: u8,
    pub ctx: u32,
    pub max_seqs: (i64, i64, i64),
    pub serves: bool,
    pub naive_would_say: bool,
    pub ttft: Interval,
    pub decode: Interval,
    pub ridge_batch: F64,
    pub recommendations: Vec<(String, String)>,
    pub not_modeled: Vec<&'static str>,
    pub calibrated: bool,
}

/// How many sequences a pool holds.
pub open spec fn sequences(pool: Datum, per_seq: nat) -> i64 {
    if per_seq == 0 {
        0
    } else {
        pool.over(Datum::of_nat(per_seq)).floor_i64()
    }
}

pub open spec fn not_negative(n: i64) -> i64 {
    if n < 0 {
        0
    } else {
        n
    }
}

/// The KV pool of a setup.
pub open spec fn pool_of<E: Allocator + ?Sized>(
    m: ModelShape,
    hw: DeviceSet,
    weight: Datum,
    e: &E,
    overhead: Band,
) -> Band {
    e.pool(hw.vram() as u64, m.weights(weight), overhead)
}

/// Bytes of state of one sequence.
pub open spec fn per_sequence(m: ModelShape, w: Workload) -> nat {
    m.state_at(w.ctx as nat, w.kv_bytes as nat)
}

/// The best estimate of the sequences that a setup holds.
pub open spec fn holds<E: Allocator + ?Sized>(
    m: ModelShape,
    hw: DeviceSet,
    weight: Datum,
    e: &E,
    w: Workload,
    overhead: Band,
) -> i64 {
    sequences(pool_of(m, hw, weight, e, overhead).best, per_sequence(m, w))
}

pub open spec fn with_count(hw: DeviceSet, count: u32) -> DeviceSet {
    DeviceSet { device: hw.device, count }
}

/// The first of the counts `from`, `2 * from`, ... up to eight that is more than
/// there is and lets the model serve.
pub open spec fn larger_set<E: Allocator + ?Sized>(
    m: ModelShape,
    hw: DeviceSet,
    weight: Datum,
    e: &E,
    w: Workload,
    overhead: Band,
    from: nat,
) -> Option<u32>
    decreases 16 - from,
{
    if from == 0 || from > 8 {
        None
    } else if from > hw.count && holds(
        m,
        with_count(hw, from as u32),
        weight,
        e,
        w,
        overhead,
    ) >= 1 {
        Some(from as u32)
    } else {
        larger_set(m, hw, weight, e, w, overhead, 2 * from)
    }
}

/// The VRAM of each set that `larger_set` looks at fits in 64 bits.
pub open spec fn larger_sets_fit<E: Allocator + ?Sized>(
    m: ModelShape,
    hw: DeviceSet,
    weight: Datum,
    e: &E,
    w: Workload,
    overhead: Band,
    from: nat,
) -> bool
    decreases 16 - from,
{
    if from == 0 || from > 8 {
        true
    } else if from > hw.count {
        &&& with_count(hw, from as u32).vram() <= u64::MAX
        &&& holds(m, with_count(hw, from as u32), weight, e, w, overhead) >= 1
            || larger_sets_fit(m, hw, weight, e, w, overhead, 2 * from)
    } else {
        larger_sets_fit(m, hw, weight, e, w, overhead, 2 * from)
    }
}

/// No byte count of the setup exceeds 64 bits.
pub open spec fn in_range<E: Allocator + ?Sized>(
    m: ModelShape,
    hw: DeviceSet,
    weight: Datum,
    e: &E,
    w: Workload,
    overhead: Band,
) -> bool {
    &&& hw.vram() <= u64::MAX
    &&& m.state_fits(1, w.kv_bytes as nat)
    &&& m.state_fits(w.ctx as nat, w.kv_bytes as nat)
    &&& read_per_token(m, weight, w) <= u64::MAX
    &&& holds(m, hw, weight, e, w, overhead) >= 1 || larger_sets_fit(
        m,
        hw,
        weight,
        e,
        w,
        overhead,
        2,
    )
}

/// A recommendation: what to change, and what it brings.
pub open spec fn texts(list: Seq<(String, String)>) -> Seq<(Seq<char>, Seq<char>)> {
    list.map_values(|p: (String, String)| (p.0@, p.1@))
}

/// What to change where the model does not serve: weights in fp8 (the KV cache keeps
/// its dtype), and the first larger set of devices, as far as they help.
pub open spec fn advice<E: Allocator + ?Sized>(
    m: ModelShape,
    hw: DeviceSet,
    weight: Datum,
    e: &E,
    w: Workload,
    overhead: Band,
) -> Seq<(Seq<char>, Seq<char>)> {
    let n8 = holds(m, hw, Datum::of_nat(1), e, w, overhead);
    let lighter = if n8 >= 1 {
        seq![
            (
                "--dtype fp8"@,
                "~"@ + text::integer(n8 as int) + " seqs @"@ + text::digits(
                    (w.ctx / 1024) as nat,
                ) + "k"@,
            ),
        ]
    } else {
        Seq::empty()
    };
    match larger_set(m, hw, weight, e, w, overhead, 2) {
        Some(count) => lighter.push(
            ("--gpu "@ + hw.device.name@ + ":"@ + text::digits(count as nat), "fits"@),
        ),
        None => lighter,
    }
}

/// `r` is the report on a setup.
pub open spec fn reports<Q: QuantScheme + ?Sized, E: Allocator + ?Sized>(
    r: FitReport,
    m: ModelShape,
    hw: DeviceSet,
    q: &Q,
    e: &E,
    w: Workload,
    c: Calibration,
) -> bool {
    let pool = pool_of(m, hw, q.weight(), e, c.overhead@);
    let per_seq = per_sequence(m, w);
    &&& r.model == m
    &&& r.hw == hw
    &&& r.quant_name@ == q.label()
    &&& r.engine_name@ == e.label()
    &&& r.util is Some <==> e.share() is Some
    &&& r.util matches Some(u) ==> e.share() == Some(u@)
    &&& r.total_vram == hw.vram()
    &&& r.managed_pool == crate::sizing::reserved(e.share(), hw.vram() as u64)
    &&& r.weights == m.weights(q.weight())
    &&& r.overhead == c.overhead
    &&& r.kv_pool@ == pool
    &&& r.kv_per_token == m.state_at(1, w.kv_bytes as nat)
    &&& r.bytes_per_seq == per_seq
    &&& r.kv_bytes == w.kv_bytes
    &&& r.ctx == w.ctx
    &&& r.max_seqs.0 == not_negative(sequences(pool.low, per_seq))
    &&& r.max_seqs.1 == not_negative(sequences(pool.best, per_seq))
    &&& r.max_seqs.2 == not_negative(sequences(pool.high, per_seq))
    &&& r.serves == (sequences(pool.best, per_seq) >= 1)
    &&& r.naive_would_say == Datum::of_nat(r.weights as nat).less(Datum::of_nat(hw.vram()))
    &&& r.ttft@ == first_token(m, hw, w, c.mfu@)
    &&& r.decode@ == token_rate(hw, read_per_token(m, q.weight(), w), c.mbu@)
    &&& r.ridge_batch@ == ridge(m, hw, q.weight())
    &&& texts(r.recommendations@) == if r.serves {
        Seq::empty()
    } else {
        advice(m, hw, q.weight(), e, w, c.overhead@)
    }
    &&& r.not_modeled@.map_values(|s: &'static str| s@) == seq![
        "prefix-cache"@,
        "chunked-prefill"@,
    ]
    &&& r.calibrated == c.overhead.calibrated
}

fn count_sequences(pool: F64, per_seq: u64) -> (r: i64)
    ensures
        r == sequences(pool@, per_seq as nat),
{
    if per_seq == 0 {
        0
    } else {
        pool.div(F64::from_u64(per_seq)).floor_i64()
    }
}

fn clip(n: i64) -> (r: i64)
    ensures
        r == not_negative(n),
{
    if n < 0 {
        0
    } else {
        n
    }
}

/// Looks for a larger set of devices; `None` where the VRAM of one that it has to
/// look at does not fit in 64 bits.
fn find_larger_set<E: Allocator + ?Sized>(
    hw: &DeviceSet,
    weights: u64,
    per_seq: u64,
    e: &E,
    overhead: Interval,
    Ghost(m): Ghost<ModelShape>,
    Ghost(weight): Ghost<Datum>,
    Ghost(w): Ghost<Workload>,
) -> (r: Option<Option<u32>>)
    requires
        weights == m.weights(weight),
        per_seq == per_sequence(m, w),
    ensures
        r is Some <==> larger_sets_fit(m, *hw, weight, e, w, overhead@, 2),
        r matches Some(found) ==> found == larger_set(m, *hw, weight, e, w, overhead@, 2),
{
    let mut extra: u32 = 2;
    while extra <= 8
        invariant
            extra == 2 || extra == 4 || extra == 8 || extra == 16,
            weights == m.weights(weight),
            per_seq == per_sequence(m, w),
            larger_sets_fit(m, *hw, weight, e, w, overhead@, 2) == larger_sets_fit(
                m,
                *hw,
                weight,
                e,
                w,
                overhead@,
                extra as nat,
            ),
            larger_set(m, *hw, weight, e, w, overhead@, 2) == larger_set(
                m,
                *hw,
                weight,
                e,
                w,
                overhead@,
                extra as nat,
            ),
        decreases 16 - extra,
    {
        if extra > hw.count {
            let vram: u64 = hw.device.vram_bytes.checked_mul(extra as u64)?;
            let pool = e.kv_pool_bytes(vram, weights, overhead);
            if count_sequences(pool.best, per_seq) >= 1 {
                return Some(Some(extra));
            }
        }
        extra = extra * 2;
    }
    Some(None)
}

/// `fit`, or `None` where a byte count does not fit in 64 bits.
pub fn checked_fit<Q: QuantScheme + ?Sized, E: Allocator + ?Sized>(
    m: &ModelShape,
    hw: &DeviceSet,
    q: &Q,
    e: &E,
    w: &Workload,
    c: &Calibration,
) -> (r: Option<FitReport>)
    ensures
        r is Some <==> in_range(*m, *hw, q.weight(), e, *w, c.overhead@),
        r matches Some(report) ==> reports(report, *m, *hw, q, e, *w, *c),
{
    let total_vram: u64 = hw.device.vram_bytes.checked_mul(hw.count as u64)?;
    let weights = weights_bytes(m, q);
    let kv_pool = e.kv_pool_bytes(total_vram, weights, c.overhead);

    let kv_per_token = checked_state_bytes(m, 1, w.kv_bytes)?;
    let bytes_per_seq = checked_state_bytes(m, w.ctx as u64, w.kv_bytes)?;
    let max_seqs = (
        clip(count_sequences(kv_pool.low, bytes_per_seq)),
        clip(count_sequences(kv_pool.best, bytes_per_seq)),
        clip(count_sequences(kv_pool.high, bytes_per_seq)),
    );
    let serves = max_seqs.1 >= 1;
    let naive_would_say = F64::from_u64(weights).lt(F64::from_u64(total_vram));

    let ttft = ttft_s(m, hw, w, c);
    let _bytes_read: u64 = weights.checked_add(bytes_per_seq)?;
    let decode = decode_tok_s(m, hw, q, w, c);

    let mut recommendations: Vec<(String, String)> = Vec::new();
    proof {
        assert(texts(recommendations@) =~= Seq::empty());
    }
    if !serves {
        // Only the weights shrink under fp8; the KV cache keeps its dtype.
        let fp8 = Fp8;
        let pool8 = e.kv_pool_bytes(total_vram, weights_bytes(m, &fp8), c.overhead);
        let n8 = count_sequences(pool8.best, bytes_per_seq);
        if n8 >= 1 {
            let change = "--dtype fp8".to_owned();
            let mut effect = "~".to_owned();
            effect.append(text::show_i64(n8).as_str());
            effect.append(" seqs @");
            effect.append(text::show_u64((w.ctx / 1024) as u64).as_str());
            effect.append("k");
            let ghost pair = (change@, effect@);
            recommendations.push((change, effect));
            proof {
                assert(texts(recommendations@) =~= seq![pair]);
            }
        }
        let ghost lighter = texts(recommendations@);
        let larger = find_larger_set(
            hw,
            weights,
            bytes_per_seq,
            e,
            c.overhead,
            Ghost(*m),
            Ghost(q.weight()),
            Ghost(*w),
        )?;
        if let Some(count) = larger {
            let mut change = "--gpu ".to_owned();
            change.append(hw.device.name.as_str());
            change.append(":");
            change.append(text::show_u64(count as u64).as_str());
            let effect = "fits".to_owned();
            let ghost pair = (change@, effect@);
            recommendations.push((change, effect));
            proof {
                assert(texts(recommendations@) =~= lighter.push(pair));
            }
        }
    }
    let not_modeled: Vec<&'static str> = vec!["prefix-cache", "chunked-prefill"];
    proof {
        assert(not_modeled@.map_values(|s: &'static str| s@) =~= seq![
            "prefix-cache"@,
            "chunked-prefill"@,
        ]);
    }
    Some(
        FitReport {
            model: m.clone(),
            hw: hw.clone(),
            quant_name: q.name().to_owned(),
            engine_name: e.name().to_owned(),
            util: e.util(),
            total_vram,
            managed_pool: e.managed_pool(total_vram),
            weights,
            overhead: c.overhead,
            kv_pool,
            kv_per_token,
            bytes_per_seq,
            kv_bytes: w.kv_bytes,
            ctx: w.ctx,
            max_seqs,
            serves,
            naive_would_say,
            ttft,
            decode,
            ridge_batch: ridge_batch(m, hw, q),
            recommendations,
            not_modeled,
            calibrated: c.overhead.calibrated,
        },
    )
}

/// Engine-aware fit, capacity and speed. Never names an engine.
pub fn fit<Q: QuantScheme + ?Sized, E: Allocator + ?Sized>(
    m: &ModelShape,
    hw: &DeviceSet,
    q: &Q,
    e: &E,
    w: &Workload,
    c: &Calibration,
) -> (r: FitReport)
    requires
        in_range(*m, *hw, q.weight(), e, *w, c.overhead@),
    ensures
        reports(r, *m, *hw, q, e, *w, *c),
{
    checked_fit(m, hw, q, e, w, c).unwrap()
}

/// The operating point of one step of a sweep.
pub open spec fn at_context(ctx: u32, prompt_tokens: u32, kv_bytes: u8) -> Workload {
    Workload { ctx, prompt_tokens, concurrency: None, kv_bytes }
}

/// `fit` at each of several context lengths, in their order; `None` where a byte
/// count does not fit in 64 bits.
pub fn checked_scan<Q: QuantScheme + ?Sized, E: Allocator + ?Sized>(
    m: &ModelShape,
    hw: &DeviceSet,
    q: &Q,
    e: &E,
    prompt: u32,
    kv_bytes: u8,
    ctxs: &[u32],
    c: &Calibration,
) -> (r: Option<Vec<FitReport>>)
    ensures
        r is Some <==> forall|i: int|
            0 <= i < ctxs@.len() ==> in_range(
                *m,
                *hw,
                q.weight(),
                e,
                at_context(#[trigger] ctxs@[i], prompt, kv_bytes),
                c.overhead@,
            ),
        r matches Some(list) ==> sweeps(list@, *m, *hw, q, e, prompt, kv_bytes, ctxs@, *c),
{
    let mut list: Vec<FitReport> = Vec::new();
    let mut i: usize = 0;
    while i < ctxs.len()
        invariant
            i <= ctxs@.len(),
            list@.len() == i,
            forall|k: int|
                0 <= k < i ==> in_range(
                    *m,
                    *hw,
                    q.weight(),
                    e,
                    at_context(#[trigger] ctxs@[k], prompt, kv_bytes),
                    c.overhead@,
                ),
            forall|k: int|
                0 <= k < i ==> reports(
                    #[trigger] list@[k],
                    *m,
                    *hw,
                    q,
                    e,
                    at_context(ctxs@[k], prompt, kv_bytes),
                    *c,
                ),
        decreases ctxs.len() - i,
    {
        let w = Workload { ctx: ctxs[i], prompt_tokens: prompt, concurrency: None, kv_bytes };
        let report = checked_fit(m, hw, q, e, &w, c)?;
        list.push(report);
        i = i + 1;
    }
    Some(list)
}

/// The reports are those on the context lengths, in their order.
pub open spec fn sweeps<Q: QuantScheme + ?Sized, E: Allocator + ?Sized>(
    list: Seq<FitReport>,
    m: ModelShape,
    hw: DeviceSet,
    q: &Q,
    e: &E,
    prompt: u32,
    kv_bytes: u8,
    ctxs: Seq<u32>,
    c: Calibration,
) -> bool {
    &&& list.len() == ctxs.len()
    &&& forall|i: int|
        0 <= i < list.len() ==> reports(
            #[trigger] list[i],
            m,
            hw,
            q,
            e,
            at_context(ctxs[i], prompt, kv_bytes),
            c,
        )
}

/// The context lengths of a scan.
pub open spec fn scanned() -> Seq<u32> {
    seq![512u32, 1024, 2048, 4096, 8192, 16384, 32768, 65536, 131072]
}

pub fn scan_contexts() -> (r: Vec<u32>)
    ensures
        r@ == scanned(),
{
    let r: Vec<u32> = vec![512, 1024, 2048, 4096, 8192, 16384, 32768, 65536, 131072];
    assert(r@ =~= scanned());
    r
}

} // verus!
