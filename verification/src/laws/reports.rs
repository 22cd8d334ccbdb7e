//! Laws of whole reports: what they take over from their inputs, that the inputs decide
//! them, and that advice is complete.

use crate::api;
use crate::api::Setup;
use crate::binary64::Datum;
use crate::choice;
use crate::choice::Engine;
use crate::cli;
use crate::cli::{Job, Settings};
use crate::detect::Probe;
use crate::fit;
use crate::fit::FitReport;
use crate::laws::sizes;
use crate::laws::words;
use crate::registry;
use crate::render;
use crate::sizing::{
    Allocator, Band, Calibration, DeviceSet, Failure, Fp8, ModelShape, Quant, QuantScheme,
    StateGeometry, Workload,
};
use crate::text;
use vstd::arithmetic::power2::*;
use vstd::prelude::*;

verus! {

/// A report takes over its inputs as they are, and its byte counts are sums and products
/// of them.
pub proof fn law_reports_take_over_their_inputs<Q: QuantScheme + ?Sized, E: Allocator + ?Sized>(
    r: FitReport,
    m: ModelShape,
    hw: DeviceSet,
    q: &Q,
    e: &E,
    w: Workload,
    c: Calibration,
)
    requires
        fit::reports(r, m, hw, q, e, w, c),
        hw.vram() <= u64::MAX,
    ensures
        r.model == m && r.hw == hw && r.overhead == c.overhead,
        r.quant_name@ == q.label() && r.engine_name@ == e.label(),
        r.ctx == w.ctx && r.kv_bytes == w.kv_bytes,
        r.calibrated == c.overhead.calibrated,
        r.total_vram == hw.device.vram_bytes * hw.count,
        r.bytes_per_seq == if m.state is Ssm {
            r.kv_per_token as int
        } else {
            w.ctx * r.kv_per_token
        },
        m.state matches StateGeometry::Mha { head_dim, n_heads } ==> r.kv_per_token == 2 * n_heads
            * head_dim * m.layers * w.kv_bytes,
        m.state matches StateGeometry::Gqa { head_dim, n_kv_heads } ==> r.kv_per_token == 2
            * n_kv_heads * head_dim * m.layers * w.kv_bytes,
        m.state matches StateGeometry::Mla { d_c, d_rope } ==> r.kv_per_token == (d_c + d_rope)
            * m.layers * w.kv_bytes,
        m.state matches StateGeometry::Ssm { state_bytes_per_layer } ==> r.kv_per_token
            == state_bytes_per_layer * m.layers,
        r.not_modeled@.len() == 2,
{
    let p = m.state.per_token();
    let l = m.layers as nat;
    let k = w.kv_bytes as nat;
    let n = w.ctx as nat;
    assert((p * 1 * k) * l == p * l * k) by (nonlinear_arith);
    assert((p * n * k) * l == n * ((p * 1 * k) * l)) by (nonlinear_arith);
    let labels = r.not_modeled@.map_values(|s: &'static str| s@);
    assert(labels.len() == r.not_modeled@.len());
}

/// The same model, as far as its fields say.
pub open spec fn like_model(a: ModelShape, b: ModelShape) -> bool {
    &&& a.id@ == b.id@
    &&& a.layers == b.layers
    &&& a.d_model == b.d_model
    &&& a.n_params == b.n_params
    &&& a.active_params == b.active_params
    &&& a.state == b.state
    &&& a.kv_kind@ == b.kv_kind@
}

/// The same devices, as far as their fields say.
pub open spec fn like_devices(a: DeviceSet, b: DeviceSet) -> bool {
    &&& a.count == b.count
    &&& a.device.name@ == b.device.name@
    &&& a.device.vram_bytes == b.device.vram_bytes
    &&& a.device.mem_bw_bytes_s == b.device.mem_bw_bytes_s
    &&& a.device.peak_flops@ == b.device.peak_flops@
}

/// The same quantisation, by name and weight.
pub open spec fn like_quant<Q: QuantScheme + ?Sized, P: QuantScheme + ?Sized>(a: &Q, b: &P) -> bool {
    a.label() == b.label() && a.weight() == b.weight()
}

/// The same engine, by name, share and pools.
pub open spec fn like_engine<E: Allocator + ?Sized, F: Allocator + ?Sized>(a: &E, b: &F) -> bool {
    &&& a.label() == b.label()
    &&& a.share() == b.share()
    &&& forall|v: u64, w: u64, o: Band| #[trigger] a.pool(v, w, o) == b.pool(v, w, o)
}

/// The same calibration, by its numbers.
pub open spec fn like_calibration(a: Calibration, b: Calibration) -> bool {
    a.overhead@ == b.overhead@ && a.mfu@ == b.mfu@ && a.mbu@ == b.mbu@
}

/// Two reports say the same.
pub open spec fn agree(a: FitReport, b: FitReport) -> bool {
    &&& like_model(a.model, b.model)
    &&& like_devices(a.hw, b.hw)
    &&& a.quant_name@ == b.quant_name@
    &&& a.engine_name@ == b.engine_name@
    &&& match (a.util, b.util) {
        (Some(u), Some(v)) => u@ == v@,
        (None, None) => true,
        _ => false,
    }
    &&& a.total_vram == b.total_vram
    &&& a.managed_pool == b.managed_pool
    &&& a.weights == b.weights
    &&& a.overhead@ == b.overhead@
    &&& a.kv_pool@ == b.kv_pool@
    &&& a.kv_per_token == b.kv_per_token
    &&& a.bytes_per_seq == b.bytes_per_seq
    &&& a.kv_bytes == b.kv_bytes
    &&& a.ctx == b.ctx
    &&& a.max_seqs == b.max_seqs
    &&& a.serves == b.serves
    &&& a.naive_would_say == b.naive_would_say
    &&& a.ttft@ == b.ttft@
    &&& a.decode@ == b.decode@
    &&& a.ridge_batch@ == b.ridge_batch@
    &&& fit::texts(a.recommendations@) == fit::texts(b.recommendations@)
    &&& render::labels(a.not_modeled@) == render::labels(b.not_modeled@)
    &&& a.calibrated == b.calibrated
}

proof fn lemma_larger_sets_agree<E: Allocator + ?Sized, F: Allocator + ?Sized>(
    m: ModelShape,
    n: ModelShape,
    hw: DeviceSet,
    hx: DeviceSet,
    weight: Datum,
    e: &E,
    f: &F,
    w: Workload,
    overhead: Band,
    from: nat,
)
    requires
        like_model(m, n),
        like_devices(hw, hx),
        like_engine(e, f),
    ensures
        fit::larger_set(m, hw, weight, e, w, overhead, from) == fit::larger_set(
            n,
            hx,
            weight,
            f,
            w,
            overhead,
            from,
        ),
    decreases 16 - from,
{
    if 0 < from <= 8 {
        lemma_larger_sets_agree(m, n, hw, hx, weight, e, f, w, overhead, 2 * from);
        let a = fit::with_count(hw, from as u32);
        let b = fit::with_count(hx, from as u32);
        assert(a.vram() == b.vram());
        assert(e.pool(a.vram() as u64, m.weights(weight), overhead) == f.pool(
            b.vram() as u64,
            n.weights(weight),
            overhead,
        ));
    }
}

/// The inputs decide a report: two reports on the same setup say the same, whatever holds
/// its parts.
pub proof fn law_reports_are_decided<
    Q: QuantScheme + ?Sized,
    P: QuantScheme + ?Sized,
    E: Allocator + ?Sized,
    F: Allocator + ?Sized,
>(
    a: FitReport,
    b: FitReport,
    m: ModelShape,
    n: ModelShape,
    hw: DeviceSet,
    hx: DeviceSet,
    q: &Q,
    p: &P,
    e: &E,
    f: &F,
    w: Workload,
    c: Calibration,
    d: Calibration,
)
    requires
        fit::reports(a, m, hw, q, e, w, c),
        fit::reports(b, n, hx, p, f, w, d),
        like_model(m, n),
        like_devices(hw, hx),
        like_quant(q, p),
        like_engine(e, f),
        like_calibration(c, d),
    ensures
        agree(a, b),
        render::human_text(a) == render::human_text(b),
        render::json_text(a) == render::json_text(b),
{
    let o = c.overhead@;
    let v = hw.vram() as u64;
    assert(hw.vram() == hx.vram());
    assert(e.pool(v, m.weights(q.weight()), o) == f.pool(v, m.weights(q.weight()), o));
    assert(e.pool(v, m.weights(Datum::of_nat(1)), o) == f.pool(v, m.weights(Datum::of_nat(1)), o));
    assert(m.weights(q.weight()) == n.weights(q.weight()));
    assert(m.weights(Datum::of_nat(1)) == n.weights(Datum::of_nat(1)));
    assert(hw.flops() == hx.flops() && hw.bandwidth() == hx.bandwidth());
    lemma_larger_sets_agree(m, n, hw, hx, q.weight(), e, f, w, o, 2);
    assert(fit::advice(m, hw, q.weight(), e, w, o) == fit::advice(n, hx, q.weight(), f, w, o));
    assert(render::labels(a.not_modeled@) =~= a.not_modeled@.map_values(|s: &'static str| s@));
    assert(render::labels(b.not_modeled@) =~= b.not_modeled@.map_values(|s: &'static str| s@));
    assert(agree(a, b));
    lemma_texts_agree(a, b);
}

/// Reports that say the same look the same.
pub proof fn lemma_texts_agree(a: FitReport, b: FitReport)
    requires
        agree(a, b),
    ensures
        render::human_text(a) == render::human_text(b),
        render::json_text(a) == render::json_text(b),
{
    reveal(render::human_text);
    reveal(render::json_text);
    assert(fit::texts(a.recommendations@).len() == a.recommendations@.len());
    assert(fit::texts(b.recommendations@).len() == b.recommendations@.len());
    assert(a.kv_pool@.best == a.kv_pool.best@ && b.kv_pool@.best == b.kv_pool.best@);
    assert(a.decode@.calibrated == a.decode.calibrated && b.decode@.calibrated
        == b.decode.calibrated);
    assert(render::header_text(a) == render::header_text(b)) by {
        assert(render::model_line(a) == render::model_line(b));
        assert(render::engine_line(a) == render::engine_line(b));
    }
    assert(render::verdict_text(a) == render::verdict_text(b));
    assert(render::memory_text(a) == render::memory_text(b));
    assert(render::speed_text(a) == render::speed_text(b));
    assert(render::capacity_text(a) == render::capacity_text(b));
    assert(render::fix_text(a) == render::fix_text(b));
    assert(render::footer_text(a) == render::footer_text(b));
    assert(render::util_json(a.util) == render::util_json(b.util));
}

/// Each entry of a scan is the report on its own context length, with the prompt and the
/// KV dtype of the scan.
pub proof fn law_scans_are_reports<Q: QuantScheme + ?Sized, E: Allocator + ?Sized>(
    list: Seq<FitReport>,
    i: int,
    single: FitReport,
    m: ModelShape,
    hw: DeviceSet,
    q: &Q,
    e: &E,
    prompt: u32,
    kv_bytes: u8,
    ctxs: Seq<u32>,
    c: Calibration,
)
    requires
        fit::sweeps(list, m, hw, q, e, prompt, kv_bytes, ctxs, c),
        0 <= i < ctxs.len(),
        fit::reports(
            single,
            m,
            hw,
            q,
            e,
            (Workload { ctx: ctxs[i], prompt_tokens: prompt, concurrency: None, kv_bytes }),
            c,
        ),
    ensures
        list.len() == ctxs.len(),
        list[i].ctx == ctxs[i],
        agree(list[i], single),
{
    let w = Workload { ctx: ctxs[i], prompt_tokens: prompt, concurrency: None, kv_bytes };
    assert(fit::reports(list[i], m, hw, q, e, w, c));
    law_reports_are_decided(list[i], single, m, m, hw, hw, q, q, e, e, w, c, c);
}

/// Advice is complete: where a model does not serve but would on two, four or eight
/// devices, more than there are, the report recommends that count or a smaller one.
pub proof fn law_gpu_advice_is_complete<Q: QuantScheme + ?Sized, E: Allocator + ?Sized>(
    r: FitReport,
    larger: FitReport,
    m: ModelShape,
    hw: DeviceSet,
    more: DeviceSet,
    q: &Q,
    e: &E,
    w: Workload,
    c: Calibration,
)
    requires
        fit::reports(r, m, hw, q, e, w, c),
        fit::reports(larger, m, more, q, e, w, c),
        more.device == hw.device,
        more.count == 2 || more.count == 4 || more.count == 8,
        more.count > hw.count,
        !r.serves,
        larger.serves,
    ensures
        exists|count: u32|
            hw.count < count <= more.count && (count == 2 || count == 4 || count == 8)
                && #[trigger] fit::texts(r.recommendations@).contains(
                ("--gpu "@ + hw.device.name@ + ":"@ + text::digits(count as nat), "fits"@),
            ),
{
    let weight = q.weight();
    let o = c.overhead@;
    words::law_larger_set_is_the_first_that_serves(m, hw, weight, e, w, o);
    assert(fit::with_count(hw, more.count) == more);
    assert(fit::holds(m, fit::with_count(hw, more.count), weight, e, w, o) >= 1);
    let found = fit::larger_set(m, hw, weight, e, w, o, 2)->0;
    let pair = ("--gpu "@ + hw.device.name@ + ":"@ + text::digits(found as nat), "fits"@);
    let list = fit::texts(r.recommendations@);
    assert(list[list.len() - 1] == pair);
    assert(list.contains(pair));
}

/// The count that is recommended is the smallest: no count of two, four or eight between
/// it and the present one serves.
pub proof fn law_gpu_advice_is_the_smallest<Q: QuantScheme + ?Sized, E: Allocator + ?Sized>(
    r: FitReport,
    between: FitReport,
    count: u32,
    m: ModelShape,
    hw: DeviceSet,
    fewer: DeviceSet,
    q: &Q,
    e: &E,
    w: Workload,
    c: Calibration,
)
    requires
        fit::reports(r, m, hw, q, e, w, c),
        fit::reports(between, m, fewer, q, e, w, c),
        fit::texts(r.recommendations@).contains(
            ("--gpu "@ + hw.device.name@ + ":"@ + text::digits(count as nat), "fits"@),
        ),
        fewer.device == hw.device,
        fewer.count == 2 || fewer.count == 4 || fewer.count == 8,
        hw.count < fewer.count < count,
    ensures
        !between.serves,
{
    let weight = q.weight();
    let o = c.overhead@;
    words::law_larger_set_is_the_first_that_serves(m, hw, weight, e, w, o);
    assert(fit::with_count(hw, fewer.count) == fewer);
    words::lemma_gpu_advice(r, count, m, hw, q, e, w, c);
}

/// Advice on the weights is complete: where a model does not serve but would with weights
/// in fp8, the report recommends them first.
pub proof fn law_fp8_advice_is_complete<Q: QuantScheme + ?Sized, E: Allocator + ?Sized>(
    r: FitReport,
    r8: FitReport,
    m: ModelShape,
    hw: DeviceSet,
    q: &Q,
    e: &E,
    w: Workload,
    c: Calibration,
)
    requires
        fit::reports(r, m, hw, q, e, w, c),
        fit::reports(r8, m, hw, &Fp8, e, w, c),
        !r.serves,
        r8.serves,
    ensures
        r.recommendations@.len() > 0,
        fit::texts(r.recommendations@)[0].0 == "--dtype fp8"@,
{
    assert(Fp8.weight() == Datum::of_nat(1));
    assert(fit::texts(r.recommendations@).len() == r.recommendations@.len());
}

/// Nothing else is recommended: at most the weights in fp8 and one larger set of devices,
/// and nothing at all where the model serves.
pub proof fn law_nothing_else_is_recommended<Q: QuantScheme + ?Sized, E: Allocator + ?Sized>(
    r: FitReport,
    m: ModelShape,
    hw: DeviceSet,
    q: &Q,
    e: &E,
    w: Workload,
    c: Calibration,
)
    requires
        fit::reports(r, m, hw, q, e, w, c),
    ensures
        r.serves ==> r.recommendations@.len() == 0,
        r.recommendations@.len() <= 2,
        forall|i: int|
            0 <= i < r.recommendations@.len() ==> {
                ||| (i == 0 && fit::texts(r.recommendations@)[i].0 == "--dtype fp8"@)
                ||| (i == r.recommendations@.len() - 1 && exists|count: u32|
                    #[trigger] fit::texts(r.recommendations@)[i] == (
                        "--gpu "@ + hw.device.name@ + ":"@ + text::digits(count as nat),
                        "fits"@,
                    ))
            },
{
    let list = fit::texts(r.recommendations@);
    assert(list.len() == r.recommendations@.len());
    if !r.serves {
        match fit::larger_set(m, hw, q.weight(), e, w, c.overhead@, 2) {
            Some(found) => {
                assert(list[list.len() - 1] == (
                    "--gpu "@ + hw.device.name@ + ":"@ + text::digits(found as nat),
                    "fits"@,
                ));
            },
            None => {},
        }
    }
}

/// The command `fit` prints the report on the model, devices, quantisation and engine of
/// its job, at the context, prompt and KV dtype that its flags set: the dashboard, or one
/// line more of JSON.
pub proof fn law_fit_prints_its_report(
    shown: Seq<char>,
    o: Settings,
    job: Job,
    r: FitReport,
    c: Calibration,
)
    requires
        cli::prints_fit(shown, o, job),
        c.is_uncalibrated(),
        fit::reports(
            r,
            job.model,
            job.hw,
            &job.quant,
            &job.engine,
            (Workload {
                ctx: o.ctx,
                prompt_tokens: o.prompt,
                concurrency: None,
                kv_bytes: o.kv_bytes,
            }),
            c,
        ),
    ensures
        shown == if o.json {
            render::json_text(r) + "\n"@
        } else {
            render::human_text(r)
        },
{
    let w = Workload {
        ctx: o.ctx,
        prompt_tokens: o.prompt,
        concurrency: None,
        kv_bytes: o.kv_bytes,
    };
    let (d, report) = choose|d: Calibration, report: FitReport|
        d.is_uncalibrated() && #[trigger] fit::reports(
            report,
            job.model,
            job.hw,
            &job.quant,
            &job.engine,
            cli::point(o),
            d,
        ) && shown == cli::printed(report, o.json);
    law_reports_are_decided(
        report,
        r,
        job.model,
        job.model,
        job.hw,
        job.hw,
        &job.quant,
        &job.quant,
        &job.engine,
        &job.engine,
        w,
        d,
        c,
    );
}

/// The reports of a scan from 512 tokens of context to 131072, doubling.
pub open spec fn are_doublings<Q: QuantScheme + ?Sized, E: Allocator + ?Sized>(
    list: Seq<FitReport>,
    m: ModelShape,
    hw: DeviceSet,
    q: &Q,
    e: &E,
    prompt: u32,
    kv_bytes: u8,
    c: Calibration,
) -> bool {
    &&& list.len() == 9
    &&& forall|i: int|
        0 <= i < 9 ==> fit::reports(
            #[trigger] list[i],
            m,
            hw,
            q,
            e,
            (Workload {
                ctx: (512 * pow2(i as nat)) as u32,
                prompt_tokens: prompt,
                concurrency: None,
                kv_bytes,
            }),
            c,
        )
}

/// The context lengths of a scan double.
proof fn lemma_scanned(i: int)
    requires
        0 <= i < 9,
    ensures
        fit::scanned()[i] == 512 * pow2(i as nat),
        fit::scanned()[i] == (512 * pow2(i as nat)) as u32,
        fit::scanned().len() == 9,
{
    lemma2_to64();
    assert(i == 0 || i == 1 || i == 2 || i == 3 || i == 4 || i == 5 || i == 6 || i == 7 || i == 8);
}

proof fn lemma_sweep_text<
    Q: QuantScheme + ?Sized,
    P: QuantScheme + ?Sized,
    E: Allocator + ?Sized,
    F: Allocator + ?Sized,
>(
    list: Seq<FitReport>,
    own: Seq<FitReport>,
    m: ModelShape,
    n: ModelShape,
    hw: DeviceSet,
    hx: DeviceSet,
    q: &Q,
    p: &P,
    e: &E,
    f: &F,
    prompt: u32,
    kv_bytes: u8,
    c: Calibration,
    d: Calibration,
    i: int,
)
    requires
        fit::sweeps(list, m, hw, q, e, prompt, kv_bytes, fit::scanned(), c),
        are_doublings(own, n, hx, p, f, prompt, kv_bytes, d),
        like_model(m, n),
        like_devices(hw, hx),
        like_quant(q, p),
        like_engine(e, f),
        like_calibration(c, d),
        0 <= i < 9,
    ensures
        render::human_text(list[i]) == render::human_text(own[i]),
        render::json_text(list[i]) == render::json_text(own[i]),
{
    lemma_scanned(i);
    law_reports_are_decided(
        list[i],
        own[i],
        m,
        n,
        hw,
        hx,
        q,
        p,
        e,
        f,
        fit::at_context(fit::scanned()[i], prompt, kv_bytes),
        c,
        d,
    );
}

proof fn lemma_sweep_texts<
    Q: QuantScheme + ?Sized,
    P: QuantScheme + ?Sized,
    E: Allocator + ?Sized,
    F: Allocator + ?Sized,
>(
    list: Seq<FitReport>,
    own: Seq<FitReport>,
    m: ModelShape,
    n: ModelShape,
    hw: DeviceSet,
    hx: DeviceSet,
    q: &Q,
    p: &P,
    e: &E,
    f: &F,
    prompt: u32,
    kv_bytes: u8,
    c: Calibration,
    d: Calibration,
)
    requires
        fit::sweeps(list, m, hw, q, e, prompt, kv_bytes, fit::scanned(), c),
        are_doublings(own, n, hx, p, f, prompt, kv_bytes, d),
        like_model(m, n),
        like_devices(hw, hx),
        like_quant(q, p),
        like_engine(e, f),
        like_calibration(c, d),
    ensures
        render::human_texts(list) == render::human_texts(own),
        render::json_texts(list) == render::json_texts(own),
{
    lemma_scanned(0);
    assert forall|i: int| 0 <= i < 9 implies render::human_text(#[trigger] list[i])
        == render::human_text(own[i]) && render::json_text(list[i]) == render::json_text(own[i]) by {
        lemma_sweep_text(list, own, m, n, hw, hx, q, p, e, f, prompt, kv_bytes, c, d, i);
    }
    lemma_texts_of_lists(list, own);
}

/// Lists of reports that look the same have the same texts.
proof fn lemma_texts_of_lists(a: Seq<FitReport>, b: Seq<FitReport>)
    requires
        a.len() == b.len(),
        forall|i: int|
            0 <= i < a.len() ==> render::human_text(#[trigger] a[i]) == render::human_text(b[i])
                && render::json_text(a[i]) == render::json_text(b[i]),
    ensures
        render::human_texts(a) == render::human_texts(b),
        render::json_texts(a) == render::json_texts(b),
{
    assert(render::human_texts(a) =~= render::human_texts(b));
    assert(render::json_texts(a) =~= render::json_texts(b));
}

/// The command `scan` prints the reports on its job at nine context lengths, from 512 to
/// 131072 and doubling, with the prompt and the KV dtype that its flags set.
pub proof fn law_scan_prints_its_reports(
    shown: Seq<char>,
    o: Settings,
    job: Job,
    own: Seq<FitReport>,
    c: Calibration,
)
    requires
        cli::prints_scan(shown, o, job),
        c.is_uncalibrated(),
        are_doublings(own, job.model, job.hw, &job.quant, &job.engine, o.prompt, o.kv_bytes, c),
    ensures
        shown == if o.json {
            "["@ + text::joined(render::json_texts(own), ", "@) + "]"@ + "\n"@
        } else {
            text::joined(render::human_texts(own), "\n"@)
        },
{
    let (d, list) = choose|d: Calibration, list: Seq<FitReport>|
        d.is_uncalibrated() && #[trigger] fit::sweeps(
            list,
            job.model,
            job.hw,
            &job.quant,
            &job.engine,
            o.prompt,
            o.kv_bytes,
            fit::scanned(),
            d,
        ) && shown == cli::printed_scan(list, o.json);
    lemma_sweep_texts(
        list,
        own,
        job.model,
        job.model,
        job.hw,
        job.hw,
        &job.quant,
        &job.quant,
        &job.engine,
        &job.engine,
        o.prompt,
        o.kv_bytes,
        d,
        c,
    );
}

/// The parts of a call by names: the device of the registry in so many copies, the
/// quantisation, the engine and the KV dtype of those names.
pub open spec fn are_named(
    hw: DeviceSet,
    q: Quant,
    e: Engine,
    kv_bytes: u8,
    gpu: Seq<char>,
    count: u32,
    engine: Seq<char>,
    dtype: Seq<char>,
    kv_cache_dtype: Seq<char>,
) -> bool {
    &&& hw.count == count
    &&& registry::known_device(gpu) matches Some(row) && registry::is_device(hw.device, gpu, row)
    &&& registry::known_quant(dtype) == Some((q.name@, q.bytes_per_weight@))
    &&& choice::known_engine(engine) matches Some(share) && choice::is_engine(e, share)
    &&& choice::known_kv_dtype(kv_cache_dtype) == Some(kv_bytes)
}

proof fn lemma_like_setup(
    s: Setup,
    m: ModelShape,
    n: ModelShape,
    hw: DeviceSet,
    q: Quant,
    e: Engine,
    kv_bytes: u8,
    gpu: Seq<char>,
    count: u32,
    engine: Seq<char>,
    dtype: Seq<char>,
    kv_cache_dtype: Seq<char>,
)
    requires
        api::is_setup(s, gpu, count, engine, dtype, kv_cache_dtype),
        are_named(hw, q, e, kv_bytes, gpu, count, engine, dtype, kv_cache_dtype),
        like_model(m, n),
    ensures
        like_devices(s.hw, hw),
        like_quant(&s.quant, &q),
        like_engine(&s.engine, &e),
        s.kv_bytes == kv_bytes,
        Calibration::measured_overhead(m, count) == Calibration::measured_overhead(n, count),
{
    assert(registry::known_quant(dtype)->0 == (s.quant.name@, s.quant.bytes_per_weight@));
    assert(registry::known_quant(dtype)->0 == (q.name@, q.bytes_per_weight@));
}

/// A call for a report answers with the report on the model, at the context and prompt
/// asked for, on the parts of those names, with measured calibration.
pub proof fn law_calls_answer_with_their_report(
    shown: String,
    m: ModelShape,
    n: ModelShape,
    gpu: Seq<char>,
    count: u32,
    engine: Seq<char>,
    dtype: Seq<char>,
    kv_cache_dtype: Seq<char>,
    ctx: u32,
    prompt: u32,
    as_json: bool,
    r: FitReport,
    hw: DeviceSet,
    q: Quant,
    e: Engine,
    kv_bytes: u8,
    c: Calibration,
)
    requires
        api::answers_fit(
            Ok(shown),
            m,
            gpu,
            count,
            engine,
            dtype,
            kv_cache_dtype,
            ctx,
            prompt,
            as_json,
        ),
        like_model(m, n),
        are_named(hw, q, e, kv_bytes, gpu, count, engine, dtype, kv_cache_dtype),
        c.is_measured(n, count),
        fit::reports(
            r,
            n,
            hw,
            &q,
            &e,
            (Workload { ctx, prompt_tokens: prompt, concurrency: None, kv_bytes }),
            c,
        ),
    ensures
        shown@ == if as_json {
            render::json_text(r)
        } else {
            render::human_text(r)
        },
{
    let w = Workload { ctx, prompt_tokens: prompt, concurrency: None, kv_bytes };
    let s = choose|s: Setup| #[trigger]
        api::is_setup(s, gpu, count, engine, dtype, kv_cache_dtype) && api::fits(m, s, ctx, prompt)
            && api::shows_fit(shown@, m, s, ctx, prompt, as_json);
    lemma_like_setup(s, m, n, hw, q, e, kv_bytes, gpu, count, engine, dtype, kv_cache_dtype);
    let (d, report) = choose|d: Calibration, report: FitReport|
        d.is_measured(m, s.hw.count) && #[trigger] fit::reports(
            report,
            m,
            s.hw,
            &s.quant,
            &s.engine,
            fit::at_context(ctx, prompt, s.kv_bytes),
            d,
        ) && shown@ == if as_json {
            render::json_text(report)
        } else {
            render::human_text(report)
        };
    law_reports_are_decided(report, r, m, n, s.hw, hw, &s.quant, &q, &s.engine, &e, w, d, c);
}

/// A call for a scan answers with the reports at nine context lengths, from 512 to 131072
/// and doubling, with measured calibration.
pub proof fn law_calls_answer_with_their_scan(
    shown: String,
    m: ModelShape,
    n: ModelShape,
    gpu: Seq<char>,
    count: u32,
    engine: Seq<char>,
    dtype: Seq<char>,
    kv_cache_dtype: Seq<char>,
    prompt: u32,
    as_json: bool,
    own: Seq<FitReport>,
    hw: DeviceSet,
    q: Quant,
    e: Engine,
    kv_bytes: u8,
    c: Calibration,
)
    requires
        api::answers_scan(
            Ok(shown),
            m,
            gpu,
            count,
            engine,
            dtype,
            kv_cache_dtype,
            prompt,
            as_json,
        ),
        like_model(m, n),
        are_named(hw, q, e, kv_bytes, gpu, count, engine, dtype, kv_cache_dtype),
        c.is_measured(n, count),
        are_doublings(own, n, hw, &q, &e, prompt, kv_bytes, c),
    ensures
        shown@ == if as_json {
            "["@ + text::joined(render::json_texts(own), ", "@) + "]"@
        } else {
            text::joined(render::human_texts(own), "\n"@)
        },
{
    let s = choose|s: Setup| #[trigger]
        api::is_setup(s, gpu, count, engine, dtype, kv_cache_dtype) && api::scan_fits(m, s, prompt)
            && api::shows_scan(shown@, m, s, prompt, as_json);
    lemma_like_setup(s, m, n, hw, q, e, kv_bytes, gpu, count, engine, dtype, kv_cache_dtype);
    let (d, list) = choose|d: Calibration, list: Seq<FitReport>|
        d.is_measured(m, s.hw.count) && #[trigger] fit::sweeps(
            list,
            m,
            s.hw,
            &s.quant,
            &s.engine,
            prompt,
            s.kv_bytes,
            fit::scanned(),
            d,
        ) && shown@ == if as_json {
            "["@ + text::joined(render::json_texts(list), ", "@) + "]"@
        } else {
            text::joined(render::human_texts(list), "\n"@)
        };
    lemma_sweep_texts(
        list,
        own,
        m,
        n,
        s.hw,
        hw,
        &s.quant,
        &q,
        &s.engine,
        &e,
        prompt,
        kv_bytes,
        d,
        c,
    );
}

/// A job is about the model that is asked for, on the devices that `--gpu` names, in
/// their number.
pub proof fn law_jobs_follow_their_settings(
    job: Job,
    o: Settings,
    probe: Probe,
    id: Seq<char>,
    name: Seq<char>,
    count: u32,
)
    requires
        cli::is_job(job, o, probe),
        cli::trouble(o, probe) is None,
        o.model == Some(id),
        o.gpu == name + ":"@ + text::digits(count as nat),
        !name.contains(':'),
        !text::starts_with(name, "auto"@),
    ensures
        job.model.id@ == id,
        job.hw.device.name@ == name,
        job.hw.count == count,
        registry::known_quant(o.dtype) == Some((job.quant.label(), job.quant.weight())),
        (o.engine == "vllm"@) <==> job.engine is Vllm,
{
    words::law_gpu_values_read_back(name, count);
    words::lemma_engine_names();
}

/// Sizing succeeds wherever its numbers fit in 64 bits: the memory of the devices and of
/// eight of them, the state step by step, and weights and state together. Nothing else is
/// refused.
pub proof fn law_sizing_succeeds_in_range<E: Allocator + ?Sized>(
    m: ModelShape,
    hw: DeviceSet,
    weight: Datum,
    e: &E,
    w: Workload,
    overhead: Band,
)
    requires
        hw.device.vram_bytes * hw.count <= u64::MAX,
        hw.device.vram_bytes * 8 <= u64::MAX,
        !(m.state is Ssm) ==> {
            let p = m.state.per_token();
            let n = if w.ctx == 0 {
                1nat
            } else {
                w.ctx as nat
            };
            p * n <= u64::MAX && p * n * w.kv_bytes as nat <= u64::MAX && (p * n
                * w.kv_bytes as nat) * m.layers as nat <= u64::MAX
        },
        m.state matches StateGeometry::Ssm { state_bytes_per_layer } ==> state_bytes_per_layer
            * m.layers <= u64::MAX,
        m.weights(weight) + m.state_at(w.ctx as nat, w.kv_bytes as nat) <= u64::MAX,
    ensures
        fit::in_range(m, hw, weight, e, w, overhead),
{
    sizes::lemma_larger_sets_fit(m, hw, weight, e, w, overhead, 2);
    if !(m.state is Ssm) {
        let p = m.state.per_token();
        let k = w.kv_bytes as nat;
        let l = m.layers as nat;
        let n = if w.ctx == 0 {
            1nat
        } else {
            w.ctx as nat
        };
        lemma_products_below(p, 1, n, k, l);
        lemma_products_below(p, w.ctx as nat, n, k, l);
    }
}

proof fn lemma_products_below(p: nat, a: nat, b: nat, k: nat, l: nat)
    requires
        a <= b,
        b >= 1,
    ensures
        p <= p * b,
        p * a <= p * b,
        p * a * k <= p * b * k,
        (p * a * k) * l <= (p * b * k) * l,
{
    assert(p <= p * b && p * a <= p * b) by (nonlinear_arith)
        requires
            a <= b,
            b >= 1,
    ;
    let x = p * a;
    let y = p * b;
    assert(x * k <= y * k) by (nonlinear_arith)
        requires
            x <= y,
    ;
    let u = x * k;
    let v = y * k;
    assert(u * l <= v * l) by (nonlinear_arith)
        requires
            u <= v,
    ;
}

/// Calls on models, devices, quantisations, engines and dtypes that are known are answered
/// with a report, at any context and prompt, for up to 2^26 devices.
pub proof fn law_known_names_are_answered(
    r: Result<String, Failure>,
    s: Result<String, Failure>,
    m: ModelShape,
    id: Seq<char>,
    gpu: Seq<char>,
    count: u32,
    engine: Seq<char>,
    dtype: Seq<char>,
    kv_cache_dtype: Seq<char>,
    ctx: u32,
    prompt: u32,
    as_json: bool,
)
    requires
        registry::known_model(id) is Some,
        registry::is_model(m, id, registry::known_model(id)->0),
        registry::known_device(gpu) is Some,
        registry::known_quant(dtype) is Some,
        choice::known_engine(engine) is Some,
        choice::known_kv_dtype(kv_cache_dtype) is Some,
        count <= 0x400_0000,
        api::answers_fit(r, m, gpu, count, engine, dtype, kv_cache_dtype, ctx, prompt, as_json),
        api::answers_scan(s, m, gpu, count, engine, dtype, kv_cache_dtype, prompt, as_json),
    ensures
        r is Ok,
        s is Ok,
{
    assert forall|t: Setup, x: u32| #[trigger]
        api::is_setup(t, gpu, count, engine, dtype, kv_cache_dtype) implies #[trigger] api::fits(
        m,
        t,
        x,
        prompt,
    ) by {
        sizes::law_registry_is_in_range(
            m,
            id,
            t.hw,
            gpu,
            dtype,
            &t.engine,
            fit::at_context(x, prompt, t.kv_bytes),
            Calibration::measured_overhead(m, t.hw.count),
        );
    }
}

/// A model of explicit dimensions has just those; it counts as a mixture of experts where
/// not all parameters are active.
pub proof fn law_shapes_carry_their_dimensions(
    m: ModelShape,
    id: Seq<char>,
    layers: u32,
    d_model: u32,
    n_params: u64,
    active_params: u64,
    geom: Seq<char>,
    head_dim: u32,
    n_heads: u32,
    n_kv_heads: u32,
    d_c: u32,
    d_rope: u32,
)
    requires
        choice::known_geometry(geom, head_dim, n_heads, n_kv_heads, d_c, d_rope) is Some,
        api::is_shape(
            m,
            id,
            layers,
            d_model,
            n_params,
            active_params,
            geom,
            choice::known_geometry(geom, head_dim, n_heads, n_kv_heads, d_c, d_rope)->0,
        ),
    ensures
        m.id@ == id,
        m.layers == layers && m.d_model == d_model,
        m.n_params == n_params && m.active_params == active_params,
        geom == "mha"@ || geom == "gqa"@ || geom == "mla"@,
        geom == "mha"@ ==> m.state == (StateGeometry::Mha { head_dim, n_heads }) && m.kv_kind@
            == "MHA"@,
        geom == "gqa"@ ==> m.state == (StateGeometry::Gqa { head_dim, n_kv_heads }) && m.kv_kind@
            == if active_params == n_params {
            "GQA"@
        } else {
            "GQA·MoE"@
        },
        geom == "mla"@ ==> m.state == (StateGeometry::Mla { d_c, d_rope }) && m.kv_kind@
            == if active_params == n_params {
            "MLA"@
        } else {
            "MLA·MoE"@
        },
{
    reveal_strlit("mha");
    reveal_strlit("gqa");
    reveal_strlit("mla");
    assert("mha"@[1] == 'h' && "gqa"@[1] == 'q' && "mla"@[1] == 'l');
}

} // verus!
