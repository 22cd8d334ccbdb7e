//! Sizing by names and dimensions, with measured calibration, as text.

use crate::choice;
use crate::choice::{message, Engine};
use crate::detect;
use crate::detect::{DetectedGpu, Probe};
use crate::fit;
use crate::fit::FitReport;
use crate::registry;
use crate::render;
use crate::sizing::{
    Calibration, DeviceSet, Failure, ModelShape, Quant, QuantScheme, StateGeometry, Workload,
};
use crate::text;
use vstd::prelude::*;

verus! {

/// Where and how a model is to serve.
pub struct Setup {
    pub hw: DeviceSet,
    pub quant: Quant,
    pub engine: Engine,
    pub kv_bytes: u8,
}

/// The first of the names that is not known, as a complaint.
pub open spec fn unknown_name(
    gpu: Seq<char>,
    engine: Seq<char>,
    dtype: Seq<char>,
    kv_cache_dtype: Seq<char>,
) -> Option<Seq<char>> {
    if registry::known_device(gpu) is None {
        Some("unknown gpu: "@ + gpu)
    } else if registry::known_quant(dtype) is None {
        Some("unknown dtype: "@ + dtype)
    } else if choice::known_engine(engine) is None {
        Some("unknown engine: "@ + engine)
    } else if choice::known_kv_dtype(kv_cache_dtype) is None {
        Some("unknown kv_cache_dtype: "@ + kv_cache_dtype)
    } else {
        None
    }
}

/// The setup is that of the names.
pub open spec fn is_setup(
    s: Setup,
    gpu: Seq<char>,
    count: u32,
    engine: Seq<char>,
    dtype: Seq<char>,
    kv_cache_dtype: Seq<char>,
) -> bool {
    &&& registry::is_device(s.hw.device, gpu, registry::known_device(gpu)->0)
    &&& s.hw.count == count
    &&& registry::known_quant(dtype) == Some((s.quant.name@, s.quant.bytes_per_weight@))
    &&& choice::is_engine(s.engine, choice::known_engine(engine)->0)
    &&& choice::known_kv_dtype(kv_cache_dtype) == Some(s.kv_bytes)
}

/// The setup of names.
pub fn setup(
    gpu: &str,
    count: u32,
    engine: &str,
    dtype: &str,
    kv_cache_dtype: &str,
) -> (r: Result<Setup, String>)
    ensures
        match r {
            Ok(s) => unknown_name(gpu@, engine@, dtype@, kv_cache_dtype@) is None && is_setup(
                s,
                gpu@,
                count,
                engine@,
                dtype@,
                kv_cache_dtype@,
            ),
            Err(m) => unknown_name(gpu@, engine@, dtype@, kv_cache_dtype@) == Some(m@),
        },
{
    let device = match registry::device(gpu) {
        Some(d) => d,
        None => {
            return Err(message("unknown gpu: ", gpu));
        },
    };
    let quant = match registry::find_quant(dtype) {
        Some(q) => q,
        None => {
            return Err(message("unknown dtype: ", dtype));
        },
    };
    let e = match choice::alloc_of(engine) {
        Ok(e) => e,
        Err(m) => {
            return Err(m);
        },
    };
    let kv_bytes = match choice::kv_bytes_of(kv_cache_dtype) {
        Ok(b) => b,
        Err(m) => {
            return Err(m);
        },
    };
    Ok(Setup { hw: DeviceSet { device, count }, quant, engine: e, kv_bytes })
}

/// No byte count of a model on a setup exceeds 64 bits.
pub open spec fn fits(m: ModelShape, s: Setup, ctx: u32, prompt: u32) -> bool {
    fit::in_range(
        m,
        s.hw,
        s.quant.weight(),
        &s.engine,
        fit::at_context(ctx, prompt, s.kv_bytes),
        Calibration::measured_overhead(m, s.hw.count),
    )
}

/// `shown` is a report on a model and a setup.
pub open spec fn shows_fit(
    shown: Seq<char>,
    m: ModelShape,
    s: Setup,
    ctx: u32,
    prompt: u32,
    as_json: bool,
) -> bool {
    exists|c: Calibration, report: FitReport|
        c.is_measured(m, s.hw.count) && #[trigger] fit::reports(
            report,
            m,
            s.hw,
            &s.quant,
            &s.engine,
            fit::at_context(ctx, prompt, s.kv_bytes),
            c,
        ) && shown == if as_json {
            render::json_text(report)
        } else {
            render::human_text(report)
        }
}

/// A report on a model and a setup; `None` where a byte count does not fit in 64
/// bits.
pub fn fit_setup(m: &ModelShape, s: &Setup, ctx: u32, prompt: u32, as_json: bool) -> (r: Option<
    String,
>)
    ensures
        r is Some <==> fits(*m, *s, ctx, prompt),
        r matches Some(t) ==> shows_fit(t@, *m, *s, ctx, prompt, as_json),
{
    let w = Workload { ctx, prompt_tokens: prompt, concurrency: None, kv_bytes: s.kv_bytes };
    let c = Calibration::measured(m, s.hw.count);
    let report = fit::checked_fit(m, &s.hw, &s.quant, &s.engine, &w, &c)?;
    Some(
        if as_json {
            render::json(&report)
        } else {
            render::human(&report)
        },
    )
}

/// `shown` is the reports of a scan of a model on a setup.
pub open spec fn shows_scan(
    shown: Seq<char>,
    m: ModelShape,
    s: Setup,
    prompt: u32,
    as_json: bool,
) -> bool {
    exists|c: Calibration, list: Seq<FitReport>|
        c.is_measured(m, s.hw.count) && #[trigger] fit::sweeps(
            list,
            m,
            s.hw,
            &s.quant,
            &s.engine,
            prompt,
            s.kv_bytes,
            fit::scanned(),
            c,
        ) && shown == if as_json {
            "["@ + text::joined(render::json_texts(list), ", "@) + "]"@
        } else {
            text::joined(render::human_texts(list), "\n"@)
        }
}

/// No byte count of a scan exceeds 64 bits.
pub open spec fn scan_fits(m: ModelShape, s: Setup, prompt: u32) -> bool {
    forall|i: int|
        0 <= i < fit::scanned().len() ==> fits(m, s, #[trigger] fit::scanned()[i], prompt)
}

/// The reports of a scan; `None` where a byte count does not fit in 64 bits.
pub fn scan_setup(m: &ModelShape, s: &Setup, prompt: u32, as_json: bool) -> (r: Option<String>)
    ensures
        r is Some <==> scan_fits(*m, *s, prompt),
        r matches Some(t) ==> shows_scan(t@, *m, *s, prompt, as_json),
{
    let c = Calibration::measured(m, s.hw.count);
    let ctxs = fit::scan_contexts();
    let list = fit::checked_scan(
        m,
        &s.hw,
        &s.quant,
        &s.engine,
        prompt,
        s.kv_bytes,
        ctxs.as_slice(),
        &c,
    )?;
    Some(
        if as_json {
            render::scan_json(&list)
        } else {
            render::scan_human(&list)
        },
    )
}

/// A model of the registry.
fn known(model: &str) -> (r: Result<ModelShape, String>)
    ensures
        match r {
            Ok(m) => registry::known_model(model@) is Some && registry::is_model(
                m,
                model@,
                registry::known_model(model@)->0,
            ),
            Err(e) => registry::known_model(model@) is None && e@ == "unknown model: "@ + model@,
        },
{
    match registry::model(model) {
        Some(m) => Ok(m),
        None => Err(message("unknown model: ", model)),
    }
}

/// `m` is the model of explicit dimensions, under an id.
pub open spec fn is_shape(
    m: ModelShape,
    id: Seq<char>,
    layers: u32,
    d_model: u32,
    n_params: u64,
    active_params: u64,
    geom: Seq<char>,
    state: StateGeometry,
) -> bool {
    &&& m.id@ == id
    &&& m.layers == layers
    &&& m.kv_layers == layers
    &&& m.d_model == d_model
    &&& m.n_params == n_params
    &&& m.active_params == active_params
    &&& m.state == state
    &&& m.kv_kind@ == choice::kind_label(geom, active_params != n_params)
}

/// A model of explicit dimensions. Fewer active parameters than there are mean a
/// mixture of experts.
pub fn shape(
    id: &str,
    layers: u32,
    d_model: u32,
    n_params: u64,
    active_params: u64,
    geom: &str,
    head_dim: u32,
    n_heads: u32,
    n_kv_heads: u32,
    d_c: u32,
    d_rope: u32,
) -> (r: Result<ModelShape, String>)
    ensures
        ({
            let state = choice::known_geometry(
                geom@,
                head_dim,
                n_heads,
                n_kv_heads,
                d_c,
                d_rope,
            );
            match r {
                Ok(m) => state is Some && is_shape(
                    m,
                    id@,
                    layers,
                    d_model,
                    n_params,
                    active_params,
                    geom@,
                    state->0,
                ),
                Err(e) => state is None && e@ == "unknown geometry: "@ + geom@
                    + " (expected mha|gqa|mla)"@,
            }
        }),
{
    match choice::state_of(geom, head_dim, n_heads, n_kv_heads, d_c, d_rope) {
        Ok(state) => Ok(
            ModelShape {
                id: id.to_owned(),
                layers,
                kv_layers: layers,
                d_model,
                n_params,
                active_params,
                state,
                kv_kind: choice::kv_kind_of(geom, active_params != n_params),
            },
        ),
        Err(e) => Err(e),
    }
}

/// `r` answers for a report on a model on the setup of names: it complains about a
/// name that is not known, or else has a byte count that does not fit in 64 bits,
/// or else holds the report.
pub open spec fn answers_fit(
    r: Result<String, Failure>,
    m: ModelShape,
    gpu: Seq<char>,
    count: u32,
    engine: Seq<char>,
    dtype: Seq<char>,
    kv_cache_dtype: Seq<char>,
    ctx: u32,
    prompt: u32,
    as_json: bool,
) -> bool {
    match unknown_name(gpu, engine, dtype, kv_cache_dtype) {
        Some(complaint) => r matches Err(Failure::Message(e)) && e@ == complaint,
        None => exists|s: Setup| #[trigger]
            is_setup(s, gpu, count, engine, dtype, kv_cache_dtype) && match r {
                Ok(t) => fits(m, s, ctx, prompt) && shows_fit(t@, m, s, ctx, prompt, as_json),
                Err(Failure::Overflow) => !fits(m, s, ctx, prompt),
                Err(Failure::Message(_)) => false,
            },
    }
}

/// A report on a model on the setup of names.
pub fn run_fit(
    m: &ModelShape,
    gpu: &str,
    count: u32,
    engine: &str,
    dtype: &str,
    kv_cache_dtype: &str,
    ctx: u32,
    prompt: u32,
    as_json: bool,
) -> (r: Result<String, Failure>)
    ensures
        answers_fit(
            r,
            *m,
            gpu@,
            count,
            engine@,
            dtype@,
            kv_cache_dtype@,
            ctx,
            prompt,
            as_json,
        ),
{
    match setup(gpu, count, engine, dtype, kv_cache_dtype) {
        Err(e) => Err(Failure::Message(e)),
        Ok(s) => {
            assert(is_setup(s, gpu@, count, engine@, dtype@, kv_cache_dtype@));
            match fit_setup(m, &s, ctx, prompt, as_json) {
                Some(t) => Ok(t),
                None => Err(Failure::Overflow),
            }
        },
    }
}

/// `r` answers for a scan, as `answers_fit` does for one report.
pub open spec fn answers_scan(
    r: Result<String, Failure>,
    m: ModelShape,
    gpu: Seq<char>,
    count: u32,
    engine: Seq<char>,
    dtype: Seq<char>,
    kv_cache_dtype: Seq<char>,
    prompt: u32,
    as_json: bool,
) -> bool {
    match unknown_name(gpu, engine, dtype, kv_cache_dtype) {
        Some(complaint) => r matches Err(Failure::Message(e)) && e@ == complaint,
        None => exists|s: Setup| #[trigger]
            is_setup(s, gpu, count, engine, dtype, kv_cache_dtype) && match r {
                Ok(t) => scan_fits(m, s, prompt) && shows_scan(t@, m, s, prompt, as_json),
                Err(Failure::Overflow) => !scan_fits(m, s, prompt),
                Err(Failure::Message(_)) => false,
            },
    }
}

/// A scan of a model on the setup of names.
pub fn run_scan(
    m: &ModelShape,
    gpu: &str,
    count: u32,
    engine: &str,
    dtype: &str,
    kv_cache_dtype: &str,
    prompt: u32,
    as_json: bool,
) -> (r: Result<String, Failure>)
    ensures
        answers_scan(r, *m, gpu@, count, engine@, dtype@, kv_cache_dtype@, prompt, as_json),
{
    match setup(gpu, count, engine, dtype, kv_cache_dtype) {
        Err(e) => Err(Failure::Message(e)),
        Ok(s) => {
            assert(is_setup(s, gpu@, count, engine@, dtype@, kv_cache_dtype@));
            match scan_setup(m, &s, prompt, as_json) {
                Some(t) => Ok(t),
                None => Err(Failure::Overflow),
            }
        },
    }
}

/// A report on a model of the registry.
pub fn fit_registry(
    model: &str,
    gpu: &str,
    count: u32,
    engine: &str,
    dtype: &str,
    kv_cache_dtype: &str,
    ctx: u32,
    prompt: u32,
    as_json: bool,
) -> (r: Result<String, Failure>)
    ensures
        match registry::known_model(model@) {
            None => r matches Err(Failure::Message(e)) && e@ == "unknown model: "@ + model@,
            Some(row) => exists|m: ModelShape| #[trigger]
                registry::is_model(m, model@, row) && answers_fit(
                    r,
                    m,
                    gpu@,
                    count,
                    engine@,
                    dtype@,
                    kv_cache_dtype@,
                    ctx,
                    prompt,
                    as_json,
                ),
        },
{
    match known(model) {
        Err(e) => Err(Failure::Message(e)),
        Ok(m) => run_fit(&m, gpu, count, engine, dtype, kv_cache_dtype, ctx, prompt, as_json),
    }
}

/// A scan of a model of the registry.
pub fn scan_registry(
    model: &str,
    gpu: &str,
    count: u32,
    engine: &str,
    dtype: &str,
    kv_cache_dtype: &str,
    prompt: u32,
    as_json: bool,
) -> (r: Result<String, Failure>)
    ensures
        match registry::known_model(model@) {
            None => r matches Err(Failure::Message(e)) && e@ == "unknown model: "@ + model@,
            Some(row) => exists|m: ModelShape| #[trigger]
                registry::is_model(m, model@, row) && answers_scan(
                    r,
                    m,
                    gpu@,
                    count,
                    engine@,
                    dtype@,
                    kv_cache_dtype@,
                    prompt,
                    as_json,
                ),
        },
{
    match known(model) {
        Err(e) => Err(Failure::Message(e)),
        Ok(m) => run_scan(&m, gpu, count, engine, dtype, kv_cache_dtype, prompt, as_json),
    }
}

/// A report on a model of explicit dimensions.
pub fn fit_shape(
    id: &str,
    layers: u32,
    d_model: u32,
    n_params: u64,
    active_params: u64,
    geom: &str,
    head_dim: u32,
    n_heads: u32,
    n_kv_heads: u32,
    d_c: u32,
    d_rope: u32,
    gpu: &str,
    count: u32,
    engine: &str,
    dtype: &str,
    kv_cache_dtype: &str,
    ctx: u32,
    prompt: u32,
    as_json: bool,
) -> (r: Result<String, Failure>)
    ensures
        match choice::known_geometry(geom@, head_dim, n_heads, n_kv_heads, d_c, d_rope) {
            None => r matches Err(Failure::Message(e)) && e@ == "unknown geometry: "@ + geom@
                + " (expected mha|gqa|mla)"@,
            Some(state) => exists|m: ModelShape| #[trigger]
                is_shape(m, id@, layers, d_model, n_params, active_params, geom@, state)
                    && answers_fit(
                        r,
                        m,
                        gpu@,
                        count,
                        engine@,
                        dtype@,
                        kv_cache_dtype@,
                        ctx,
                        prompt,
                        as_json,
                    ),
        },
{
    match shape(
        id,
        layers,
        d_model,
        n_params,
        active_params,
        geom,
        head_dim,
        n_heads,
        n_kv_heads,
        d_c,
        d_rope,
    ) {
        Err(e) => Err(Failure::Message(e)),
        Ok(m) => run_fit(&m, gpu, count, engine, dtype, kv_cache_dtype, ctx, prompt, as_json),
    }
}

/// A scan of a model of explicit dimensions.
pub fn scan_shape(
    id: &str,
    layers: u32,
    d_model: u32,
    n_params: u64,
    active_params: u64,
    geom: &str,
    head_dim: u32,
    n_heads: u32,
    n_kv_heads: u32,
    d_c: u32,
    d_rope: u32,
    gpu: &str,
    count: u32,
    engine: &str,
    dtype: &str,
    kv_cache_dtype: &str,
    prompt: u32,
    as_json: bool,
) -> (r: Result<String, Failure>)
    ensures
        match choice::known_geometry(geom@, head_dim, n_heads, n_kv_heads, d_c, d_rope) {
            None => r matches Err(Failure::Message(e)) && e@ == "unknown geometry: "@ + geom@
                + " (expected mha|gqa|mla)"@,
            Some(state) => exists|m: ModelShape| #[trigger]
                is_shape(m, id@, layers, d_model, n_params, active_params, geom@, state)
                    && answers_scan(
                        r,
                        m,
                        gpu@,
                        count,
                        engine@,
                        dtype@,
                        kv_cache_dtype@,
                        prompt,
                        as_json,
                    ),
        },
{
    match shape(
        id,
        layers,
        d_model,
        n_params,
        active_params,
        geom,
        head_dim,
        n_heads,
        n_kv_heads,
        d_c,
        d_rope,
    ) {
        Err(e) => Err(Failure::Message(e)),
        Ok(m) => run_scan(&m, gpu, count, engine, dtype, kv_cache_dtype, prompt, as_json),
    }
}

/// A report on the GPUs of this machine, or why there is none.
pub fn detect_devices(probe: &Probe) -> (r: Result<String, Failure>)
    ensures
        match r {
            Ok(t) => detect::complaint(*probe) is None && exists|gpus: Seq<DetectedGpu>| #[trigger]
                detect::are_gpus(gpus, detect::probed(*probe)) && t@ == detect::devices_text(gpus),
            Err(f) => detect::complaint(*probe) == Some(f@),
        },
{
    match detect::detect_gpus(probe) {
        Ok(gpus) => Ok(detect::devices_report(&gpus)),
        Err(f) => Err(f),
    }
}

} // verus!
