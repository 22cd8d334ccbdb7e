use ridgepoint::binary64::F64;
use ridgepoint::choice::alloc_of;
use ridgepoint::fit::{checked_fit, checked_scan, fit, FitReport};
use ridgepoint::registry;
use ridgepoint::render::{boxed, human, json, scan_human, scan_json};
use ridgepoint::sizing::{Calibration, Device, DeviceSet, Interval, ModelShape, StateGeometry, Workload};

fn hard(x: F64) -> f64 {
    f64::from_bits(x.to_bits())
}

fn gib(bytes: f64) -> String {
    format!("{:.1}", bytes / 1_073_741_824.0)
}

fn band(i: &Interval) -> String {
    if i.exact {
        format!("{:>6} GiB  exact", gib(hard(i.best)))
    } else {
        let flag = if i.calibrated { "" } else { "  ~est" };
        format!("{:>6} ·{:>6} ·{:>6} GiB{}", gib(hard(i.low)), gib(hard(i.best)), gib(hard(i.high)), flag)
    }
}

fn frame(lines: &[String]) -> String {
    let w = lines.iter().map(|l| l.chars().count()).max().unwrap_or(0);
    let bar = "─".repeat(w + 2);
    let mut out = format!("╭{}╮\n", bar);
    for l in lines {
        out.push_str(&format!("│ {}{} │\n", l, " ".repeat(w - l.chars().count())));
    }
    out.push_str(&format!("╰{}╯\n", bar));
    out
}

/// The dashboard, laid out by the formatter of the standard library.
fn dashboard(r: &FitReport) -> String {
    let kv = if r.kv_bytes == 1 { "fp8" } else { "fp16" };
    let engine = match r.util {
        Some(u) => format!("{}× {} · {} {:.2} · KV {}", r.hw.count, r.hw.device.name, r.engine_name, hard(u), kv),
        None => format!("{}× {} · {} · KV {}", r.hw.count, r.hw.device.name, r.engine_name, kv),
    };
    let params = format!("{:.1}B", r.model.n_params as f64 / 1e9);
    let mut s = frame(&[
        "ridgepoint fit".to_string(),
        format!("{} · {} · {} · {}", r.model.id, r.model.kv_kind, params, r.quant_name),
        engine,
    ]);
    s.push('\n');
    if r.serves {
        s.push_str(&format!("  ✓  SERVES        ~{} seqs @ {} ctx (best)\n", r.max_seqs.1, r.ctx));
    } else {
        s.push_str("  ✗  WON'T SERVE\n");
        s.push_str(&format!("     KV pool ≈ {} GiB after the engine's grab\n", gib(hard(r.kv_pool.best))));
        if r.naive_would_say {
            s.push_str(&format!(
                "     a naive weights<VRAM check says \"fits\" ({}<{}) — wrong\n",
                gib(r.weights as f64),
                gib(r.total_vram as f64)
            ));
        }
    }
    s.push('\n');
    let weights = format!("{:>6} GiB  exact", gib(r.weights as f64));
    s.push_str("  MEMORY                low     best    high\n");
    s.push_str(&format!("    weights  {:<7}{}\n", r.quant_name, weights));
    s.push_str(&format!("    overhead        {}\n", band(&r.overhead)));
    s.push_str(&format!("    KV pool         {}   ←\n", band(&r.kv_pool)));
    s.push('\n');
    let cal = if r.calibrated { "roofline" } else { "roofline · uncalibrated" };
    s.push_str(&format!("  SPEED  {}\n", cal));
    s.push_str(&format!(
        "    TTFT @prompt      {:>5.2} ·{:>5.2} ·{:>5.2} s\n",
        hard(r.ttft.low),
        hard(r.ttft.best),
        hard(r.ttft.high)
    ));
    s.push_str(&format!(
        "    decode/req       {:>5.0} ·{:>5.0} ·{:>5.0} tok/s{}\n",
        hard(r.decode.low),
        hard(r.decode.best),
        hard(r.decode.high),
        if r.decode.calibrated { "  MBU calibrated" } else { "" }
    ));
    s.push_str(&format!("    regime   memory-bound · ridge ≈ batch {:.0}\n", hard(r.ridge_batch)));
    s.push('\n');
    s.push_str(&format!(
        "  CAPACITY @{}       {} seqs · {} GiB/seq\n",
        r.ctx,
        r.max_seqs.1,
        gib(r.bytes_per_seq as f64)
    ));
    if !r.recommendations.is_empty() {
        s.push('\n');
        s.push_str("  FIX");
        for (i, (change, effect)) in r.recommendations.iter().enumerate() {
            let sep = if i == 0 { "  " } else { "       " };
            s.push_str(&format!("{}{} → {}\n", sep, change, effect));
        }
    }
    s.push('\n');
    s.push_str(&format!(
        "  not modeled: {}   ·   calibrated: {}\n",
        r.not_modeled.join(", "),
        if r.calibrated { "yes" } else { "no" }
    ));
    s
}

fn interval(i: &Interval) -> String {
    format!(
        "{{\"low\": {:.4e}, \"best\": {:.4e}, \"high\": {:.4e}, \"calibrated\": {}}}",
        hard(i.low),
        hard(i.best),
        hard(i.high),
        i.calibrated
    )
}

/// The JSON, by the formatter of the standard library.
fn object(r: &FitReport) -> String {
    let recs: Vec<String> = r
        .recommendations
        .iter()
        .map(|(c, e)| format!("{{\"change\": \"{}\", \"effect\": \"{}\"}}", c, e))
        .collect();
    let nm: Vec<String> = r.not_modeled.iter().map(|s| format!("\"{}\"", s)).collect();
    let util = match r.util {
        Some(u) => format!("{:.2}", hard(u)),
        None => "null".to_string(),
    };
    let mut s = format!(
        "{{\n  \"model\": {{\"id\": \"{}\", \"kv_kind\": \"{}\", \"params\": {}, \"layers\": {}}},\n  ",
        r.model.id, r.model.kv_kind, r.model.n_params, r.model.layers
    );
    s.push_str(&format!("\"engine\": {{\"name\": \"{}\", \"util\": {}}},\n  ", r.engine_name, util));
    s.push_str(&format!(
        "\"verdict\": {{\"serves\": {}, \"naive_would_say\": {}}},\n  ",
        r.serves, r.naive_would_say
    ));
    s.push_str(&format!(
        "\"memory\": {{\"weights_bytes\": {{\"best\": {:.4e}, \"exact\": true}}, \"overhead_bytes\": {}, \"kv_pool_bytes\": {}}},\n  ",
        r.weights as f64,
        interval(&r.overhead),
        interval(&r.kv_pool)
    ));
    s.push_str(&format!(
        "\"speed\": {{\"ttft_s\": {}, \"decode_tok_s\": {}, \"regime\": \"memory_bound\", \"ridge_batch\": {:.0}}},\n  ",
        interval(&r.ttft),
        interval(&r.decode),
        hard(r.ridge_batch)
    ));
    s.push_str(&format!(
        "\"capacity\": {{\"ctx\": {}, \"max_sequences\": {{\"low\": {}, \"best\": {}, \"high\": {}}}, \"bytes_per_seq\": {}}},\n  ",
        r.ctx, r.max_seqs.0, r.max_seqs.1, r.max_seqs.2, r.bytes_per_seq
    ));
    s.push_str(&format!(
        "\"recommendations\": [{}],\n  \"not_modeled\": [{}],\n  \"calibrated\": {}\n}}",
        recs.join(", "),
        nm.join(", "),
        r.calibrated
    ));
    s
}

/// Reports of every kind: that serve and do not, on either engine, with and without
/// recommendations, with measured and rough overheads.
fn reports() -> Vec<FitReport> {
    let mut out = Vec::new();
    let setups = [
        ("llama-3-70b", "a100-80gb", 1, "fp16", "vllm", 2, 4096),
        ("llama-3-70b", "a100-80gb", 2, "fp16", "vllm", 2, 4096),
        ("llama-3-70b", "rtx4090-24gb", 1, "q4_k_m", "llamacpp", 1, 8192),
        ("llama-3-8b", "a100-80gb", 1, "bf16", "vllm", 2, 8192),
        ("deepseek-r1", "h100-80gb", 8, "fp8", "vllm", 1, 131072),
        ("deepseek-r1", "mi300x-192gb", 4, "awq", "llama.cpp", 2, 512),
        ("mixtral-8x7b", "l40s-48gb", 1, "fp16", "vllm", 2, 32768),
        ("qwen2.5-7b", "b200-192gb", 3, "q2_k", "vllm", 1, 0),
        ("llama-2-7b", "rtx5090-32gb", 0, "int8", "vllm", 2, 100),
    ];
    for (model, gpu, count, dtype, engine, kv_bytes, ctx) in setups {
        let m = registry::model(model).unwrap();
        let hw = DeviceSet { device: registry::device(gpu).unwrap(), count };
        let q = registry::quant(dtype).unwrap();
        let e = alloc_of(engine).unwrap();
        let w = Workload { ctx, prompt_tokens: 2048, concurrency: None, kv_bytes };
        for c in [Calibration::uncalibrated(), Calibration::measured(&m, count)] {
            out.push(checked_fit(&m, &hw, q.as_ref(), &e, &w, &c).unwrap());
        }
    }
    out
}

#[test]
fn human_is_laid_out_as_by_the_standard_library() {
    for r in &reports() {
        assert_eq!(human(r), dashboard(r));
    }
}

#[test]
fn json_is_laid_out_as_by_the_standard_library() {
    for r in &reports() {
        assert_eq!(json(r), object(r));
    }
}

#[test]
fn human_of_a_model_that_serves() {
    let m = registry::model("llama-3-8b").unwrap();
    let hw = DeviceSet { device: registry::device("a100-80gb").unwrap(), count: 1 };
    let q = registry::quant("fp16").unwrap();
    let e = alloc_of("vllm").unwrap();
    let w = Workload { ctx: 8192, prompt_tokens: 2048, concurrency: None, kv_bytes: 2 };
    let r = fit(&m, &hw, q.as_ref(), &e, &w, &Calibration::measured(&m, 1));
    let s = human(&r);
    assert!(s.starts_with("╭────────────────────────────────────╮\n│ ridgepoint fit                     │\n"));
    assert!(s.contains("│ llama-3-8b · GQA · 8.0B · fp16     │\n"));
    assert!(s.contains("│ 1× a100-80gb · vLLM 0.90 · KV fp16 │\n"));
    assert!(s.contains("  ✓  SERVES        ~54 seqs @ 8192 ctx (best)\n"));
    assert!(s.contains("    weights  fp16     15.0 GiB  exact\n"));
    assert!(s.contains("    overhead           1.5 ·   1.8 ·   2.2 GiB\n"));
    assert!(s.contains("    KV pool           54.2 ·  54.5 ·  54.9 GiB   ←\n"));
    assert!(s.contains("  SPEED  roofline\n"));
    assert!(s.contains("    decode/req          65 ·   73 ·   81 tok/s  MBU calibrated\n"));
    assert!(s.contains("  CAPACITY @8192       54 seqs · 1.0 GiB/seq\n"));
    assert!(s.ends_with("\n  not modeled: prefix-cache, chunked-prefill   ·   calibrated: yes\n"));
    assert!(!s.contains("FIX"));
    let rough = fit(&m, &hw, q.as_ref(), &e, &w, &Calibration::uncalibrated());
    assert!(human(&rough).contains("    weights  fp16     15.0 GiB  exact\n"));
}

#[test]
fn human_of_a_model_that_does_not_serve() {
    let r = &reports()[0];
    let s = human(r);
    assert!(s.contains("  ✗  WON'T SERVE\n"));
    assert!(s.contains("     KV pool ≈ -62.9 GiB after the engine's grab\n"));
    // The weights alone exceed the memory: not even the naive check says it fits.
    assert!(!s.contains("naive"));
    assert!(s.contains("  ~est\n"));
    assert!(s.contains("  SPEED  roofline · uncalibrated\n"));
    assert!(!s.contains("MBU calibrated"));
    assert!(s.contains("\n  FIX  --dtype fp8 → "));
    assert!(s.contains("\n       --gpu a100-80gb:2 → fits\n"));
}

#[test]
fn a_report_without_numbers_still_renders() {
    // A device of which nothing is known: divisions by zero show as such.
    let device = Device {
        name: "mystery".to_string(),
        vram_bytes: 0,
        mem_bw_bytes_s: 0,
        peak_flops: F64::from_u64(0),
        arch: "unknown",
        interconnect: "unknown",
    };
    let hw = DeviceSet { device, count: 1 };
    let m = ModelShape {
        id: "nothing".to_string(),
        layers: 0,
        kv_layers: 0,
        d_model: 0,
        n_params: 0,
        active_params: 0,
        state: StateGeometry::Ssm { state_bytes_per_layer: 7 },
        kv_kind: "SSM",
    };
    let q = registry::quant("fp16").unwrap();
    let e = alloc_of("llamacpp").unwrap();
    let w = Workload { ctx: 4096, prompt_tokens: 0, concurrency: None, kv_bytes: 2 };
    let r = fit(&m, &hw, q.as_ref(), &e, &w, &Calibration::uncalibrated());
    assert!(!r.serves);
    assert!(human(&r).contains("NaN"));
    assert_eq!(human(&r), dashboard(&r));
    assert_eq!(json(&r), object(&r));
}

#[test]
fn boxes_are_as_wide_as_their_longest_line() {
    let none: Vec<String> = Vec::new();
    assert_eq!(boxed(&none), "╭──╮\n╰──╯\n");
    let lines = vec!["a".to_string(), "×·é".to_string(), "".to_string()];
    assert_eq!(boxed(&lines), "╭─────╮\n│ a   │\n│ ×·é │\n│     │\n╰─────╯\n");
    let shown = boxed(&lines);
    for row in shown.lines() {
        assert_eq!(row.chars().count(), 7);
    }
}

#[test]
fn scans_are_shown_one_after_the_other() {
    let m = registry::model("llama-3-8b").unwrap();
    let hw = DeviceSet { device: registry::device("a100-80gb").unwrap(), count: 1 };
    let q = registry::quant("fp16").unwrap();
    let e = alloc_of("vllm").unwrap();
    let c = Calibration::uncalibrated();
    let list = checked_scan(&m, &hw, q.as_ref(), &e, 2048, 2, &[512, 4096], &c).unwrap();
    assert_eq!(scan_human(&list), format!("{}\n{}", human(&list[0]), human(&list[1])));
    assert_eq!(scan_json(&list), format!("[{}, {}]", json(&list[0]), json(&list[1])));
    let none: Vec<FitReport> = Vec::new();
    assert_eq!(scan_human(&none), "");
    assert_eq!(scan_json(&none), "[]");
}
