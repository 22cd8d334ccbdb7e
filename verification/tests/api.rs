use ridgepoint::api::{detect_devices, fit_registry, fit_shape, run_fit, run_scan, scan_registry, scan_shape, shape};
use ridgepoint::choice::{alloc_of, kv_bytes_of, kv_kind_of, state_of, Engine};
use ridgepoint::detect::Probe;
use ridgepoint::fit::{checked_scan, fit, scan_contexts};
use ridgepoint::registry;
use ridgepoint::render::{human, json, scan_human, scan_json};
use ridgepoint::sizing::{Calibration, DeviceSet, Failure, StateGeometry, Workload};

fn shown(r: Result<String, Failure>) -> String {
    match r {
        Ok(s) => s,
        Err(Failure::Message(m)) => format!("error: {}", m),
        Err(Failure::Overflow) => "overflow".to_string(),
    }
}

#[test]
fn engines_are_known_by_name() {
    match alloc_of("vllm") {
        Ok(Engine::Vllm(v)) => assert_eq!(f64::from_bits(v.util.to_bits()), 0.90),
        _ => panic!("not vllm"),
    }
    assert!(matches!(alloc_of("llamacpp"), Ok(Engine::LlamaCpp(_))));
    assert!(matches!(alloc_of("llama.cpp"), Ok(Engine::LlamaCpp(_))));
    assert_eq!(alloc_of("tgi").err(), Some("unknown engine: tgi".to_string()));
}

#[test]
fn kv_dtypes_are_known_by_name() {
    assert_eq!(kv_bytes_of("fp16"), Ok(2));
    assert_eq!(kv_bytes_of("bf16"), Ok(2));
    assert_eq!(kv_bytes_of("fp8"), Ok(1));
    assert_eq!(kv_bytes_of("int8"), Err("unknown kv_cache_dtype: int8".to_string()));
}

#[test]
fn geometries_are_known_by_name() {
    assert!(matches!(state_of("mha", 1, 2, 3, 4, 5), Ok(StateGeometry::Mha { head_dim: 1, n_heads: 2 })));
    assert!(matches!(state_of("gqa", 1, 2, 3, 4, 5), Ok(StateGeometry::Gqa { head_dim: 1, n_kv_heads: 3 })));
    assert!(matches!(state_of("mla", 1, 2, 3, 4, 5), Ok(StateGeometry::Mla { d_c: 4, d_rope: 5 })));
    assert_eq!(
        state_of("ssm", 1, 2, 3, 4, 5).err(),
        Some("unknown geometry: ssm (expected mha|gqa|mla)".to_string())
    );
    let labels = [
        ("mla", true, "MLA·MoE"),
        ("mla", false, "MLA"),
        ("gqa", true, "GQA·MoE"),
        ("gqa", false, "GQA"),
        ("mha", true, "MHA"),
        ("mha", false, "MHA"),
        ("?", true, "MHA"),
    ];
    for (geom, moe, label) in labels {
        assert_eq!(kv_kind_of(geom, moe), label);
    }
}

#[test]
fn shapes_carry_their_dimensions() {
    let m = shape("x", 27, 2048, 15, 2, "mla", 0, 0, 0, 512, 64).unwrap();
    assert_eq!((m.id.as_str(), m.layers, m.kv_layers, m.d_model), ("x", 27, 27, 2048));
    assert_eq!((m.n_params, m.active_params, m.kv_kind), (15, 2, "MLA·MoE"));
    assert!(matches!(m.state, StateGeometry::Mla { d_c: 512, d_rope: 64 }));
    assert_eq!(shape("x", 1, 1, 9, 9, "gqa", 1, 1, 1, 0, 0).unwrap().kv_kind, "GQA");
}

#[test]
fn registry_reports_are_measured() {
    let m = registry::model("llama-3-8b").unwrap();
    let hw = DeviceSet { device: registry::device("a100-80gb").unwrap(), count: 2 };
    let q = registry::quant("q4km").unwrap();
    let e = alloc_of("vllm").unwrap();
    let w = Workload { ctx: 8192, prompt_tokens: 100, concurrency: None, kv_bytes: 1 };
    let c = Calibration::measured(&m, 2);
    let r = fit(&m, &hw, q.as_ref(), &e, &w, &c);
    let ask = |as_json| shown(fit_registry("llama-3-8b", "a100-80gb", 2, "vllm", "q4km", "fp8", 8192, 100, as_json));
    assert_eq!(ask(false), human(&r));
    assert_eq!(ask(true), json(&r));
    let list = checked_scan(&m, &hw, q.as_ref(), &e, 100, 1, &scan_contexts(), &c).unwrap();
    let sweep = |as_json| shown(scan_registry("llama-3-8b", "a100-80gb", 2, "vllm", "q4km", "fp8", 100, as_json));
    assert_eq!(sweep(false), scan_human(&list));
    assert_eq!(sweep(true), scan_json(&list));
}

#[test]
fn a_shape_like_a_registry_model_has_its_report() {
    let known = shown(fit_registry("llama-3-8b", "h100-80gb", 1, "vllm", "fp16", "fp16", 4096, 2048, false));
    let built = shown(fit_shape(
        "llama-3-8b", 32, 4096, 8_030_261_248, 8_030_261_248, "gqa", 128, 32, 8, 0, 0,
        "h100-80gb", 1, "vllm", "fp16", "fp16", 4096, 2048, false,
    ));
    assert_eq!(known, built);
    let known = shown(scan_registry("llama-3-8b", "h100-80gb", 1, "vllm", "fp16", "fp16", 2048, true));
    let built = shown(scan_shape(
        "llama-3-8b", 32, 4096, 8_030_261_248, 8_030_261_248, "gqa", 128, 32, 8, 0, 0,
        "h100-80gb", 1, "vllm", "fp16", "fp16", 2048, true,
    ));
    assert_eq!(known, built);
}

#[test]
fn unknown_names_are_complained_about_in_order() {
    let ask = |model, gpu, engine, dtype, kv| shown(fit_registry(model, gpu, 1, engine, dtype, kv, 4096, 2048, false));
    let sweep = |model, gpu, engine, dtype, kv| shown(scan_registry(model, gpu, 1, engine, dtype, kv, 2048, false));
    let rows = [
        ("?", "?", "?", "?", "?", "error: unknown model: ?"),
        ("llama-3-8b", "?", "?", "?", "?", "error: unknown gpu: ?"),
        ("llama-3-8b", "a100-80gb", "?", "?", "?", "error: unknown dtype: ?"),
        ("llama-3-8b", "a100-80gb", "?", "fp16", "?", "error: unknown engine: ?"),
        ("llama-3-8b", "a100-80gb", "vllm", "fp16", "?", "error: unknown kv_cache_dtype: ?"),
    ];
    for (model, gpu, engine, dtype, kv, complaint) in rows {
        assert_eq!(ask(model, gpu, engine, dtype, kv), complaint);
        assert_eq!(sweep(model, gpu, engine, dtype, kv), complaint);
    }
    assert_eq!(
        shown(fit_shape("x", 1, 1, 1, 1, "?", 1, 1, 1, 1, 1, "?", 1, "?", "?", "?", 1, 1, false)),
        "error: unknown geometry: ? (expected mha|gqa|mla)"
    );
    assert_eq!(
        shown(scan_shape("x", 1, 1, 1, 1, "?", 1, 1, 1, 1, 1, "?", 1, "?", "?", "?", 1, false)),
        "error: unknown geometry: ? (expected mha|gqa|mla)"
    );
}

#[test]
fn counts_that_do_not_fit_overflow() {
    let m = registry::model("llama-3-8b").unwrap();
    assert_eq!(shown(run_fit(&m, "gb200-192gb", u32::MAX, "vllm", "fp16", "fp16", 1, 1, false)), "overflow");
    assert_eq!(shown(run_scan(&m, "gb200-192gb", u32::MAX, "vllm", "fp16", "fp16", 1, false)), "overflow");
}

#[test]
fn local_devices_are_reported() {
    let probe = Probe::Listing("0, NVIDIA L40S, 46068".to_string());
    assert_eq!(
        shown(detect_devices(&probe)),
        "detected 1 GPU(s):\n  [0] NVIDIA L40S  (48 GB)  → l40s-48gb (detected) · Ada · PCIe4\n\nuse:  --gpu auto   (all)   ·   --gpu auto:N   (N of them)"
    );
    assert_eq!(shown(detect_devices(&Probe::Failed)), "error: nvidia-smi exited with an error");
}
