use ridgepoint::choice::Engine;
use ridgepoint::cli::{
    build, cmd_devices, cmd_fit, cmd_scan, gpu_request, needs_probe, parse, req, resolve_hw,
    GpuRequest, Job, Opts,
};
use ridgepoint::detect::Probe;
use ridgepoint::fit::{checked_scan, fit, scan_contexts};
use ridgepoint::render::{human, json, scan_human, scan_json};
use ridgepoint::sizing::{Calibration, Failure, Workload};

fn words(args: &[&str]) -> Vec<String> {
    args.iter().map(|s| s.to_string()).collect()
}

fn opts(args: &[&str]) -> Opts {
    parse(&words(args)).unwrap()
}

fn complaint(args: &[&str]) -> String {
    match parse(&words(args)) {
        Ok(_) => panic!("accepted"),
        Err(m) => m,
    }
}

fn listing(s: &str) -> Probe {
    Probe::Listing(s.to_string())
}

fn text<T>(r: Result<T, Failure>) -> String {
    match r {
        Ok(_) => panic!("accepted"),
        Err(Failure::Message(m)) => m,
        Err(Failure::Overflow) => "overflow".to_string(),
    }
}

#[test]
fn no_arguments_give_the_defaults() {
    let o = opts(&[]);
    assert!(o.model.is_none());
    assert_eq!(o.gpu, "a100-80gb:1");
    assert_eq!(o.engine, "vllm");
    assert_eq!(o.dtype, "fp16");
    assert_eq!((o.kv_bytes, o.ctx, o.prompt, o.json), (2, 4096, 2048, false));
}

#[test]
fn flags_are_read() {
    let o = opts(&[
        "--gpu", "h100-80gb:4", "llama-3-8b", "--engine", "llamacpp", "--dtype", "fp8",
        "--kv-cache-dtype", "fp8", "--ctx", "+8192", "--prompt", "0", "--json",
    ]);
    assert_eq!(o.model.as_deref(), Some("llama-3-8b"));
    assert_eq!(o.gpu, "h100-80gb:4");
    assert_eq!(o.engine, "llamacpp");
    assert_eq!(o.dtype, "fp8");
    assert_eq!((o.kv_bytes, o.ctx, o.prompt, o.json), (1, 8192, 0, true));
    assert_eq!(opts(&["--kv-cache-dtype", "bf16"]).kv_bytes, 2);
    // A value may look like a flag.
    assert_eq!(opts(&["--gpu", "--json"]).gpu, "--json");
}

#[test]
fn the_later_flag_counts() {
    let o = opts(&["--ctx", "1", "--gpu", "a", "--ctx", "2", "--gpu", "b"]);
    assert_eq!((o.ctx, o.gpu.as_str()), (2, "b"));
}

#[test]
fn bad_arguments_are_complained_about() {
    for flag in ["--gpu", "--engine", "--dtype", "--kv-cache-dtype", "--ctx", "--prompt"] {
        assert_eq!(complaint(&["m", flag]), format!("missing value for {}", flag));
    }
    assert_eq!(complaint(&["--kv-cache-dtype", "int4"]), "unknown kv-cache-dtype int4");
    for bad in ["", "x", "-1", "1.5", "4294967296", " 1", "++1", "+"] {
        assert_eq!(complaint(&["--ctx", bad]), "--ctx must be an integer");
        assert_eq!(complaint(&["--prompt", bad]), "--prompt must be an integer");
    }
    assert_eq!(opts(&["--ctx", "4294967295"]).ctx, u32::MAX);
    assert_eq!(complaint(&["--verbose"]), "unknown flag --verbose");
    assert_eq!(complaint(&["a", "b"]), "unexpected argument b");
    // A single dash is no flag.
    assert_eq!(opts(&["-x"]).model.as_deref(), Some("-x"));
    // The first of them counts.
    assert_eq!(complaint(&["--what", "--ctx"]), "unknown flag --what");
}

#[test]
fn values_stand_behind_their_flags() {
    let args = words(&["a", "b"]);
    assert_eq!(req(&args, 1, "--gpu"), Ok("b".to_string()));
    assert_eq!(req(&args, 2, "--gpu"), Err("missing value for --gpu".to_string()));
}

fn named(gpu: &str) -> (String, u32) {
    match gpu_request(gpu) {
        Ok(GpuRequest::Named(id, n)) => (id, n),
        _ => panic!("not a name"),
    }
}

fn auto(gpu: &str) -> Option<u32> {
    match gpu_request(gpu) {
        Ok(GpuRequest::Auto(n)) => n,
        _ => panic!("not auto"),
    }
}

fn refused(gpu: &str) -> String {
    match gpu_request(gpu) {
        Err(m) => m,
        Ok(_) => panic!("accepted"),
    }
}

#[test]
fn gpu_values_are_read() {
    assert_eq!(named("a100-80gb"), ("a100-80gb".to_string(), 1));
    assert_eq!(named("a100-80gb:8"), ("a100-80gb".to_string(), 8));
    assert_eq!(named("a100-80gb:0"), ("a100-80gb".to_string(), 0));
    assert_eq!(named(""), ("".to_string(), 1));
    assert_eq!(named(":3"), ("".to_string(), 3));
    assert_eq!(auto("auto"), None);
    assert_eq!(auto("auto:2"), Some(2));
    assert_eq!(refused("a100-80gb:x"), "--gpu count must be an integer");
    assert_eq!(refused("a100-80gb:1:2"), "--gpu count must be an integer");
    assert_eq!(refused("a100-80gb:"), "--gpu count must be an integer");
    assert_eq!(refused("auto:"), "--gpu auto:N count must be an integer");
    assert_eq!(refused("auto:x"), "--gpu auto:N count must be an integer");
    assert_eq!(refused("automatic"), "bad --gpu value (expected auto or auto:N)");
}

#[test]
fn written_gpu_values_read_back() {
    for (name, count) in [("a100-80gb", 1), ("x y", 0), ("é", u32::MAX)] {
        assert_eq!(named(&format!("{}:{}", name, count)), (name.to_string(), count));
    }
}

const TWO: &str = "0, NVIDIA A100-SXM4-80GB, 81920\n1, NVIDIA H100 80GB HBM3, 81559\n";

#[test]
fn named_devices_come_from_the_registry() {
    let hw = resolve_hw(&GpuRequest::Named("h100-80gb".to_string(), 3), &Probe::NotFound);
    let hw = match hw {
        Ok(hw) => hw,
        Err(_) => panic!("refused"),
    };
    assert_eq!((hw.device.name.as_str(), hw.count), ("h100-80gb", 3));
    assert_eq!(
        text(resolve_hw(&GpuRequest::Named("tpu".to_string(), 1), &Probe::NotFound)),
        "unknown gpu: tpu (try `ridgepoint devices`, or --gpu auto)"
    );
}

#[test]
fn detected_devices_are_counted() {
    for (want, count) in [(None, 2), (Some(0), 1), (Some(1), 1), (Some(2), 2), (Some(9), 2)] {
        let hw = match resolve_hw(&GpuRequest::Auto(want), &listing(TWO)) {
            Ok(hw) => hw,
            Err(_) => panic!("refused"),
        };
        assert_eq!(hw.count, count);
        assert_eq!(hw.device.name, "a100-80gb (detected)");
    }
    assert_eq!(
        text(resolve_hw(&GpuRequest::Auto(None), &Probe::NotFound)),
        "--gpu auto: nvidia-smi not found (no NVIDIA GPU or driver on this machine). Pass --gpu <id>:N instead (see `ridgepoint devices`)."
    );
    assert_eq!(
        text(resolve_hw(&GpuRequest::Auto(None), &Probe::Failed)),
        "--gpu auto: nvidia-smi exited with an error. Pass --gpu <id>:N instead (see `ridgepoint devices`)."
    );
    assert_eq!(
        text(resolve_hw(&GpuRequest::Auto(None), &listing(""))),
        "--gpu auto: nvidia-smi returned no GPUs. Pass --gpu <id>:N instead (see `ridgepoint devices`)."
    );
    assert_eq!(
        text(resolve_hw(&GpuRequest::Auto(None), &listing("0, x, 18446744073709551615"))),
        "overflow"
    );
}

fn job(args: &[&str], probe: &Probe) -> Result<Job, Failure> {
    build(&opts(args), probe)
}

#[test]
fn jobs_are_built() {
    let j = match job(&["llama-3-8b", "--gpu", "auto:1", "--dtype", "awq", "--engine", "llama.cpp"], &listing(TWO)) {
        Ok(j) => j,
        Err(_) => panic!("refused"),
    };
    assert_eq!(j.model.id, "llama-3-8b");
    assert_eq!((j.hw.device.name.as_str(), j.hw.count), ("a100-80gb (detected)", 1));
    assert_eq!(j.quant.name, "awq-int4");
    assert!(matches!(j.engine, Engine::LlamaCpp(_)));
}

#[test]
fn jobs_are_refused_for_the_first_thing_wrong() {
    let none = Probe::NotFound;
    assert_eq!(text(job(&["--gpu", "?"], &none)), "missing <model>");
    assert_eq!(text(job(&["gpt", "--gpu", "?"], &none)), "unknown model: gpt");
    assert_eq!(
        text(job(&["llama-3-8b", "--gpu", "?", "--dtype", "?"], &none)),
        "unknown gpu: ? (try `ridgepoint devices`, or --gpu auto)"
    );
    assert_eq!(text(job(&["llama-3-8b", "--gpu", "autos"], &none)), "bad --gpu value (expected auto or auto:N)");
    assert_eq!(text(job(&["llama-3-8b", "--dtype", "?", "--engine", "?"], &none)), "unknown dtype: ?");
    assert_eq!(text(job(&["llama-3-8b", "--engine", "?"], &none)), "unknown engine: ?");
}

#[test]
fn only_auto_needs_a_probe() {
    assert!(needs_probe(&opts(&["llama-3-8b", "--gpu", "auto"])));
    assert!(needs_probe(&opts(&["llama-3-8b", "--gpu", "auto:3", "--dtype", "?"])));
    assert!(!needs_probe(&opts(&["llama-3-8b"])));
    assert!(!needs_probe(&opts(&["--gpu", "auto"])));
    assert!(!needs_probe(&opts(&["gpt", "--gpu", "auto"])));
    assert!(!needs_probe(&opts(&["llama-3-8b", "--gpu", "auto:x"])));
}

#[test]
fn commands_print_reports() {
    let args = ["llama-3-70b", "--gpu", "a100-80gb:1", "--ctx", "1024", "--prompt", "7"];
    let mut o = opts(&args);
    let j = match build(&o, &Probe::NotFound) {
        Ok(j) => j,
        Err(_) => panic!("refused"),
    };
    let c = Calibration::uncalibrated();
    let w = Workload { ctx: 1024, prompt_tokens: 7, concurrency: None, kv_bytes: 2 };
    let r = fit(&j.model, &j.hw, &j.quant, &j.engine, &w, &c);
    assert_eq!(cmd_fit(&o, &j), Some(human(&r)));
    let ctxs = scan_contexts();
    let list = checked_scan(&j.model, &j.hw, &j.quant, &j.engine, 7, 2, &ctxs, &c).unwrap();
    assert_eq!(cmd_scan(&o, &j), Some(scan_human(&list)));
    // A scan has its own context lengths.
    let before = cmd_scan(&o, &j);
    o.ctx = 5;
    assert_eq!(cmd_scan(&o, &j), before);
    o.ctx = 1024;
    o.json = true;
    assert_eq!(cmd_fit(&o, &j), Some(format!("{}\n", json(&r))));
    assert_eq!(cmd_scan(&o, &j), Some(format!("{}\n", scan_json(&list))));
}

#[test]
fn commands_that_overflow_print_nothing() {
    let o = opts(&["llama-3-8b", "--gpu", "gb200-192gb:4294967295"]);
    let j = match build(&o, &Probe::NotFound) {
        Ok(j) => j,
        Err(_) => panic!("refused"),
    };
    assert_eq!(cmd_fit(&o, &j), None);
    assert_eq!(cmd_scan(&o, &j), None);
}

#[test]
fn devices_are_printed() {
    let shown = match cmd_devices(&listing(TWO)) {
        Ok(s) => s,
        Err(_) => panic!("refused"),
    };
    assert_eq!(
        shown,
        "detected 2 GPU(s):\n  [0] NVIDIA A100-SXM4-80GB  (86 GB)  → a100-80gb (detected) · Ampere · NVLink3 600GB/s\n  [1] NVIDIA H100 80GB HBM3  (86 GB)  → h100-80gb (detected) · Hopper · NVLink4 900GB/s\n\nuse:  --gpu auto   (all)   ·   --gpu auto:N   (N of them)\n"
    );
    assert_eq!(
        text(cmd_devices(&Probe::NotFound)),
        "no GPUs detected: nvidia-smi not found (no NVIDIA GPU or driver on this machine)"
    );
    assert_eq!(text(cmd_devices(&listing("0, x, 17592186044416"))), "overflow");
}
