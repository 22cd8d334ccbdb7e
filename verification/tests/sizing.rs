use ridgepoint::binary64::F64;
use ridgepoint::choice::{alloc_of, Engine};
use ridgepoint::fit::{
    checked_fit, checked_scan, checked_state_bytes, decode_tok_s, fit, ridge_batch, scan_contexts,
    state_bytes, ttft_s, weights_bytes,
};
use ridgepoint::registry;
use ridgepoint::sizing::{
    Allocator, Calibration, Device, DeviceSet, Fp16, Fp8, Interval, LlamaCpp, ModelShape, Q4KM,
    Quant, QuantScheme, StateGeometry, Vllm, Workload,
};

const GIB: f64 = 1_073_741_824.0;

fn soft(x: f64) -> F64 {
    F64::from_bits(x.to_bits())
}

fn hard(x: F64) -> f64 {
    f64::from_bits(x.to_bits())
}

fn numbers(i: &Interval) -> (f64, f64, f64) {
    (hard(i.low), hard(i.best), hard(i.high))
}

fn devices(id: &str, count: u32) -> DeviceSet {
    DeviceSet { device: registry::device(id).unwrap(), count }
}

fn at(ctx: u32, kv_bytes: u8) -> Workload {
    Workload { ctx, prompt_tokens: 2048, concurrency: None, kv_bytes }
}

// Frozen hand-computed predictions.
#[test]
fn c1_llama_70b_deterministic_memory() {
    let m = registry::model("llama-3-70b").unwrap();
    // weights: 70,553,706,496 params x 2 bytes
    assert_eq!(weights_bytes(&m, &Fp16), 141_107_412_992);
    // kv per token (GQA, fp16): 2*8*128*2 = 4096 B/layer x 80 layers
    assert_eq!(state_bytes(&m, 1, 2), 327_680);
    // per sequence @ 4096 ctx
    assert_eq!(state_bytes(&m, 4096, 2), 1_342_177_280);
}

// KV dtype is independent of weight dtype: fp8 KV halves it.
#[test]
fn kv_dtype_is_independent() {
    let m = registry::model("llama-3-70b").unwrap();
    assert_eq!(state_bytes(&m, 4096, 1), state_bytes(&m, 4096, 2) / 2);
}

// Naive says "fits", engine-aware says it won't serve. 80e9 bytes is the decimal figure
// for an A100 from before its VRAM was corrected to the 79.25 GiB that were observed; the
// device of the registry is the subject of the next test.
#[test]
fn two_a100_of_80_decimal_gb_wont_serve_but_naive_would() {
    let m = registry::model("llama-3-70b").unwrap();
    let dev = Device { vram_bytes: 80_000_000_000, ..registry::device("a100-80gb").unwrap() };
    let hw = DeviceSet { device: dev, count: 2 };
    let w = Workload { ctx: 4096, prompt_tokens: 2048, concurrency: None, kv_bytes: 2 };
    let r = fit(&m, &hw, &Fp16, &Vllm { util: soft(0.90) }, &w, &Calibration::uncalibrated());
    assert!(!r.serves, "should not serve at fp16 on 2×A100");
    assert!(r.naive_would_say, "naive weights<VRAM check would wrongly say fits");
    assert_eq!(r.max_seqs.1, 0);
}

// What the driver really leaves of an A100 is more than 80 decimal GB: enough for six.
#[test]
fn two_real_a100_serve_six_sequences() {
    let m = registry::model("llama-3-70b").unwrap();
    let hw = devices("a100-80gb", 2);
    let r = fit(&m, &hw, &Fp16, &Vllm { util: soft(0.90) }, &at(4096, 2), &Calibration::uncalibrated());
    assert!(r.serves);
    assert_eq!(r.max_seqs, (6, 6, 7));
    assert!(r.recommendations.is_empty());
}

// MLA: latent and rope, no per-head factor.
#[test]
fn mla_drops_the_per_head_factor() {
    let mla = StateGeometry::Mla { d_c: 512, d_rope: 64 };
    assert_eq!(mla.layer_state_bytes(100, 2), (512 + 64) * 100 * 2);
    // and it is far smaller than a GQA layer at the same length
    let gqa = StateGeometry::Gqa { head_dim: 128, n_kv_heads: 8 };
    assert!(mla.layer_state_bytes(4096, 2) < gqa.layer_state_bytes(4096, 2));
}

// MHA to GQA is a linear shrink of n_heads/n_kv_heads: here 8x.
#[test]
fn gqa_is_linear_shrink_over_mha() {
    let mha = StateGeometry::Mha { head_dim: 128, n_heads: 64 };
    let gqa = StateGeometry::Gqa { head_dim: 128, n_kv_heads: 8 };
    assert_eq!(mha.layer_state_bytes(4096, 2), gqa.layer_state_bytes(4096, 2) * 8);
}

#[test]
fn kv_bytes_per_token_are_exact() {
    let gqa = registry::model("llama-3-8b").unwrap();
    assert_eq!(state_bytes(&gqa, 1, 2), 131_072);
    let mla = registry::model("deepseek-v2-lite").unwrap();
    assert_eq!(state_bytes(&mla, 1, 2), 31_104);
}

#[test]
fn recurrent_state_is_constant() {
    let ssm = StateGeometry::Ssm { state_bytes_per_layer: 12345 };
    assert_eq!(ssm.layer_state_bytes(0, 2), 12345);
    assert_eq!(ssm.layer_state_bytes(u64::MAX, 1), 12345);
}

#[test]
fn attention_state_is_linear() {
    let mha = StateGeometry::Mha { head_dim: 128, n_heads: 32 };
    assert_eq!(mha.layer_state_bytes(0, 2), 0);
    assert_eq!(mha.layer_state_bytes(1000, 2), 1000 * mha.layer_state_bytes(1, 2));
}

#[test]
fn state_that_does_not_fit_is_none() {
    let top = u32::MAX;
    let mha = StateGeometry::Mha { head_dim: top, n_heads: top };
    assert_eq!(mha.checked_layer_state_bytes(0, 0), None);
    let gqa = StateGeometry::Gqa { head_dim: top, n_kv_heads: 1 };
    assert_eq!(gqa.checked_layer_state_bytes(1, 1), Some(2 * top as u64));
    assert_eq!(gqa.checked_layer_state_bytes(u64::MAX, 0), None);
    assert_eq!(gqa.checked_layer_state_bytes(1 << 31, 255), None);
    let mla = StateGeometry::Mla { d_c: top, d_rope: top };
    assert_eq!(mla.checked_layer_state_bytes(1, 1), Some(2 * top as u64));
    let m = ModelShape { layers: 1 << 30, state: gqa, ..registry::model("llama-3-8b").unwrap() };
    assert_eq!(checked_state_bytes(&m, 1, 1), Some(2 * top as u64 * (1 << 30)));
    assert_eq!(checked_state_bytes(&m, 4, 1), None);
}

#[test]
fn weights_follow_the_scheme() {
    let m = registry::model("llama-3-8b").unwrap();
    assert_eq!(weights_bytes(&m, &Fp16), 16_060_522_496);
    assert_eq!(weights_bytes(&m, &Fp8), 8_030_261_248);
    assert_eq!(weights_bytes(&m, &Q4KM), (8_030_261_248f64 * (4.8 / 8.0)).round() as u64);
    let half = Quant::new("half", soft(0.5));
    let one = ModelShape { n_params: 1, ..m.clone() };
    // Halves round away from zero.
    assert_eq!(weights_bytes(&one, &half), 1);
    assert_eq!(half.name(), "half");
    assert_eq!((Fp16.name(), Fp8.name(), Q4KM.name()), ("fp16", "fp8", "q4_k_m"));
}

#[test]
fn awq_is_what_was_measured() {
    // 70.6B in AWQ: 37.06 GiB.
    let m = registry::model("llama-3-70b").unwrap();
    let q = registry::quant("awq").unwrap();
    let gib = weights_bytes(&m, q.as_ref()) as f64 / GIB;
    assert_eq!(format!("{:.2}", gib), "37.04");
}

#[test]
fn intervals_are_exact_or_bands() {
    let i = Interval::exact(soft(1.5));
    assert_eq!(numbers(&i), (1.5, 1.5, 1.5));
    assert!(i.exact && i.calibrated);
    let b = Interval::band(soft(1.0), soft(2.0), soft(4.0), false);
    assert_eq!(numbers(&b), (1.0, 2.0, 4.0));
    assert!(!b.exact && !b.calibrated);
}

#[test]
fn rough_calibration() {
    let c = Calibration::uncalibrated();
    assert_eq!(numbers(&c.overhead), (2.5e9, 3.0e9, 4.0e9));
    assert_eq!(numbers(&c.mfu), (0.30, 0.40, 0.50));
    assert_eq!(numbers(&c.mbu), (0.60, 0.70, 0.85));
    assert!(!c.overhead.calibrated && !c.mfu.calibrated && !c.mbu.calibrated);
}

#[test]
fn measured_overhead_is_that_of_the_fit() {
    let small = registry::model("llama-3-8b").unwrap();
    let large = registry::model("llama-3-70b").unwrap();
    let gib = |m: &ModelShape, count: u32| {
        format!("{:.2}", hard(Calibration::measured(m, count).overhead.best) / GIB)
    };
    assert_eq!(gib(&small, 1), "1.83");
    assert_eq!(gib(&large, 1), "3.38");
    assert_eq!(gib(&small, 2), "2.66");
    // A mixture of experts holds more at runtime.
    let moe = registry::model("deepseek-v2-lite").unwrap();
    assert_eq!(gib(&moe, 1), "1.48");
    let c = Calibration::measured(&small, 1);
    assert!(c.overhead.calibrated && c.mbu.calibrated && !c.mfu.calibrated);
    assert_eq!(numbers(&c.mfu), (0.25, 0.40, 0.55));
    assert_eq!(hard(c.mbu.best), 0.61);
    let (low, best, high) = numbers(&c.overhead);
    assert_eq!((low, high), (best * 0.80, best * 1.20));
}

#[test]
fn measured_setups_meet_the_documented_numbers() {
    let m = registry::model("llama-3-8b").unwrap();
    let hw = devices("a100-80gb", 1);
    let c = Calibration::measured(&m, 1);
    let r = fit(&m, &hw, &Fp16, &Vllm { util: soft(0.90) }, &at(8192, 2), &c);
    let gib = |x: F64| format!("{:.1}", hard(x) / GIB);
    assert_eq!(format!("{:.1}", r.weights as f64 / GIB), "15.0");
    assert_eq!((gib(r.overhead.low), gib(r.overhead.best), gib(r.overhead.high)), ("1.5".into(), "1.8".into(), "2.2".into()));
    assert_eq!((gib(r.kv_pool.low), gib(r.kv_pool.best), gib(r.kv_pool.high)), ("54.2".into(), "54.5".into(), "54.9".into()));
    assert_eq!(r.max_seqs.1, 54);
    let tok = |x: F64| format!("{:.0}", hard(x));
    assert_eq!((tok(r.decode.low), tok(r.decode.best), tok(r.decode.high)), ("65".into(), "73".into(), "81".into()));
    assert_eq!(r.bytes_per_seq, 1 << 30);
}

#[test]
fn engines_share_out_memory() {
    let overhead = Interval::band(soft(1e9), soft(2e9), soft(3e9), true);
    let total: u64 = 80_000_000_000;
    let weights: u64 = 16_000_000_000;
    let vllm = Vllm { util: soft(0.90) };
    let pool = vllm.kv_pool_bytes(total, weights, overhead);
    let grab = 80_000_000_000f64 * 0.90 - 16e9;
    assert_eq!(numbers(&pool), (grab - 3e9, grab - 2e9, grab - 1e9));
    assert!(pool.calibrated && !pool.exact);
    assert_eq!(vllm.name(), "vLLM");
    assert_eq!(hard(vllm.util().unwrap()), 0.90);
    assert_eq!(vllm.managed_pool(total), Some(72_000_000_000));
    // All of memory is there to be used: weights, overhead and pool make it up.
    let pool = LlamaCpp.kv_pool_bytes(total, weights, overhead);
    assert_eq!(numbers(&pool), (61e9, 62e9, 63e9));
    assert_eq!(LlamaCpp.name(), "llama.cpp");
    assert!(LlamaCpp.util().is_none());
    assert_eq!(LlamaCpp.managed_pool(total), None);
}

#[test]
fn device_sets_add_up() {
    let hw = devices("h100-80gb", 3);
    assert_eq!(hw.total_vram(), 3 * 85_099_345_920);
    assert_eq!(hard(hw.total_bw()), 3_350_000_000_000f64 * 3.0);
    assert_eq!(hard(hw.total_flops()), 989e12 * 3.0);
}

#[test]
fn speed_is_the_roofline() {
    let m = registry::model("llama-3-8b").unwrap();
    let hw = devices("a100-80gb", 2);
    let c = Calibration::uncalibrated();
    let w = at(4096, 2);
    let work = 2.0 * 8_030_261_248f64 * 2048.0;
    let flops = 312e12 * 2.0;
    let t = ttft_s(&m, &hw, &w, &c);
    assert_eq!(numbers(&t), (work / (flops * 0.50), work / (flops * 0.40), work / (flops * 0.30)));
    let read = (16_060_522_496u64 + 131_072 * 4096) as f64;
    let bw = 2_039_000_000_000f64 * 2.0;
    let d = decode_tok_s(&m, &hw, &Fp16, &w, &c);
    assert_eq!(numbers(&d), (bw * 0.60 / read, bw * 0.70 / read, bw * 0.85 / read));
    let ridge = (flops / bw) * 16_060_522_496f64 / (2.0 * 8_030_261_248f64);
    assert_eq!(hard(ridge_batch(&m, &hw, &Fp16)), ridge);
    // On an A100 the ridge lies around a batch of 150.
    assert_eq!(format!("{:.0}", ridge), "153");
    // A longer context reads more for each token.
    let longer = decode_tok_s(&m, &hw, &Fp16, &at(131072, 2), &c);
    assert!(hard(longer.best) < hard(d.best));
}

#[test]
fn reports_are_those_of_the_machine() {
    let c = Calibration::uncalibrated();
    for id in ["llama-2-7b", "llama-3-70b", "mixtral-8x7b", "deepseek-r1"] {
        for gpu in ["a100-40gb", "h200-141gb", "rtx4090-24gb"] {
            for (dtype, bpw) in [("fp16", 2.0), ("q6_k", 6.56 / 8.0), ("gptq", 4.25 / 8.0)] {
                for count in [1u32, 2, 8] {
                    let m = registry::model(id).unwrap();
                    let hw = devices(gpu, count);
                    let q = registry::quant(dtype).unwrap();
                    let e = alloc_of("vllm").unwrap();
                    let r = fit(&m, &hw, q.as_ref(), &e, &at(4096, 2), &c);
                    let weights = (m.n_params as f64 * bpw).round() as u64;
                    let total = hw.device.vram_bytes * count as u64;
                    let pool = |o: f64| total as f64 * 0.90 - weights as f64 - o;
                    assert_eq!(r.weights, weights);
                    assert_eq!(r.total_vram, total);
                    assert_eq!(r.managed_pool, Some((total as f64 * 0.90) as u64));
                    assert_eq!(numbers(&r.kv_pool), (pool(4.0e9), pool(3.0e9), pool(2.5e9)));
                    let seqs = |p: f64| ((p / r.bytes_per_seq as f64).floor() as i64).max(0);
                    assert_eq!(r.max_seqs, (seqs(pool(4.0e9)), seqs(pool(3.0e9)), seqs(pool(2.5e9))));
                    assert_eq!(r.serves, r.max_seqs.1 >= 1);
                    assert_eq!(r.naive_would_say, weights < total);
                    // What serves passes the naive check too.
                    assert!(!r.serves || r.naive_would_say);
                    assert!(r.max_seqs.0 <= r.max_seqs.1 && r.max_seqs.1 <= r.max_seqs.2);
                    assert_eq!(r.quant_name, q.name());
                    assert_eq!(r.engine_name, "vLLM");
                    assert_eq!((r.ctx, r.kv_bytes), (4096, 2));
                    assert_eq!(r.not_modeled, vec!["prefix-cache", "chunked-prefill"]);
                    assert!(!r.calibrated);
                }
            }
        }
    }
}

#[test]
fn recommendations_hold() {
    let m = registry::model("llama-3-70b").unwrap();
    let c = Calibration::uncalibrated();
    let e = alloc_of("vllm").unwrap();
    let w = at(4096, 2);
    let r = fit(&m, &devices("h200-141gb", 1), &Fp16, &e, &w, &c);
    assert!(!r.serves);
    let r8 = fit(&m, &devices("h200-141gb", 1), &Fp8, &e, &w, &c);
    assert!(r8.serves);
    assert_eq!(r.recommendations[0], ("--dtype fp8".to_string(), format!("~{} seqs @4k", r8.max_seqs.1)));
    assert_eq!(r.recommendations[1], ("--gpu h200-141gb:2".to_string(), "fits".to_string()));
    assert!(fit(&m, &devices("h200-141gb", 2), &Fp16, &e, &w, &c).serves);
    // Two do not suffice here, and neither do four.
    let r = fit(&m, &devices("rtx4090-24gb", 1), &Fp16, &e, &w, &c);
    assert_eq!(r.recommendations, vec![("--gpu rtx4090-24gb:8".to_string(), "fits".to_string())]);
    // Nothing up to eight helps.
    let big = registry::model("deepseek-r1").unwrap();
    let r = fit(&big, &devices("rtx4090-24gb", 8), &Fp16, &e, &w, &c);
    assert!(r.recommendations.is_empty());
}

#[test]
fn sequences_of_no_bytes_are_not_counted() {
    let m = registry::model("llama-3-8b").unwrap();
    let e = alloc_of("vllm").unwrap();
    let r = fit(&m, &devices("a100-80gb", 1), &Fp16, &e, &at(0, 2), &Calibration::uncalibrated());
    assert_eq!(r.bytes_per_seq, 0);
    assert_eq!(r.max_seqs, (0, 0, 0));
    assert!(!r.serves && r.recommendations.is_empty());
}

#[test]
fn fits_that_overflow_are_none() {
    let m = registry::model("llama-3-8b").unwrap();
    let c = Calibration::uncalibrated();
    let e = Engine::LlamaCpp(LlamaCpp);
    let full = DeviceSet {
        device: Device { vram_bytes: u64::MAX, ..registry::device("a100-80gb").unwrap() },
        count: 2,
    };
    assert!(checked_fit(&m, &full, &Fp16, &e, &at(4096, 2), &c).is_none());
    // One device fits, and serves, so that no larger set is looked at.
    let single = DeviceSet { count: 1, ..full.clone() };
    assert!(checked_fit(&m, &single, &Fp16, &e, &at(4096, 2), &c).is_some());
    // It does not serve, and two of it do not fit.
    let heavy = ModelShape { n_params: 0x7000_0000_0000_0000, ..m.clone() };
    let half = DeviceSet {
        device: Device { vram_bytes: 1 << 63, ..registry::device("a100-80gb").unwrap() },
        count: 1,
    };
    assert!(checked_fit(&heavy, &half, &Fp16, &e, &at(4096, 2), &c).is_none());
    let huge = ModelShape { n_params: u64::MAX, ..m.clone() };
    assert!(checked_fit(&huge, &devices("a100-80gb", 8), &Fp16, &e, &at(4096, 2), &c).is_none());
    let wide = ModelShape { state: StateGeometry::Mha { head_dim: u32::MAX, n_heads: u32::MAX }, ..m };
    assert!(checked_fit(&wide, &single, &Fp16, &e, &at(4096, 2), &c).is_none());
    assert!(checked_scan(&wide, &single, &Fp16, &e, 1, 2, &[512], &c).is_none());
}

#[test]
fn scans_fit_each_context() {
    let m = registry::model("llama-3-8b").unwrap();
    let hw = devices("a100-80gb", 1);
    let c = Calibration::measured(&m, 1);
    let e = alloc_of("vllm").unwrap();
    let ctxs = scan_contexts();
    assert_eq!(ctxs, vec![512, 1024, 2048, 4096, 8192, 16384, 32768, 65536, 131072]);
    let list = checked_scan(&m, &hw, &Fp16, &e, 2048, 2, &ctxs, &c).unwrap();
    assert_eq!(list.len(), 9);
    for (i, r) in list.iter().enumerate() {
        let single = fit(&m, &hw, &Fp16, &e, &at(ctxs[i], 2), &c);
        assert_eq!(r.ctx, ctxs[i]);
        assert_eq!(r.max_seqs, single.max_seqs);
        assert_eq!(numbers(&r.decode), numbers(&single.decode));
        if i > 0 {
            assert!(r.max_seqs.1 <= list[i - 1].max_seqs.1);
        }
    }
}

#[test]
fn more_and_less_go_the_right_way() {
    let m = registry::model("llama-3-70b").unwrap();
    let c = Calibration::uncalibrated();
    let vllm = alloc_of("vllm").unwrap();
    let llama = alloc_of("llamacpp").unwrap();
    let w = at(4096, 2);
    let four = fit(&m, &devices("h100-80gb", 4), &Fp16, &vllm, &w, &c);
    let eight = fit(&m, &devices("h100-80gb", 8), &Fp16, &vllm, &w, &c);
    assert!(four.max_seqs.1 < eight.max_seqs.1);
    let lighter = fit(&m, &devices("h100-80gb", 4), &Fp8, &vllm, &w, &c);
    assert!(four.max_seqs.1 < lighter.max_seqs.1);
    let all = fit(&m, &devices("h100-80gb", 4), &Fp16, &llama, &w, &c);
    assert!(hard(four.kv_pool.best) < hard(all.kv_pool.best));
    assert!(hard(all.kv_pool.high) < all.total_vram as f64);
    let small_kv = fit(&m, &devices("h100-80gb", 4), &Fp16, &vllm, &at(4096, 1), &c);
    assert_eq!(small_kv.weights, four.weights);
    assert_eq!(numbers(&small_kv.kv_pool), numbers(&four.kv_pool));
    assert!(small_kv.max_seqs.1 >= 2 * four.max_seqs.1);
}

#[test]
fn reports_carry_their_calibration() {
    let m = registry::model("llama-3-8b").unwrap();
    let hw = devices("a100-80gb", 1);
    let e = alloc_of("vllm").unwrap();
    let r = fit(&m, &hw, &Fp16, &e, &at(4096, 2), &Calibration::measured(&m, 1));
    assert!(r.calibrated && r.kv_pool.calibrated && r.decode.calibrated && !r.ttft.calibrated);
    let r = fit(&m, &hw, &Fp16, &e, &at(4096, 2), &Calibration::uncalibrated());
    assert!(!r.calibrated && !r.kv_pool.calibrated && !r.decode.calibrated && !r.ttft.calibrated);
    assert!(!r.kv_pool.exact && !r.decode.exact && !r.ttft.exact);
}

#[test]
fn more_devices_are_faster() {
    let m = registry::model("llama-3-8b").unwrap();
    let c = Calibration::uncalibrated();
    let one = decode_tok_s(&m, &devices("h100-80gb", 1), &Fp16, &at(4096, 2), &c);
    let two = decode_tok_s(&m, &devices("h100-80gb", 2), &Fp16, &at(4096, 2), &c);
    assert_eq!(hard(two.best), 2.0 * hard(one.best));
    let first = ttft_s(&m, &devices("h100-80gb", 1), &at(4096, 2), &c);
    assert!(hard(first.low) < hard(first.best) && hard(first.best) < hard(first.high));
}

#[test]
fn latent_attention_holds_four_times_fewer_bytes() {
    let gqa = registry::model("llama-3-8b").unwrap();
    let mla = registry::model("deepseek-v2-lite").unwrap();
    assert_eq!(state_bytes(&gqa, 1, 2) / state_bytes(&mla, 1, 2), 4);
}

#[test]
fn the_last_byte_of_a_sequence_counts() {
    let m = registry::model("llama-3-8b").unwrap();
    let c = Calibration::uncalibrated();
    let per_seq: u64 = 131_072 * 4096;
    let enough: u64 = 8_030_261_248 + 3_000_000_000 + per_seq;
    for (vram_bytes, seqs) in [(enough - 1, 0), (enough, 1), (enough + 1, 1)] {
        let device = Device { vram_bytes, ..registry::device("a100-80gb").unwrap() };
        let hw = DeviceSet { device, count: 1 };
        let r = fit(&m, &hw, &Fp8, &LlamaCpp, &at(4096, 2), &c);
        assert_eq!(r.bytes_per_seq, per_seq);
        assert_eq!(r.serves, !r.kv_pool.best.lt(F64::from_u64(per_seq)));
        assert_eq!(r.max_seqs.1, seqs);
    }
}
