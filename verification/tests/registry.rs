use ridgepoint::binary64::F64;
use ridgepoint::fit::checked_fit;
use ridgepoint::registry::{device, model, quant};
use ridgepoint::choice::alloc_of;
use ridgepoint::sizing::{Calibration, DeviceSet, StateGeometry, Workload};

fn hard(x: F64) -> f64 {
    f64::from_bits(x.to_bits())
}

fn usable(nominal_gib: f64) -> u64 {
    (nominal_gib * 1_073_741_824.0 - 0.8e9) as u64
}

#[test]
fn models_are_known_by_id() {
    let gqa = |s: &StateGeometry| matches!(s, StateGeometry::Gqa { head_dim: 128, n_kv_heads: 8 });
    let mla = |s: &StateGeometry| matches!(s, StateGeometry::Mla { d_c: 512, d_rope: 64 });
    let rows = [
        ("llama-2-7b", 32, 4096, 6_738_415_616u64, 6_738_415_616u64, "MHA"),
        ("llama-3-8b", 32, 4096, 8_030_261_248, 8_030_261_248, "GQA"),
        ("llama-3-70b", 80, 8192, 70_553_706_496, 70_553_706_496, "GQA"),
        ("mistral-7b", 32, 4096, 7_241_732_096, 7_241_732_096, "GQA"),
        ("qwen2.5-7b", 28, 3584, 7_615_616_512, 7_615_616_512, "GQA"),
        ("deepseek-r1-distill-14b", 48, 5120, 14_770_033_664, 14_770_033_664, "GQA"),
        ("mixtral-8x7b", 32, 4096, 46_702_792_704, 12_900_000_000, "GQA·MoE"),
        ("deepseek-v2-lite", 27, 2048, 15_706_000_000, 2_400_000_000, "MLA·MoE"),
        ("deepseek-r1", 61, 7168, 671_000_000_000, 37_000_000_000, "MLA·MoE"),
    ];
    for (id, layers, d_model, n_params, active_params, kv_kind) in rows {
        let m = model(id).unwrap();
        assert_eq!(m.id, id);
        assert_eq!((m.layers, m.kv_layers, m.d_model), (layers, layers, d_model));
        assert_eq!((m.n_params, m.active_params), (n_params, active_params));
        assert_eq!(m.kv_kind, kv_kind);
        match id {
            "llama-2-7b" => assert!(matches!(m.state, StateGeometry::Mha { head_dim: 128, n_heads: 32 })),
            "qwen2.5-7b" => assert!(matches!(m.state, StateGeometry::Gqa { head_dim: 128, n_kv_heads: 4 })),
            "deepseek-v2-lite" | "deepseek-r1" => assert!(mla(&m.state)),
            _ => assert!(gqa(&m.state)),
        }
    }
    for id in ["", "llama", "llama-3-8B", "llama-3-8b ", "Qwen/Qwen2.5-7B"] {
        assert!(model(id).is_none());
    }
}

#[test]
fn devices_are_known_by_id() {
    let rows = [
        ("a100-40gb", 40.0, 1_555_000_000_000u64, 312e12, "Ampere", "NVLink3 600GB/s"),
        ("a100-80gb", 80.0, 2_039_000_000_000, 312e12, "Ampere", "NVLink3 600GB/s"),
        ("rtx3090-24gb", 24.0, 936_000_000_000, 71e12, "Ampere", "NVLink3 bridge"),
        ("h100-80gb", 80.0, 3_350_000_000_000, 989e12, "Hopper", "NVLink4 900GB/s"),
        ("h200-141gb", 141.0, 4_800_000_000_000, 989e12, "Hopper", "NVLink4 900GB/s"),
        ("l40s-48gb", 48.0, 864_000_000_000, 362e12, "Ada", "PCIe4"),
        ("rtx4090-24gb", 24.0, 1_008_000_000_000, 165e12, "Ada", "PCIe4"),
        ("b200-192gb", 192.0, 8_000_000_000_000, 2250e12, "Blackwell", "NVLink5 1.8TB/s"),
        ("gb200-192gb", 192.0, 8_000_000_000_000, 2500e12, "Blackwell", "NVLink5 1.8TB/s"),
        ("rtx5090-32gb", 32.0, 1_792_000_000_000, 210e12, "Blackwell", "PCIe5"),
        ("mi300x-192gb", 192.0, 5_300_000_000_000, 1300e12, "CDNA3", "Infinity Fabric"),
    ];
    for (id, gib, bw, flops, arch, interconnect) in rows {
        let d = device(id).unwrap();
        assert_eq!(d.name, id);
        assert_eq!(d.vram_bytes, usable(gib));
        assert_eq!(d.mem_bw_bytes_s, bw);
        assert_eq!(hard(d.peak_flops), flops);
        assert_eq!((d.arch, d.interconnect), (arch, interconnect));
    }
    for id in ["", "a100", "A100-80GB", "h100-80gb:1"] {
        assert!(device(id).is_none());
    }
}

#[test]
fn an_a100_has_the_memory_that_was_observed() {
    let gib = device("a100-80gb").unwrap().vram_bytes as f64 / 1_073_741_824.0;
    assert_eq!(format!("{:.2}", gib), "79.25");
}

#[test]
fn quantisations_are_known_by_name() {
    let rows = [
        ("fp16", "fp16", 2.0),
        ("bf16", "bf16", 2.0),
        ("fp8", "fp8", 1.0),
        ("int8", "int8", 1.0),
        ("q8_0", "q8_0", 8.50 / 8.0),
        ("q6_k", "q6_k", 6.56 / 8.0),
        ("q5_k_m", "q5_k_m", 5.67 / 8.0),
        ("q4_k_m", "q4_k_m", 4.80 / 8.0),
        ("q4km", "q4_k_m", 4.80 / 8.0),
        ("q4_0", "q4_0", 4.55 / 8.0),
        ("q3_k_m", "q3_k_m", 3.91 / 8.0),
        ("q2_k", "q2_k", 3.35 / 8.0),
        ("awq", "awq-int4", 4.51 / 8.0),
        ("awq-int4", "awq-int4", 4.51 / 8.0),
        ("gptq", "gptq-int4", 4.25 / 8.0),
        ("gptq-int4", "gptq-int4", 4.25 / 8.0),
    ];
    for (name, canon, bpw) in rows {
        let q = quant(name).unwrap();
        assert_eq!(q.name(), canon);
        assert_eq!(hard(q.bytes_per_weight()), bpw);
    }
    for name in ["", "fp4", "FP16", "q4"] {
        assert!(quant(name).is_none());
    }
}

#[test]
fn sizing_from_the_registry_never_overflows() {
    let e = alloc_of("vllm").unwrap();
    for id in ["llama-2-7b", "llama-3-70b", "deepseek-r1"] {
        let m = model(id).unwrap();
        for count in [0, 1, 0x400_0000] {
            let hw = DeviceSet { device: device("gb200-192gb").unwrap(), count };
            let q = quant("fp16").unwrap();
            for kv_bytes in [0, 1, 2, u8::MAX] {
                let w = Workload { ctx: u32::MAX, prompt_tokens: u32::MAX, concurrency: None, kv_bytes };
                assert!(checked_fit(&m, &hw, q.as_ref(), &e, &w, &Calibration::uncalibrated()).is_some());
            }
        }
    }
}
