//! Built-in registry: popular models, devices and quantisations, so that sizing
//! works offline.
//!
//! VRAM is what an engine can use: binary GiB less a reserve of the driver. Bytes
//! per weight are real ones.

use crate::binary64::{Datum, F64};
use crate::sizing::{Device, ModelShape, Quant, QuantScheme, StateGeometry};
use crate::text::same;
use vstd::prelude::*;

verus! {

/// What the registry knows of a model.
#[derive(Clone, Copy)]
pub struct ModelRow {
    pub layers: u32,
    pub d_model: u32,
    pub n_params: u64,
    pub active_params: u64,
    pub state: StateGeometry,
    pub kv_kind: &'static str,
}

/// The models of the registry, by id.
pub open spec fn known_model(id: Seq<char>) -> Option<ModelRow> {
    if id == "llama-2-7b"@ {
        Some(
            ModelRow {
                layers: 32,
                d_model: 4096,
                n_params: 6_738_415_616,
                active_params: 6_738_415_616,
                state: StateGeometry::Mha { head_dim: 128, n_heads: 32 },
                kv_kind: "MHA",
            },
        )
    } else if id == "llama-3-8b"@ {
        Some(
            ModelRow {
                layers: 32,
                d_model: 4096,
                n_params: 8_030_261_248,
                active_params: 8_030_261_248,
                state: StateGeometry::Gqa { head_dim: 128, n_kv_heads: 8 },
                kv_kind: "GQA",
            },
        )
    } else if id == "llama-3-70b"@ {
        Some(
            ModelRow {
                layers: 80,
                d_model: 8192,
                n_params: 70_553_706_496,
                active_params: 70_553_706_496,
                state: StateGeometry::Gqa { head_dim: 128, n_kv_heads: 8 },
                kv_kind: "GQA",
            },
        )
    } else if id == "mistral-7b"@ {
        Some(
            ModelRow {
                layers: 32,
                d_model: 4096,
                n_params: 7_241_732_096,
                active_params: 7_241_732_096,
                state: StateGeometry::Gqa { head_dim: 128, n_kv_heads: 8 },
                kv_kind: "GQA",
            },
        )
    } else if id == "qwen2.5-7b"@ {
        Some(
            ModelRow {
                layers: 28,
                d_model: 3584,
                n_params: 7_615_616_512,
                active_params: 7_615_616_512,
                state: StateGeometry::Gqa { head_dim: 128, n_kv_heads: 4 },
                kv_kind: "GQA",
            },
        )
    } else if id == "deepseek-r1-distill-14b"@ {
        Some(
            ModelRow {
                layers: 48,
                d_model: 5120,
                n_params: 14_770_033_664,
                active_params: 14_770_033_664,
                state: StateGeometry::Gqa { head_dim: 128, n_kv_heads: 8 },
                kv_kind: "GQA",
            },
        )
    } else if id == "mixtral-8x7b"@ {
        Some(
            ModelRow {
                layers: 32,
                d_model: 4096,
                n_params: 46_702_792_704,
                active_params: 12_900_000_000,
                state: StateGeometry::Gqa { head_dim: 128, n_kv_heads: 8 },
                kv_kind: "GQA·MoE",
            },
        )
    } else if id == "deepseek-v2-lite"@ {
        Some(
            ModelRow {
                layers: 27,
                d_model: 2048,
                n_params: 15_706_000_000,
                active_params: 2_400_000_000,
                state: StateGeometry::Mla { d_c: 512, d_rope: 64 },
                kv_kind: "MLA·MoE",
            },
        )
    } else if id == "deepseek-r1"@ {
        Some(
            ModelRow {
                layers: 61,
                d_model: 7168,
                n_params: 671_000_000_000,
                active_params: 37_000_000_000,
                state: StateGeometry::Mla { d_c: 512, d_rope: 64 },
                kv_kind: "MLA·MoE",
            },
        )
    } else {
        None
    }
}

fn find_model(id: &str) -> (r: Option<ModelRow>)
    ensures
        r == known_model(id@),
{
    if same(id, "llama-2-7b") {
        Some(
            ModelRow {
                layers: 32,
                d_model: 4096,
                n_params: 6_738_415_616,
                active_params: 6_738_415_616,
                state: StateGeometry::Mha { head_dim: 128, n_heads: 32 },
                kv_kind: "MHA",
            },
        )
    } else if same(id, "llama-3-8b") {
        Some(
            ModelRow {
                layers: 32,
                d_model: 4096,
                n_params: 8_030_261_248,
                active_params: 8_030_261_248,
                state: StateGeometry::Gqa { head_dim: 128, n_kv_heads: 8 },
                kv_kind: "GQA",
            },
        )
    } else if same(id, "llama-3-70b") {
        Some(
            ModelRow {
                layers: 80,
                d_model: 8192,
                n_params: 70_553_706_496,
                active_params: 70_553_706_496,
                state: StateGeometry::Gqa { head_dim: 128, n_kv_heads: 8 },
                kv_kind: "GQA",
            },
        )
    } else if same(id, "mistral-7b") {
        Some(
            ModelRow {
                layers: 32,
                d_model: 4096,
                n_params: 7_241_732_096,
                active_params: 7_241_732_096,
                state: StateGeometry::Gqa { head_dim: 128, n_kv_heads: 8 },
                kv_kind: "GQA",
            },
        )
    } else if same(id, "qwen2.5-7b") {
        Some(
            ModelRow {
                layers: 28,
                d_model: 3584,
                n_params: 7_615_616_512,
                active_params: 7_615_616_512,
                state: StateGeometry::Gqa { head_dim: 128, n_kv_heads: 4 },
                kv_kind: "GQA",
            },
        )
    } else if same(id, "deepseek-r1-distill-14b") {
        Some(
            ModelRow {
                layers: 48,
                d_model: 5120,
                n_params: 14_770_033_664,
                active_params: 14_770_033_664,
                state: StateGeometry::Gqa { head_dim: 128, n_kv_heads: 8 },
                kv_kind: "GQA",
            },
        )
    } else if same(id, "mixtral-8x7b") {
        Some(
            ModelRow {
                layers: 32,
                d_model: 4096,
                n_params: 46_702_792_704,
                active_params: 12_900_000_000,
                state: StateGeometry::Gqa { head_dim: 128, n_kv_heads: 8 },
                kv_kind: "GQA·MoE",
            },
        )
    } else if same(id, "deepseek-v2-lite") {
        Some(
            ModelRow {
                layers: 27,
                d_model: 2048,
                n_params: 15_706_000_000,
                active_params: 2_400_000_000,
                state: StateGeometry::Mla { d_c: 512, d_rope: 64 },
                kv_kind: "MLA·MoE",
            },
        )
    } else if same(id, "deepseek-r1") {
        Some(
            ModelRow {
                layers: 61,
                d_model: 7168,
                n_params: 671_000_000_000,
                active_params: 37_000_000_000,
                state: StateGeometry::Mla { d_c: 512, d_rope: 64 },
                kv_kind: "MLA·MoE",
            },
        )
    } else {
        None
    }
}

/// `m` is the shape of a row, under an id. Every layer holds state.
pub open spec fn is_model(m: ModelShape, id: Seq<char>, row: ModelRow) -> bool {
    &&& m.id@ == id
    &&& m.layers == row.layers
    &&& m.kv_layers == row.layers
    &&& m.d_model == row.d_model
    &&& m.n_params == row.n_params
    &&& m.active_params == row.active_params
    &&& m.state == row.state
    &&& m.kv_kind == row.kv_kind
}

/// The model of an id.
pub fn model(id: &str) -> (r: Option<ModelShape>)
    ensures
        r is Some <==> known_model(id@) is Some,
        r matches Some(m) ==> is_model(m, id@, known_model(id@)->0),
{
    match find_model(id) {
        Some(row) => Some(
            ModelShape {
                id: id.to_owned(),
                layers: row.layers,
                kv_layers: row.layers,
                d_model: row.d_model,
                n_params: row.n_params,
                active_params: row.active_params,
                state: row.state,
                kv_kind: row.kv_kind,
            },
        ),
        None => None,
    }
}

/// What the registry knows of a device.
#[derive(Clone, Copy)]
pub struct DeviceRow {
    /// Nominal VRAM in GiB.
    pub nominal_gib: u64,
    /// Memory bandwidth in bytes per second.
    pub mem_bw: u64,
    /// Peak fp16 operations per second.
    pub peak_flops: u64,
    pub arch: &'static str,
    pub interconnect: &'static str,
}

/// Usable VRAM in bytes: binary GiB less a measured reserve of about 0.75 GiB.
fn usable(nominal_gib: u64) -> (r: u64)
    requires
        0 < nominal_gib < 1_000_000,
    ensures
        r == nominal_gib * 1_073_741_824 - 800_000_000,
{
    nominal_gib * 1_073_741_824 - 800_000_000
}

/// The devices of the registry, by id.
pub open spec fn known_device(id: Seq<char>) -> Option<DeviceRow> {
    if id == "a100-40gb"@ {
        Some(
            DeviceRow {
                nominal_gib: 40,
                mem_bw: 1_555_000_000_000,
                peak_flops: 312_000_000_000_000,
                arch: "Ampere",
                interconnect: "NVLink3 600GB/s",
            },
        )
    } else if id == "a100-80gb"@ {
        Some(
            DeviceRow {
                nominal_gib: 80,
                mem_bw: 2_039_000_000_000,
                peak_flops: 312_000_000_000_000,
                arch: "Ampere",
                interconnect: "NVLink3 600GB/s",
            },
        )
    } else if id == "rtx3090-24gb"@ {
        Some(
            DeviceRow {
                nominal_gib: 24,
                mem_bw: 936_000_000_000,
                peak_flops: 71_000_000_000_000,
                arch: "Ampere",
                interconnect: "NVLink3 bridge",
            },
        )
    } else if id == "h100-80gb"@ {
        Some(
            DeviceRow {
                nominal_gib: 80,
                mem_bw: 3_350_000_000_000,
                peak_flops: 989_000_000_000_000,
                arch: "Hopper",
                interconnect: "NVLink4 900GB/s",
            },
        )
    } else if id == "h200-141gb"@ {
        Some(
            DeviceRow {
                nominal_gib: 141,
                mem_bw: 4_800_000_000_000,
                peak_flops: 989_000_000_000_000,
                arch: "Hopper",
                interconnect: "NVLink4 900GB/s",
            },
        )
    } else if id == "l40s-48gb"@ {
        Some(
            DeviceRow {
                nominal_gib: 48,
                mem_bw: 864_000_000_000,
                peak_flops: 362_000_000_000_000,
                arch: "Ada",
                interconnect: "PCIe4",
            },
        )
    } else if id == "rtx4090-24gb"@ {
        Some(
            DeviceRow {
                nominal_gib: 24,
                mem_bw: 1_008_000_000_000,
                peak_flops: 165_000_000_000_000,
                arch: "Ada",
                interconnect: "PCIe4",
            },
        )
    } else if id == "b200-192gb"@ {
        Some(
            DeviceRow {
                nominal_gib: 192,
                mem_bw: 8_000_000_000_000,
                peak_flops: 2_250_000_000_000_000,
                arch: "Blackwell",
                interconnect: "NVLink5 1.8TB/s",
            },
        )
    } else if id == "gb200-192gb"@ {
        Some(
            DeviceRow {
                nominal_gib: 192,
                mem_bw: 8_000_000_000_000,
                peak_flops: 2_500_000_000_000_000,
                arch: "Blackwell",
                interconnect: "NVLink5 1.8TB/s",
            },
        )
    } else if id == "rtx5090-32gb"@ {
        Some(
            DeviceRow {
                nominal_gib: 32,
                mem_bw: 1_792_000_000_000,
                peak_flops: 210_000_000_000_000,
                arch: "Blackwell",
                interconnect: "PCIe5",
            },
        )
    } else if id == "mi300x-192gb"@ {
        Some(
            DeviceRow {
                nominal_gib: 192,
                mem_bw: 5_300_000_000_000,
                peak_flops: 1_300_000_000_000_000,
                arch: "CDNA3",
                interconnect: "Infinity Fabric",
            },
        )
    } else {
        None
    }
}

fn find_device(id: &str) -> (r: Option<DeviceRow>)
    ensures
        r == known_device(id@),
        r matches Some(row) ==> 0 < row.nominal_gib <= 192,
{
    if same(id, "a100-40gb") {
        Some(
            DeviceRow {
                nominal_gib: 40,
                mem_bw: 1_555_000_000_000,
                peak_flops: 312_000_000_000_000,
                arch: "Ampere",
                interconnect: "NVLink3 600GB/s",
            },
        )
    } else if same(id, "a100-80gb") {
        Some(
            DeviceRow {
                nominal_gib: 80,
                mem_bw: 2_039_000_000_000,
                peak_flops: 312_000_000_000_000,
                arch: "Ampere",
                interconnect: "NVLink3 600GB/s",
            },
        )
    } else if same(id, "rtx3090-24gb") {
        Some(
            DeviceRow {
                nominal_gib: 24,
                mem_bw: 936_000_000_000,
                peak_flops: 71_000_000_000_000,
                arch: "Ampere",
                interconnect: "NVLink3 bridge",
            },
        )
    } else if same(id, "h100-80gb") {
        Some(
            DeviceRow {
                nominal_gib: 80,
                mem_bw: 3_350_000_000_000,
                peak_flops: 989_000_000_000_000,
                arch: "Hopper",
                interconnect: "NVLink4 900GB/s",
            },
        )
    } else if same(id, "h200-141gb") {
        Some(
            DeviceRow {
                nominal_gib: 141,
                mem_bw: 4_800_000_000_000,
                peak_flops: 989_000_000_000_000,
                arch: "Hopper",
                interconnect: "NVLink4 900GB/s",
            },
        )
    } else if same(id, "l40s-48gb") {
        Some(
            DeviceRow {
                nominal_gib: 48,
                mem_bw: 864_000_000_000,
                peak_flops: 362_000_000_000_000,
                arch: "Ada",
                interconnect: "PCIe4",
            },
        )
    } else if same(id, "rtx4090-24gb") {
        Some(
            DeviceRow {
                nominal_gib: 24,
                mem_bw: 1_008_000_000_000,
                peak_flops: 165_000_000_000_000,
                arch: "Ada",
                interconnect: "PCIe4",
            },
        )
    } else if same(id, "b200-192gb") {
        Some(
            DeviceRow {
                nominal_gib: 192,
                mem_bw: 8_000_000_000_000,
                peak_flops: 2_250_000_000_000_000,
                arch: "Blackwell",
                interconnect: "NVLink5 1.8TB/s",
            },
        )
    } else if same(id, "gb200-192gb") {
        Some(
            DeviceRow {
                nominal_gib: 192,
                mem_bw: 8_000_000_000_000,
                peak_flops: 2_500_000_000_000_000,
                arch: "Blackwell",
                interconnect: "NVLink5 1.8TB/s",
            },
        )
    } else if same(id, "rtx5090-32gb") {
        Some(
            DeviceRow {
                nominal_gib: 32,
                mem_bw: 1_792_000_000_000,
                peak_flops: 210_000_000_000_000,
                arch: "Blackwell",
                interconnect: "PCIe5",
            },
        )
    } else if same(id, "mi300x-192gb") {
        Some(
            DeviceRow {
                nominal_gib: 192,
                mem_bw: 5_300_000_000_000,
                peak_flops: 1_300_000_000_000_000,
                arch: "CDNA3",
                interconnect: "Infinity Fabric",
            },
        )
    } else {
        None
    }
}

/// `d` is the device of a row, under a name.
pub open spec fn is_device(d: Device, name: Seq<char>, row: DeviceRow) -> bool {
    &&& d.name@ == name
    &&& d.vram_bytes == row.nominal_gib * 1_073_741_824 - 800_000_000
    &&& d.mem_bw_bytes_s == row.mem_bw
    &&& d.peak_flops@ == Datum::of_nat(row.peak_flops as nat)
    &&& d.arch == row.arch
    &&& d.interconnect == row.interconnect
}

/// The device of an id.
pub fn device(id: &str) -> (r: Option<Device>)
    ensures
        r is Some <==> known_device(id@) is Some,
        r matches Some(d) ==> is_device(d, id@, known_device(id@)->0),
{
    match find_device(id) {
        Some(row) => Some(
            Device {
                name: id.to_owned(),
                vram_bytes: usable(row.nominal_gib),
                mem_bw_bytes_s: row.mem_bw,
                peak_flops: F64::from_u64(row.peak_flops),
                arch: row.arch,
                interconnect: row.interconnect,
            },
        ),
        None => None,
    }
}

/// So many hundredths of a bit for each weight, in bytes.
pub open spec fn hundredths_of_bits(n: nat) -> Datum {
    Datum::literal(n, 100).over(Datum::of_nat(8))
}

fn bits(n: u64) -> (r: F64)
    requires
        n < 10_000,
    ensures
        r@ == hundredths_of_bits(n as nat),
{
    F64::decimal(n, 100).div(F64::from_u64(8))
}

/// The quantisations of the registry, by name: the canonical name and the bytes
/// per weight.
pub open spec fn known_quant(name: Seq<char>) -> Option<(Seq<char>, Datum)> {
    if name == "fp16"@ {
        Some(("fp16"@, Datum::of_nat(2)))
    } else if name == "bf16"@ {
        Some(("bf16"@, Datum::of_nat(2)))
    } else if name == "fp8"@ {
        Some(("fp8"@, Datum::of_nat(1)))
    } else if name == "int8"@ {
        Some(("int8"@, Datum::of_nat(1)))
    } else if name == "q8_0"@ {
        Some(("q8_0"@, hundredths_of_bits(850)))
    } else if name == "q6_k"@ {
        Some(("q6_k"@, hundredths_of_bits(656)))
    } else if name == "q5_k_m"@ {
        Some(("q5_k_m"@, hundredths_of_bits(567)))
    } else if name == "q4_k_m"@ || name == "q4km"@ {
        Some(("q4_k_m"@, hundredths_of_bits(480)))
    } else if name == "q4_0"@ {
        Some(("q4_0"@, hundredths_of_bits(455)))
    } else if name == "q3_k_m"@ {
        Some(("q3_k_m"@, hundredths_of_bits(391)))
    } else if name == "q2_k"@ {
        Some(("q2_k"@, hundredths_of_bits(335)))
    } else if name == "awq"@ || name == "awq-int4"@ {
        Some(("awq-int4"@, hundredths_of_bits(451)))
    } else if name == "gptq"@ || name == "gptq-int4"@ {
        Some(("gptq-int4"@, hundredths_of_bits(425)))
    } else {
        None
    }
}

/// The quantisation of a name. Some rates were measured on hardware.
pub fn find_quant(name: &str) -> (r: Option<Quant>)
    ensures
        r is Some <==> known_quant(name@) is Some,
        r matches Some(q) ==> known_quant(name@) == Some((q.name@, q.bytes_per_weight@)),
{
    let (canon, weight): (&'static str, F64) = if same(name, "fp16") {
        ("fp16", F64::from_u64(2))
    } else if same(name, "bf16") {
        ("bf16", F64::from_u64(2))
    } else if same(name, "fp8") {
        ("fp8", F64::from_u64(1))
    } else if same(name, "int8") {
        ("int8", F64::from_u64(1))
    } else if same(name, "q8_0") {
        ("q8_0", bits(850))
    } else if same(name, "q6_k") {
        ("q6_k", bits(656))
    } else if same(name, "q5_k_m") {
        ("q5_k_m", bits(567))
    } else if same(name, "q4_k_m") || same(name, "q4km") {
        ("q4_k_m", bits(480))
    } else if same(name, "q4_0") {
        ("q4_0", bits(455))
    } else if same(name, "q3_k_m") {
        ("q3_k_m", bits(391))
    } else if same(name, "q2_k") {
        ("q2_k", bits(335))
    } else if same(name, "awq") || same(name, "awq-int4") {
        ("awq-int4", bits(451))
    } else if same(name, "gptq") || same(name, "gptq-int4") {
        ("gptq-int4", bits(425))
    } else {
        return None;
    };
    Some(Quant::new(canon, weight))
}

/// The quantisation of a name, as a scheme.
pub fn quant(name: &str) -> (r: Option<Box<dyn QuantScheme>>)
    ensures
        r is Some <==> known_quant(name@) is Some,
        r matches Some(q) ==> known_quant(name@) == Some((q.label(), q.weight())),
{
    match find_quant(name) {
        Some(q) => Some(Box::new(q)),
        None => None,
    }
}

} // verus!
