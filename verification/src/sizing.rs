//! The memory and roofline model.
//!
//! Three things hold for any model and any engine: memory is conserved, state adds
//! up layer by layer, and speed follows the roofline. Everything that is specific
//! to a model, an engine or a quantisation comes in through `StateGeometry`,
//! `Allocator` and `QuantScheme`; `fit` never names an engine.

use crate::binary64::{Datum, F64};
use vstd::prelude::*;

verus! {

/// An answer that is not a single number.
///
/// Deterministic quantities are exact. Quantities that depend on a measured
/// coefficient carry a band, and say whether it was fit to real hardware.
#[derive(Clone, Copy, Debug)]
pub struct Interval {
    pub low: F64,
    pub best: F64,
    pub high: F64,
    pub exact: bool,
    pub calibrated: bool,
}

/// The numbers of an interval.
pub struct Band {
    pub low: Datum,
    pub best: Datum,
    pub high: Datum,
    pub exact: bool,
    pub calibrated: bool,
}

impl View for Interval {
    type V = Band;

    open spec fn view(&self) -> Band {
        Band {
            low: self.low@,
            best: self.best@,
            high: self.high@,
            exact: self.exact,
            calibrated: self.calibrated,
        }
    }
}

impl Band {
    pub open spec fn point(v: Datum) -> Band {
        Band { low: v, best: v, high: v, exact: true, calibrated: true }
    }

    pub open spec fn spread(low: Datum, best: Datum, high: Datum, calibrated: bool) -> Band {
        Band { low, best, high, exact: false, calibrated }
    }
}

impl Interval {
    /// A number known exactly.
    pub fn exact(v: F64) -> (r: Interval)
        ensures
            r@ == Band::point(v@),
            r.low == v && r.best == v && r.high == v,
    {
        Interval { low: v, best: v, high: v, exact: true, calibrated: true }
    }

    /// A number known within a band.
    pub fn band(low: F64, best: F64, high: F64, calibrated: bool) -> (r: Interval)
        ensures
            r@ == Band::spread(low@, best@, high@, calibrated),
            r.low == low && r.best == best && r.high == high,
    {
        Interval { low, best, high, exact: false, calibrated }
    }
}

/// Per-layer state as a function of the sequence length.
#[derive(Clone, Copy, Debug)]
pub enum StateGeometry {
    Mha { head_dim: u32, n_heads: u32 },
    Gqa { head_dim: u32, n_kv_heads: u32 },
    Mla { d_c: u32, d_rope: u32 },
    Ssm { state_bytes_per_layer: u64 },
}

impl StateGeometry {
    /// Elements of state that one layer adds for each token.
    pub open spec fn per_token(self) -> nat {
        match self {
            StateGeometry::Mha { head_dim, n_heads } => 2 * n_heads as nat * head_dim as nat,
            StateGeometry::Gqa { head_dim, n_kv_heads } => 2 * n_kv_heads as nat * head_dim as nat,
            StateGeometry::Mla { d_c, d_rope } => d_c as nat + d_rope as nat,
            StateGeometry::Ssm { .. } => 0,
        }
    }

    /// Bytes of state of one layer at sequence length `n`: attention keeps
    /// `kv_bytes` for each element of each token, recurrent state is constant.
    pub open spec fn layer_bytes(self, n: nat, kv_bytes: nat) -> nat {
        match self {
            StateGeometry::Ssm { state_bytes_per_layer } => state_bytes_per_layer as nat,
            _ => self.per_token() * n * kv_bytes,
        }
    }

    /// The products of `layer_bytes`, from left to right, fit in 64 bits.
    pub open spec fn layer_fits(self, n: nat, kv_bytes: nat) -> bool {
        self is Ssm || {
            &&& self.per_token() <= u64::MAX
            &&& self.per_token() * n <= u64::MAX
            &&& self.per_token() * n * kv_bytes <= u64::MAX
        }
    }

    /// Bytes of attention or recurrent state for one layer at sequence length `n`.
    /// `kv_bytes` is the size of a KV element (2 for fp16, 1 for fp8).
    pub fn layer_state_bytes(&self, n: u64, kv_bytes: u8) -> (r: u64)
        requires
            self.layer_fits(n as nat, kv_bytes as nat),
        ensures
            r == self.layer_bytes(n as nat, kv_bytes as nat),
    {
        self.checked_layer_state_bytes(n, kv_bytes).unwrap()
    }

    /// `layer_state_bytes`, or `None` where a product does not fit in 64 bits.
    pub fn checked_layer_state_bytes(&self, n: u64, kv_bytes: u8) -> (r: Option<u64>)
        ensures
            r is Some <==> self.layer_fits(n as nat, kv_bytes as nat),
            r matches Some(b) ==> b == self.layer_bytes(n as nat, kv_bytes as nat),
    {
        let per_token: u64 = match *self {
            // K and V, one entry for each attention head and token.
            StateGeometry::Mha { head_dim, n_heads } => (2 * n_heads as u64).checked_mul(
                head_dim as u64,
            )?,
            // KV is shared across query heads, so only `n_kv_heads` store it.
            StateGeometry::Gqa { head_dim, n_kv_heads } => (2 * n_kv_heads as u64).checked_mul(
                head_dim as u64,
            )?,
            // One compressed latent and one rope key for each token.
            StateGeometry::Mla { d_c, d_rope } => d_c as u64 + d_rope as u64,
            StateGeometry::Ssm { state_bytes_per_layer } => {
                return Some(state_bytes_per_layer);
            },
        };
        per_token.checked_mul(n)?.checked_mul(kv_bytes as u64)
    }
}

/// A model, as far as memory and speed depend on it.
#[derive(Debug)]
pub struct ModelShape {
    pub id: String,
    pub layers: u32,
    pub kv_layers: u32,
    pub d_model: u32,
    pub n_params: u64,
    pub active_params: u64,
    pub state: StateGeometry,
    /// A label to display: "GQA", "MLA", ...
    pub kv_kind: &'static str,
}

impl ModelShape {
    /// Bytes of the weights, to the nearest.
    pub open spec fn weights(self, weight: Datum) -> u64 {
        Datum::of_nat(self.n_params as nat).times(weight).round_u64()
    }

    /// Bytes of state over all layers at sequence length `n`.
    pub open spec fn state_at(self, n: nat, kv_bytes: nat) -> nat {
        self.state.layer_bytes(n, kv_bytes) * self.layers as nat
    }

    pub open spec fn state_fits(self, n: nat, kv_bytes: nat) -> bool {
        self.state.layer_fits(n, kv_bytes) && self.state_at(n, kv_bytes) <= u64::MAX
    }
}

impl Clone for ModelShape {
    fn clone(&self) -> (r: ModelShape)
        ensures
            r == *self,
    {
        ModelShape {
            id: self.id.clone(),
            layers: self.layers,
            kv_layers: self.kv_layers,
            d_model: self.d_model,
            n_params: self.n_params,
            active_params: self.active_params,
            state: self.state,
            kv_kind: self.kv_kind,
        }
    }
}

#[derive(Debug)]
pub struct Device {
    pub name: String,
    pub vram_bytes: u64,
    pub mem_bw_bytes_s: u64,
    pub peak_flops: F64,
    pub arch: &'static str,
    pub interconnect: &'static str,
}

impl Clone for Device {
    fn clone(&self) -> (r: Device)
        ensures
            r == *self,
    {
        Device {
            name: self.name.clone(),
            vram_bytes: self.vram_bytes,
            mem_bw_bytes_s: self.mem_bw_bytes_s,
            peak_flops: self.peak_flops,
            arch: self.arch,
            interconnect: self.interconnect,
        }
    }
}

/// Several devices of one kind.
#[derive(Debug)]
pub struct DeviceSet {
    pub device: Device,
    pub count: u32,
}

impl Clone for DeviceSet {
    fn clone(&self) -> (r: DeviceSet)
        ensures
            r == *self,
    {
        DeviceSet { device: self.device.clone(), count: self.count }
    }
}

impl DeviceSet {
    pub open spec fn vram(self) -> nat {
        self.device.vram_bytes as nat * self.count as nat
    }

    pub open spec fn bandwidth(self) -> Datum {
        Datum::of_nat(self.device.mem_bw_bytes_s as nat).times(Datum::of_nat(self.count as nat))
    }

    pub open spec fn flops(self) -> Datum {
        self.device.peak_flops@.times(Datum::of_nat(self.count as nat))
    }

    pub fn total_vram(&self) -> (r: u64)
        requires
            self.vram() <= u64::MAX,
        ensures
            r == self.vram(),
    {
        self.device.vram_bytes * self.count as u64
    }

    pub fn total_bw(&self) -> (r: F64)
        ensures
            r@ == self.bandwidth(),
    {
        F64::from_u64(self.device.mem_bw_bytes_s).mul(F64::from_u64(self.count as u64))
    }

    pub fn total_flops(&self) -> (r: F64)
        ensures
            r@ == self.flops(),
    {
        self.device.peak_flops.mul(F64::from_u64(self.count as u64))
    }
}

/// The operating point. Without a `concurrency` the maximum is wanted. `kv_bytes`
/// is the size of a KV-cache element, a serving decision of its own.
#[derive(Clone, Copy, Debug)]
pub struct Workload {
    pub ctx: u32,
    pub prompt_tokens: u32,
    pub concurrency: Option<u32>,
    pub kv_bytes: u8,
}

/// The measured inputs of the model.
#[derive(Clone, Copy, Debug)]
pub struct Calibration {
    /// Runtime overhead besides KV (activations, CUDA graphs), in bytes.
    pub overhead: Interval,
    /// Compute efficiency of prefill.
    pub mfu: Interval,
    /// Memory-bandwidth efficiency of decode.
    pub mbu: Interval,
}

impl Calibration {
    /// The numbers of `uncalibrated`.
    pub open spec fn is_uncalibrated(self) -> bool {
        &&& self.overhead@ == Calibration::rough_overhead()
        &&& self.mfu@ == Band::spread(
            Datum::literal(30, 100),
            Datum::literal(40, 100),
            Datum::literal(50, 100),
            false,
        )
        &&& self.mbu@ == Band::spread(
            Datum::literal(60, 100),
            Datum::literal(70, 100),
            Datum::literal(85, 100),
            false,
        )
    }

    pub open spec fn rough_overhead() -> Band {
        Band::spread(
            Datum::of_nat(2_500_000_000),
            Datum::of_nat(3_000_000_000),
            Datum::of_nat(4_000_000_000),
            false,
        )
    }

    /// Wide bands that were not fit to hardware.
    pub fn uncalibrated() -> (r: Calibration)
        ensures
            r.is_uncalibrated(),
    {
        Calibration {
            overhead: Interval::band(
                F64::from_u64(2_500_000_000),
                F64::from_u64(3_000_000_000),
                F64::from_u64(4_000_000_000),
                false,
            ),
            mfu: Interval::band(
                F64::decimal(30, 100),
                F64::decimal(40, 100),
                F64::decimal(50, 100),
                false,
            ),
            mbu: Interval::band(
                F64::decimal(60, 100),
                F64::decimal(70, 100),
                F64::decimal(85, 100),
                false,
            ),
        }
    }
}

impl Calibration {
    /// Activations, in GiB: they shard over the devices, so they count once.
    pub open spec fn activation(m: ModelShape) -> Datum {
        Datum::of_nat(m.d_model as nat).over(Datum::of_nat(4096))
    }

    /// Runtime and CUDA graphs of one device, in GiB. A mixture of experts takes more.
    pub open spec fn per_device(m: ModelShape) -> Datum {
        (if m.active_params != m.n_params {
            Datum::literal(70, 100)
        } else {
            Datum::literal(28, 100)
        }).plus(Datum::literal(55, 100).times(Calibration::activation(m)))
    }

    /// The overhead of a model on so many devices, in bytes.
    pub open spec fn overhead_bytes(m: ModelShape, count: u32) -> Datum {
        Calibration::activation(m).plus(
            Datum::of_nat(count as nat).times(Calibration::per_device(m)),
        ).times(Datum::of_nat(1_073_741_824))
    }

    /// The overhead with its band, a fifth of it to either side.
    pub open spec fn measured_overhead(m: ModelShape, count: u32) -> Band {
        let best = Calibration::overhead_bytes(m, count);
        Band::spread(
            best.times(Datum::literal(80, 100)),
            best,
            best.times(Datum::literal(120, 100)),
            true,
        )
    }

    pub open spec fn is_measured(self, m: ModelShape, count: u32) -> bool {
        &&& self.overhead@ == Calibration::measured_overhead(m, count)
        &&& self.mfu@ == Band::spread(
            Datum::literal(25, 100),
            Datum::literal(40, 100),
            Datum::literal(55, 100),
            false,
        )
        &&& self.mbu@ == Band::spread(
            Datum::literal(55, 100),
            Datum::literal(61, 100),
            Datum::literal(68, 100),
            true,
        )
    }

    /// What was fit to vLLM on A100 and H100. The overhead depends on the model and
    /// on the count of devices. The efficiency of prefill could not be measured: it
    /// is a band from the literature.
    pub fn measured(m: &ModelShape, count: u32) -> (r: Calibration)
        ensures
            r.is_measured(*m, count),
    {
        let activation = F64::from_u64(m.d_model as u64).div(F64::from_u64(4096));
        let runtime = if m.active_params != m.n_params {
            F64::decimal(70, 100)
        } else {
            F64::decimal(28, 100)
        };
        let per_device = runtime.add(F64::decimal(55, 100).mul(activation));
        let best = activation.add(F64::from_u64(count as u64).mul(per_device)).mul(
            F64::from_u64(1_073_741_824),
        );
        Calibration {
            overhead: Interval::band(
                best.mul(F64::decimal(80, 100)),
                best,
                best.mul(F64::decimal(120, 100)),
                true,
            ),
            mfu: Interval::band(
                F64::decimal(25, 100),
                F64::decimal(40, 100),
                F64::decimal(55, 100),
                false,
            ),
            mbu: Interval::band(
                F64::decimal(55, 100),
                F64::decimal(61, 100),
                F64::decimal(68, 100),
                true,
            ),
        }
    }
}

/// Why there is no answer.
pub enum Failure {
    /// What to tell the user.
    Message(String),
    /// A count does not fit in its integer type.
    Overflow,
}

/// `Failure`, with its text.
pub enum Trouble {
    Text(Seq<char>),
    Overflow,
}

impl View for Failure {
    type V = Trouble;

    open spec fn view(&self) -> Trouble {
        match self {
            Failure::Message(m) => Trouble::Text(m@),
            Failure::Overflow => Trouble::Overflow,
        }
    }
}

/// Weight quantisation, by its real bytes per weight. The KV-cache dtype is
/// another matter: see `Workload::kv_bytes`.
pub trait QuantScheme {
    /// Bytes per weight.
    spec fn weight(&self) -> Datum;

    spec fn label(&self) -> Seq<char>;

    fn bytes_per_weight(&self) -> (r: F64)
        ensures
            r@ == self.weight(),
    ;

    fn name(&self) -> (r: &str)
        ensures
            r@ == self.label(),
    ;
}

pub struct Fp16;

impl QuantScheme for Fp16 {
    open spec fn weight(&self) -> Datum {
        Datum::of_nat(2)
    }

    open spec fn label(&self) -> Seq<char> {
        "fp16"@
    }

    fn bytes_per_weight(&self) -> (r: F64) {
        F64::from_u64(2)
    }

    fn name(&self) -> (r: &str) {
        "fp16"
    }
}

pub struct Fp8;

impl QuantScheme for Fp8 {
    open spec fn weight(&self) -> Datum {
        Datum::of_nat(1)
    }

    open spec fn label(&self) -> Seq<char> {
        "fp8"@
    }

    fn bytes_per_weight(&self) -> (r: F64) {
        F64::from_u64(1)
    }

    fn name(&self) -> (r: &str) {
        "fp8"
    }
}

/// GGUF Q4_K_M: in reality about 4.8 bits for each weight.
pub struct Q4KM;

impl QuantScheme for Q4KM {
    open spec fn weight(&self) -> Datum {
        Datum::literal(48, 10).over(Datum::of_nat(8))
    }

    open spec fn label(&self) -> Seq<char> {
        "q4_k_m"@
    }

    fn bytes_per_weight(&self) -> (r: F64) {
        F64::decimal(48, 10).div(F64::from_u64(8))
    }

    fn name(&self) -> (r: &str) {
        "q4_k_m"
    }
}

/// A scheme by name and bytes per weight.
#[derive(Clone, Copy, Debug)]
pub struct Quant {
    pub name: &'static str,
    pub bytes_per_weight: F64,
}

impl Quant {
    pub fn new(name: &'static str, bytes_per_weight: F64) -> (r: Quant)
        ensures
            r.name == name,
            r.bytes_per_weight == bytes_per_weight,
    {
        Quant { name, bytes_per_weight }
    }
}

impl QuantScheme for Quant {
    open spec fn weight(&self) -> Datum {
        self.bytes_per_weight@
    }

    open spec fn label(&self) -> Seq<char> {
        self.name@
    }

    fn bytes_per_weight(&self) -> (r: F64) {
        self.bytes_per_weight
    }

    fn name(&self) -> (r: &str) {
        self.name
    }
}

/// How an engine partitions VRAM.
pub trait Allocator {
    /// The KV pool that is left after the engine's own allocation.
    spec fn pool(&self, total_vram: u64, weights: u64, overhead: Band) -> Band;

    spec fn label(&self) -> Seq<char>;

    /// The share of VRAM that the engine reserves at startup, if it does.
    spec fn share(&self) -> Option<Datum>;

    fn kv_pool_bytes(&self, total_vram: u64, weights: u64, overhead: Interval) -> (r: Interval)
        ensures
            r@ == self.pool(total_vram, weights, overhead@),
    ;

    fn name(&self) -> (r: &str)
        ensures
            r@ == self.label(),
    ;

    fn util(&self) -> (r: Option<F64>)
        ensures
            r is Some <==> self.share() is Some,
            r matches Some(u) ==> self.share() == Some(u@),
    ;

    /// The bytes that the engine reserves at startup, if it does.
    fn managed_pool(&self, total_vram: u64) -> (r: Option<u64>)
        ensures
            r == reserved(self.share(), total_vram),
    {
        match self.util() {
            Some(u) => Some(F64::from_u64(total_vram).mul(u).trunc_u64()),
            None => None,
        }
    }
}

pub open spec fn reserved(share: Option<Datum>, total_vram: u64) -> Option<u64> {
    match share {
        Some(u) => Some(Datum::of_nat(total_vram as nat).times(u).trunc_u64()),
        None => None,
    }
}

/// What `budget` leaves after weights and overhead. A high overhead makes the low
/// end of the pool.
pub open spec fn left_over(budget: Datum, weights: u64, overhead: Band) -> Band {
    let rest = budget.minus(Datum::of_nat(weights as nat));
    Band::spread(
        rest.minus(overhead.high),
        rest.minus(overhead.best),
        rest.minus(overhead.low),
        overhead.calibrated,
    )
}

/// vLLM reserves a share of VRAM at startup and pages KV into that pool.
#[derive(Clone, Copy, Debug)]
pub struct Vllm {
    pub util: F64,
}

impl Allocator for Vllm {
    open spec fn pool(&self, total_vram: u64, weights: u64, overhead: Band) -> Band {
        left_over(Datum::of_nat(total_vram as nat).times(self.util@), weights, overhead)
    }

    open spec fn label(&self) -> Seq<char> {
        "vLLM"@
    }

    open spec fn share(&self) -> Option<Datum> {
        Some(self.util@)
    }

    fn kv_pool_bytes(&self, total_vram: u64, weights: u64, overhead: Interval) -> (r: Interval) {
        let rest = F64::from_u64(total_vram).mul(self.util).sub(F64::from_u64(weights));
        Interval::band(
            rest.sub(overhead.high),
            rest.sub(overhead.best),
            rest.sub(overhead.low),
            overhead.calibrated,
        )
    }

    fn name(&self) -> (r: &str) {
        "vLLM"
    }

    fn util(&self) -> (r: Option<F64>) {
        Some(self.util)
    }
}

/// llama.cpp allocates as it goes: all of VRAM is there to be used.
#[derive(Clone, Copy, Debug)]
pub struct LlamaCpp;

impl Allocator for LlamaCpp {
    open spec fn pool(&self, total_vram: u64, weights: u64, overhead: Band) -> Band {
        left_over(Datum::of_nat(total_vram as nat), weights, overhead)
    }

    open spec fn label(&self) -> Seq<char> {
        "llama.cpp"@
    }

    open spec fn share(&self) -> Option<Datum> {
        None
    }

    fn kv_pool_bytes(&self, total_vram: u64, weights: u64, overhead: Interval) -> (r: Interval) {
        let rest = F64::from_u64(total_vram).sub(F64::from_u64(weights));
        Interval::band(
            rest.sub(overhead.high),
            rest.sub(overhead.best),
            rest.sub(overhead.low),
            overhead.calibrated,
        )
    }

    fn name(&self) -> (r: &str) {
        "llama.cpp"
    }

    fn util(&self) -> (r: Option<F64>) {
        None
    }
}

} // verus!
