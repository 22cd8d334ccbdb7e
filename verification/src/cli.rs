//! The command line: flags, the devices that `--gpu` asks for, and the answer to a
//! command.

use crate::choice;
use crate::choice::{message, Engine};
use crate::detect;
use crate::detect::{DetectedGpu, Probe};
use crate::fit;
use crate::fit::FitReport;
use crate::registry;
use crate::render;
use crate::sizing::{
    Calibration, DeviceSet, Failure, ModelShape, Quant, QuantScheme, Trouble, Workload,
};
use crate::text;
use crate::text::same;
use vstd::prelude::*;

verus! {

/// What the flags say.
#[derive(Debug)]
pub struct Opts {
    pub model: Option<String>,
    pub gpu: String,
    pub engine: String,
    pub dtype: String,
    pub kv_bytes: u8,
    pub ctx: u32,
    pub prompt: u32,
    pub json: bool,
}

/// The texts and numbers of `Opts`.
pub struct Settings {
    pub model: Option<Seq<char>>,
    pub gpu: Seq<char>,
    pub engine: Seq<char>,
    pub dtype: Seq<char>,
    pub kv_bytes: u8,
    pub ctx: u32,
    pub prompt: u32,
    pub json: bool,
}

impl View for Opts {
    type V = Settings;

    open spec fn view(&self) -> Settings {
        Settings {
            model: match self.model {
                Some(m) => Some(m@),
                None => None,
            },
            gpu: self.gpu@,
            engine: self.engine@,
            dtype: self.dtype@,
            kv_bytes: self.kv_bytes,
            ctx: self.ctx,
            prompt: self.prompt,
            json: self.json,
        }
    }
}

impl Settings {
    /// Without any flag.
    pub open spec fn defaults() -> Settings {
        Settings {
            model: None,
            gpu: "a100-80gb:1"@,
            engine: "vllm"@,
            dtype: "fp16"@,
            kv_bytes: 2,
            ctx: 4096,
            prompt: 2048,
            json: false,
        }
    }

    /// After a flag and its value; with the complaint where the value is no good.
    pub open spec fn with_value(self, flag: Seq<char>, value: Seq<char>) -> Result<
        Settings,
        Seq<char>,
    > {
        if flag == "--gpu"@ {
            Ok(Settings { gpu: value, ..self })
        } else if flag == "--engine"@ {
            Ok(Settings { engine: value, ..self })
        } else if flag == "--dtype"@ {
            Ok(Settings { dtype: value, ..self })
        } else if flag == "--kv-cache-dtype"@ {
            match choice::known_kv_dtype(value) {
                Some(kv_bytes) => Ok(Settings { kv_bytes, ..self }),
                None => Err("unknown kv-cache-dtype "@ + value),
            }
        } else if flag == "--ctx"@ {
            match text::unsigned(value, u32::MAX as nat) {
                Some(n) => Ok(Settings { ctx: n as u32, ..self }),
                None => Err("--ctx must be an integer"@),
            }
        } else {
            match text::unsigned(value, u32::MAX as nat) {
                Some(n) => Ok(Settings { prompt: n as u32, ..self }),
                None => Err("--prompt must be an integer"@),
            }
        }
    }

    /// After an argument that takes no value; with the complaint where it is not
    /// expected.
    pub open spec fn with_word(self, word: Seq<char>) -> Result<Settings, Seq<char>> {
        if word == "--json"@ {
            Ok(Settings { json: true, ..self })
        } else if text::starts_with(word, "--"@) {
            Err("unknown flag "@ + word)
        } else if self.model is None {
            Ok(Settings { model: Some(word), ..self })
        } else {
            Err("unexpected argument "@ + word)
        }
    }
}

/// The flags that take a value.
pub open spec fn takes_value(flag: Seq<char>) -> bool {
    ||| flag == "--gpu"@
    ||| flag == "--engine"@
    ||| flag == "--dtype"@
    ||| flag == "--kv-cache-dtype"@
    ||| flag == "--ctx"@
    ||| flag == "--prompt"@
}

/// What the arguments from the `i`-th on make of the settings so far, or the
/// complaint about the first of them that is no good.
pub open spec fn parsed(args: Seq<Seq<char>>, i: int, so_far: Settings) -> Result<
    Settings,
    Seq<char>,
>
    decreases args.len() - i,
{
    if i >= args.len() {
        Ok(so_far)
    } else if takes_value(args[i]) {
        if i + 1 >= args.len() {
            Err("missing value for "@ + args[i])
        } else {
            match so_far.with_value(args[i], args[i + 1]) {
                Ok(next) => parsed(args, i + 2, next),
                Err(complaint) => Err(complaint),
            }
        }
    } else {
        match so_far.with_word(args[i]) {
            Ok(next) => parsed(args, i + 1, next),
            Err(complaint) => Err(complaint),
        }
    }
}

/// The value of a flag: the `i`-th argument.
pub fn req(args: &[String], i: usize, flag: &str) -> (r: Result<String, String>)
    ensures
        match r {
            Ok(v) => i < args@.len() && v@ == args@[i as int]@,
            Err(m) => i >= args@.len() && m@ == "missing value for "@ + flag@,
        },
{
    if i < args.len() {
        Ok(args[i].clone())
    } else {
        Err(message("missing value for ", flag))
    }
}

fn wants_value(flag: &str) -> (r: bool)
    ensures
        r == takes_value(flag@),
{
    same(flag, "--gpu") || same(flag, "--engine") || same(flag, "--dtype") || same(
        flag,
        "--kv-cache-dtype",
    ) || same(flag, "--ctx") || same(flag, "--prompt")
}

fn set_value(o: &mut Opts, flag: &str, value: String) -> (r: Result<(), String>)
    ensures
        match r {
            Ok(()) => old(o)@.with_value(flag@, value@) == Ok::<Settings, Seq<char>>(final(o)@),
            Err(m) => old(o)@.with_value(flag@, value@) == Err::<Settings, Seq<char>>(m@),
        },
{
    if same(flag, "--gpu") {
        o.gpu = value;
    } else if same(flag, "--engine") {
        o.engine = value;
    } else if same(flag, "--dtype") {
        o.dtype = value;
    } else if same(flag, "--kv-cache-dtype") {
        match choice::find_kv_dtype(value.as_str()) {
            Some(b) => {
                o.kv_bytes = b;
            },
            None => {
                return Err(message("unknown kv-cache-dtype ", value.as_str()));
            },
        }
    } else if same(flag, "--ctx") {
        match text::parse_unsigned(value.as_str(), u32::MAX as u64) {
            Some(n) => {
                o.ctx = n as u32;
            },
            None => {
                return Err("--ctx must be an integer".to_owned());
            },
        }
    } else {
        match text::parse_unsigned(value.as_str(), u32::MAX as u64) {
            Some(n) => {
                o.prompt = n as u32;
            },
            None => {
                return Err("--prompt must be an integer".to_owned());
            },
        }
    }
    Ok(())
}

fn set_word(o: &mut Opts, word: &str) -> (r: Result<(), String>)
    ensures
        match r {
            Ok(()) => old(o)@.with_word(word@) == Ok::<Settings, Seq<char>>(final(o)@),
            Err(m) => old(o)@.with_word(word@) == Err::<Settings, Seq<char>>(m@),
        },
{
    if same(word, "--json") {
        o.json = true;
    } else if text::has_prefix(word, "--") {
        return Err(message("unknown flag ", word));
    } else if o.model.is_none() {
        o.model = Some(word.to_owned());
    } else {
        return Err(message("unexpected argument ", word));
    }
    Ok(())
}

/// Reads the arguments of a command.
pub fn parse(args: &[String]) -> (r: Result<Opts, String>)
    ensures
        match r {
            Ok(o) => parsed(text::views(args@), 0, Settings::defaults()) == Ok::<
                Settings,
                Seq<char>,
            >(o@),
            Err(m) => parsed(text::views(args@), 0, Settings::defaults()) == Err::<
                Settings,
                Seq<char>,
            >(m@),
        },
{
    let mut o = Opts {
        model: None,
        gpu: "a100-80gb:1".to_owned(),
        engine: "vllm".to_owned(),
        dtype: "fp16".to_owned(),
        kv_bytes: 2,
        ctx: 4096,
        prompt: 2048,
        json: false,
    };
    let ghost all = text::views(args@);
    let mut i: usize = 0;
    while i < args.len()
        invariant
            i <= args@.len(),
            all == text::views(args@),
            parsed(all, 0, Settings::defaults()) == parsed(all, i as int, o@),
        decreases args.len() - i,
    {
        let flag = args[i].as_str();
        proof {
            assert(all[i as int] == flag@);
        }
        if wants_value(flag) {
            match req(args, i + 1, flag) {
                Err(m) => {
                    return Err(m);
                },
                Ok(value) => {
                    proof {
                        assert(all[i + 1] == value@);
                    }
                    match set_value(&mut o, flag, value) {
                        Err(m) => {
                            return Err(m);
                        },
                        Ok(()) => {},
                    }
                },
            }
            i = i + 2;
        } else {
            match set_word(&mut o, flag) {
                Err(m) => {
                    return Err(m);
                },
                Ok(()) => {},
            }
            i = i + 1;
        }
    }
    Ok(o)
}

/// What `--gpu` asks for.
pub enum GpuRequest {
    /// The GPUs of this machine: all of them, or so many.
    Auto(Option<u32>),
    /// So many of a device of the registry.
    Named(String, u32),
}

/// `GpuRequest`, as texts and numbers.
pub enum Wish {
    Auto(Option<u32>),
    Named(Seq<char>, u32),
}

impl View for GpuRequest {
    type V = Wish;

    open spec fn view(&self) -> Wish {
        match self {
            GpuRequest::Auto(n) => Wish::Auto(*n),
            GpuRequest::Named(id, n) => Wish::Named(id@, *n),
        }
    }
}

/// `auto`, `auto:N`, `id` or `id:N`.
pub open spec fn wish(gpu: Seq<char>) -> Result<Wish, Seq<char>> {
    if text::starts_with(gpu, "auto"@) {
        let rest = gpu.skip(4);
        if rest.len() == 0 {
            Ok(Wish::Auto(None))
        } else if rest[0] == ':' {
            match text::unsigned(rest.skip(1), u32::MAX as nat) {
                Some(n) => Ok(Wish::Auto(Some(n as u32))),
                None => Err("--gpu auto:N count must be an integer"@),
            }
        } else {
            Err("bad --gpu value (expected auto or auto:N)"@)
        }
    } else {
        let colon = text::first(gpu, ':');
        if colon >= gpu.len() {
            Ok(Wish::Named(gpu, 1))
        } else {
            match text::unsigned(gpu.skip(colon + 1), u32::MAX as nat) {
                Some(n) => Ok(Wish::Named(gpu.take(colon), n as u32)),
                None => Err("--gpu count must be an integer"@),
            }
        }
    }
}

/// Reads the value of `--gpu`.
pub fn gpu_request(gpu: &str) -> (r: Result<GpuRequest, String>)
    ensures
        match r {
            Ok(q) => wish(gpu@) == Ok::<Wish, Seq<char>>(q@),
            Err(m) => wish(gpu@) == Err::<Wish, Seq<char>>(m@),
        },
{
    let len: usize = gpu.unicode_len();
    proof {
        reveal_strlit("auto");
    }
    if text::has_prefix(gpu, "auto") {
        if len == 4 {
            return Ok(GpuRequest::Auto(None));
        }
        proof {
            assert(gpu@.skip(4)[0] == gpu@[4]);
            assert(gpu@.skip(4).skip(1) =~= gpu@.subrange(5, len as int));
        }
        if gpu.get_char(4) == ':' {
            match text::parse_unsigned(gpu.substring_char(5, len), u32::MAX as u64) {
                Some(n) => Ok(GpuRequest::Auto(Some(n as u32))),
                None => Err("--gpu auto:N count must be an integer".to_owned()),
            }
        } else {
            Err("bad --gpu value (expected auto or auto:N)".to_owned())
        }
    } else {
        let colon = text::find(gpu, ':');
        if colon == len {
            Ok(GpuRequest::Named(gpu.to_owned(), 1))
        } else {
            proof {
                assert(gpu@.skip(colon + 1) =~= gpu@.subrange(colon + 1, len as int));
                assert(gpu@.take(colon as int) =~= gpu@.subrange(0, colon as int));
            }
            match text::parse_unsigned(gpu.substring_char(colon + 1, len), u32::MAX as u64) {
                Some(n) => Ok(
                    GpuRequest::Named(gpu.substring_char(0, colon).to_owned(), n as u32),
                ),
                None => Err("--gpu count must be an integer".to_owned()),
            }
        }
    }
}

/// How many GPUs there are to choose from. Counts have 32 bits.
pub open spec fn available(probe: Probe) -> int {
    detect::probed(probe).len() as int % 0x1_0000_0000
}

/// So many as are wanted, but at least one and no more than there are.
pub open spec fn granted(want: Option<u32>, available: int) -> int {
    match want {
        Some(n) => if n < 1 {
            1
        } else if n > available {
            available
        } else {
            n as int
        },
        None => available,
    }
}

/// Why a wish for devices cannot be met.
pub open spec fn hw_trouble(wish: Wish, probe: Probe) -> Option<Trouble> {
    match wish {
        Wish::Named(id, _) => if registry::known_device(id) is Some {
            None
        } else {
            Some(
                Trouble::Text(
                    "unknown gpu: "@ + id + " (try `ridgepoint devices`, or --gpu auto)"@,
                ),
            )
        },
        Wish::Auto(_) => match detect::complaint(probe) {
            Some(Trouble::Text(m)) => Some(
                Trouble::Text(
                    "--gpu auto: "@ + m
                        + ". Pass --gpu <id>:N instead (see `ridgepoint devices`)."@,
                ),
            ),
            Some(Trouble::Overflow) => Some(Trouble::Overflow),
            None => if available(probe) == 0 {
                Some(Trouble::Overflow)
            } else {
                None
            },
        },
    }
}

/// `hw` meets the wish: the named device, or the match of the first GPU.
pub open spec fn is_hw(hw: DeviceSet, wish: Wish, probe: Probe) -> bool {
    match wish {
        Wish::Named(id, n) => {
            &&& hw.count == n
            &&& registry::is_device(hw.device, id, registry::known_device(id)->0)
        },
        Wish::Auto(want) => {
            let first = detect::probed(probe)[0];
            &&& hw.count == granted(want, available(probe))
            &&& detect::is_match(
                hw.device,
                detect::lowercase(first.name),
                first.name,
                (first.mib * 1024 * 1024) as u64,
            )
        },
    }
}

/// The devices that `--gpu` asks for. Only `auto` looks at the probe.
pub fn resolve_hw(request: &GpuRequest, probe: &Probe) -> (r: Result<DeviceSet, Failure>)
    ensures
        match r {
            Ok(hw) => hw_trouble(request@, *probe) is None && is_hw(hw, request@, *probe),
            Err(f) => hw_trouble(request@, *probe) == Some(f@),
        },
{
    match request {
        GpuRequest::Named(id, n) => match registry::device(id.as_str()) {
            Some(device) => Ok(DeviceSet { device, count: *n }),
            None => {
                let mut m = message("unknown gpu: ", id.as_str());
                m.append(" (try `ridgepoint devices`, or --gpu auto)");
                Err(Failure::Message(m))
            },
        },
        GpuRequest::Auto(want) => match detect::detect_gpus(probe) {
            Err(Failure::Message(e)) => {
                let mut m = message("--gpu auto: ", e.as_str());
                m.append(". Pass --gpu <id>:N instead (see `ridgepoint devices`).");
                Err(Failure::Message(m))
            },
            Err(Failure::Overflow) => Err(Failure::Overflow),
            Ok(gpus) => {
                let there: u32 = (gpus.len() as u64 % 0x1_0000_0000) as u32;
                if there == 0 {
                    return Err(Failure::Overflow);
                }
                let count: u32 = match *want {
                    Some(n) => if n < 1 {
                        1
                    } else if n > there {
                        there
                    } else {
                        n
                    },
                    None => there,
                };
                let device = detect::match_device(gpus[0].name.as_str(), gpus[0].vram_bytes);
                Ok(DeviceSet { device, count })
            },
        },
    }
}

/// What a command is about.
pub struct Job {
    pub model: ModelShape,
    pub hw: DeviceSet,
    pub quant: Quant,
    pub engine: Engine,
}

/// What is wrong with the model of the settings.
pub open spec fn model_trouble(o: Settings) -> Option<Trouble> {
    match o.model {
        None => Some(Trouble::Text("missing <model>"@)),
        Some(id) => if registry::known_model(id) is Some {
            None
        } else {
            Some(Trouble::Text("unknown model: "@ + id))
        },
    }
}

/// What is wrong with the devices of the settings.
pub open spec fn gpu_trouble(o: Settings, probe: Probe) -> Option<Trouble> {
    match wish(o.gpu) {
        Err(m) => Some(Trouble::Text(m)),
        Ok(w) => hw_trouble(w, probe),
    }
}

/// The first thing that is wrong with the settings.
pub open spec fn trouble(o: Settings, probe: Probe) -> Option<Trouble> {
    if model_trouble(o) is Some {
        model_trouble(o)
    } else if gpu_trouble(o, probe) is Some {
        gpu_trouble(o, probe)
    } else if registry::known_quant(o.dtype) is None {
        Some(Trouble::Text("unknown dtype: "@ + o.dtype))
    } else if choice::known_engine(o.engine) is None {
        Some(Trouble::Text("unknown engine: "@ + o.engine))
    } else {
        None
    }
}

/// The job is what the settings ask for.
pub open spec fn is_job(job: Job, o: Settings, probe: Probe) -> bool {
    &&& registry::is_model(job.model, o.model->0, registry::known_model(o.model->0)->0)
    &&& is_hw(job.hw, wish(o.gpu)->Ok_0, probe)
    &&& registry::known_quant(o.dtype) == Some(
        (job.quant.name@, job.quant.bytes_per_weight@),
    )
    &&& choice::is_engine(job.engine, choice::known_engine(o.engine)->0)
}

/// The model of the settings.
fn pick_model(o: &Opts) -> (r: Result<ModelShape, Failure>)
    ensures
        match r {
            Ok(m) => model_trouble(o@) is None && registry::is_model(
                m,
                o@.model->0,
                registry::known_model(o@.model->0)->0,
            ),
            Err(f) => model_trouble(o@) == Some(f@),
        },
{
    match &o.model {
        None => Err(Failure::Message("missing <model>".to_owned())),
        Some(id) => match registry::model(id.as_str()) {
            Some(m) => Ok(m),
            None => Err(Failure::Message(message("unknown model: ", id.as_str()))),
        },
    }
}

/// Whether the answer depends on the GPUs of this machine.
pub fn needs_probe(o: &Opts) -> (r: bool)
    ensures
        r == (model_trouble(o@) is None && wish(o@.gpu) is Ok && wish(o@.gpu)->Ok_0 is Auto),
        !r ==> forall|a: Probe, b: Probe| #[trigger] trouble(o@, a) == #[trigger] trouble(o@, b),
{
    match pick_model(o) {
        Err(_) => false,
        Ok(_) => match gpu_request(o.gpu.as_str()) {
            Ok(GpuRequest::Auto(_)) => true,
            _ => false,
        },
    }
}

/// What the settings ask for, with the GPUs that a probe shows.
pub fn build(o: &Opts, probe: &Probe) -> (r: Result<Job, Failure>)
    ensures
        match r {
            Ok(job) => trouble(o@, *probe) is None && is_job(job, o@, *probe),
            Err(f) => trouble(o@, *probe) == Some(f@),
        },
{
    let model = match pick_model(o) {
        Ok(m) => m,
        Err(f) => {
            return Err(f);
        },
    };
    let request = match gpu_request(o.gpu.as_str()) {
        Ok(q) => q,
        Err(m) => {
            return Err(Failure::Message(m));
        },
    };
    let hw = match resolve_hw(&request, probe) {
        Ok(hw) => hw,
        Err(f) => {
            return Err(f);
        },
    };
    let quant = match registry::find_quant(o.dtype.as_str()) {
        Some(q) => q,
        None => {
            return Err(Failure::Message(message("unknown dtype: ", o.dtype.as_str())));
        },
    };
    let engine = match choice::alloc_of(o.engine.as_str()) {
        Ok(e) => e,
        Err(m) => {
            return Err(Failure::Message(m));
        },
    };
    Ok(Job { model, hw, quant, engine })
}

/// The operating point of the settings.
pub open spec fn point(o: Settings) -> Workload {
    fit::at_context(o.ctx, o.prompt, o.kv_bytes)
}

/// What `fit` prints of a report.
pub open spec fn printed(report: FitReport, json: bool) -> Seq<char> {
    if json {
        render::json_text(report) + "\n"@
    } else {
        render::human_text(report)
    }
}

/// `shown` is what `fit` prints: a report on the job, with rough calibration.
pub open spec fn prints_fit(shown: Seq<char>, o: Settings, job: Job) -> bool {
    exists|c: Calibration, report: FitReport|
        c.is_uncalibrated() && #[trigger] fit::reports(
            report,
            job.model,
            job.hw,
            &job.quant,
            &job.engine,
            point(o),
            c,
        ) && shown == printed(report, o.json)
}

/// What `fit` prints; `None` where a byte count does not fit in 64 bits.
pub fn cmd_fit(o: &Opts, job: &Job) -> (r: Option<String>)
    ensures
        r is Some <==> fit::in_range(
            job.model,
            job.hw,
            job.quant.weight(),
            &job.engine,
            point(o@),
            Calibration::rough_overhead(),
        ),
        r matches Some(t) ==> prints_fit(t@, o@, *job),
{
    let w = Workload {
        ctx: o.ctx,
        prompt_tokens: o.prompt,
        concurrency: None,
        kv_bytes: o.kv_bytes,
    };
    let c = Calibration::uncalibrated();
    let report = fit::checked_fit(&job.model, &job.hw, &job.quant, &job.engine, &w, &c)?;
    if o.json {
        let mut s = render::json(&report);
        s.append("\n");
        Some(s)
    } else {
        Some(render::human(&report))
    }
}

/// What `scan` prints of its reports.
pub open spec fn printed_scan(list: Seq<FitReport>, json: bool) -> Seq<char> {
    if json {
        "["@ + text::joined(render::json_texts(list), ", "@) + "]"@ + "\n"@
    } else {
        text::joined(render::human_texts(list), "\n"@)
    }
}

/// `shown` is what `scan` prints: the reports on the job, with rough calibration.
pub open spec fn prints_scan(shown: Seq<char>, o: Settings, job: Job) -> bool {
    exists|c: Calibration, list: Seq<FitReport>|
        c.is_uncalibrated() && #[trigger] fit::sweeps(
            list,
            job.model,
            job.hw,
            &job.quant,
            &job.engine,
            o.prompt,
            o.kv_bytes,
            fit::scanned(),
            c,
        ) && shown == printed_scan(list, o.json)
}

/// What `scan` prints; `None` where a byte count does not fit in 64 bits. The
/// context lengths are its own, `--ctx` is ignored.
pub fn cmd_scan(o: &Opts, job: &Job) -> (r: Option<String>)
    ensures
        r is Some <==> forall|i: int|
            0 <= i < fit::scanned().len() ==> fit::in_range(
                job.model,
                job.hw,
                job.quant.weight(),
                &job.engine,
                fit::at_context(#[trigger] fit::scanned()[i], o.prompt, o.kv_bytes),
                Calibration::rough_overhead(),
            ),
        r matches Some(t) ==> prints_scan(t@, o@, *job),
{
    let c = Calibration::uncalibrated();
    let ctxs = fit::scan_contexts();
    let list = fit::checked_scan(
        &job.model,
        &job.hw,
        &job.quant,
        &job.engine,
        o.prompt,
        o.kv_bytes,
        ctxs.as_slice(),
        &c,
    )?;
    assert(fit::sweeps(
        list@,
        job.model,
        job.hw,
        &job.quant,
        &job.engine,
        o@.prompt,
        o@.kv_bytes,
        fit::scanned(),
        c,
    ));
    if o.json {
        let mut s = render::scan_json(&list);
        s.append("\n");
        Some(s)
    } else {
        Some(render::scan_human(&list))
    }
}

/// What `devices` prints, or why there is nothing to print.
pub fn cmd_devices(probe: &Probe) -> (r: Result<String, Failure>)
    ensures
        match r {
            Ok(t) => detect::complaint(*probe) is None && exists|gpus: Seq<DetectedGpu>| #[trigger]
                detect::are_gpus(gpus, detect::probed(*probe)) && t@ == detect::devices_text(gpus)
                    + "\n"@,
            Err(Failure::Message(m)) => detect::complaint(*probe) matches Some(Trouble::Text(why))
                && m@ == "no GPUs detected: "@ + why,
            Err(Failure::Overflow) => detect::complaint(*probe) == Some(Trouble::Overflow),
        },
{
    match detect::detect_gpus(probe) {
        Ok(gpus) => {
            let mut s = detect::devices_report(&gpus);
            s.append("\n");
            Ok(s)
        },
        Err(Failure::Message(e)) => Err(
            Failure::Message(message("no GPUs detected: ", e.as_str())),
        ),
        Err(Failure::Overflow) => Err(Failure::Overflow),
    }
}

} // verus!
