//! GPUs of the local machine, from what `nvidia-smi` prints.
//!
//! The tool reports names and memory but neither bandwidth nor FLOPs, so a name is
//! mapped onto a device of the registry; a card that is not there keeps only the
//! memory that was reported.

use crate::binary64::{Datum, F64};
use crate::decimal;
use crate::registry;
use crate::sizing::{Device, Failure, Trouble};
use crate::text;
use vstd::prelude::*;

verus! {

#[derive(Debug)]
pub struct DetectedGpu {
    pub index: u32,
    pub name: String,
    pub vram_bytes: u64,
}

/// What came of running `nvidia-smi`.
pub enum Probe {
    NotFound,
    Failed,
    /// Its output: index, name and total memory in MiB, separated by commas, one GPU
    /// on each line.
    Listing(String),
}

/// A line of the listing: index, name, memory in MiB.
pub struct Row {
    pub index: nat,
    pub name: Seq<char>,
    pub mib: nat,
}

/// A number of the listing; what is not one counts as zero.
pub open spec fn number_or_zero(s: Seq<char>, max: nat) -> nat {
    match text::unsigned(text::trimmed(s), max) {
        Some(n) => n,
        None => 0,
    }
}

/// What a line says; one with fewer than three fields says nothing.
pub open spec fn row_of(line: Seq<char>) -> Option<Row> {
    let fields = text::split(line, ',');
    if fields.len() >= 3 {
        Some(
            Row {
                index: number_or_zero(fields[0], u32::MAX as nat),
                name: text::trimmed(fields[1]),
                mib: number_or_zero(fields[2], u64::MAX as nat),
            },
        )
    } else {
        None
    }
}

/// What the lines say, in their order.
pub open spec fn rows_of(lines: Seq<Seq<char>>) -> Seq<Row>
    decreases lines.len(),
{
    if lines.len() == 0 {
        Seq::empty()
    } else {
        let before = rows_of(lines.drop_last());
        match row_of(lines.last()) {
            Some(row) => before.push(row),
            None => before,
        }
    }
}

/// What a listing says.
pub open spec fn listed(listing: Seq<char>) -> Seq<Row> {
    rows_of(text::split(listing, '\n'))
}

pub open spec fn row_fits(row: Row) -> bool {
    row.mib * 1024 * 1024 <= u64::MAX
}

pub open spec fn all_fit(rows: Seq<Row>) -> bool {
    forall|i: int| 0 <= i < rows.len() ==> row_fits(#[trigger] rows[i])
}

pub open spec fn is_gpu(gpu: DetectedGpu, row: Row) -> bool {
    &&& gpu.index == row.index
    &&& gpu.name@ == row.name
    &&& gpu.vram_bytes == row.mib * 1024 * 1024
}

/// The GPUs are those of the rows, in their order.
pub open spec fn are_gpus(gpus: Seq<DetectedGpu>, rows: Seq<Row>) -> bool {
    &&& gpus.len() == rows.len()
    &&& forall|i: int| 0 <= i < gpus.len() ==> is_gpu(#[trigger] gpus[i], rows[i])
}

fn read_number(s: &str, max: u64) -> (r: u64)
    ensures
        r == number_or_zero(s@, max as nat),
        r <= max,
{
    match text::parse_unsigned(text::trim(s).as_str(), max) {
        Some(n) => n,
        None => 0,
    }
}

/// The GPUs of a listing; `None` where a memory size does not fit in 64 bits.
fn read_listing(listing: &str) -> (r: Option<Vec<DetectedGpu>>)
    ensures
        r is Some <==> all_fit(listed(listing@)),
        r matches Some(gpus) ==> are_gpus(gpus@, listed(listing@)),
{
    let lines = text::split_at_each(listing, '\n');
    let ghost all = text::views(lines@);
    let mut gpus: Vec<DetectedGpu> = Vec::new();
    let mut i: usize = 0;
    while i < lines.len()
        invariant
            i <= lines@.len(),
            all == text::views(lines@),
            all == text::split(listing@, '\n'),
            all_fit(rows_of(all.take(i as int))),
            are_gpus(gpus@, rows_of(all.take(i as int))),
        decreases lines.len() - i,
    {
        let ghost rows = rows_of(all.take(i as int));
        proof {
            assert(all.take(i + 1).drop_last() =~= all.take(i as int));
            assert(all.take(i + 1).last() == lines@[i as int]@);
        }
        let fields = text::split_at_each(lines[i].as_str(), ',');
        proof {
            let views = text::views(fields@);
            assert(views.len() == fields@.len());
            if views.len() >= 3 {
                assert(views[0] == fields@[0]@);
                assert(views[1] == fields@[1]@);
                assert(views[2] == fields@[2]@);
            }
        }
        if fields.len() >= 3 {
            let mib = read_number(fields[2].as_str(), u64::MAX);
            let index = read_number(fields[0].as_str(), u32::MAX as u64) as u32;
            let name = text::trim(fields[1].as_str());
            let ghost row = row_of(lines@[i as int]@)->0;
            proof {
                assert(rows_of(all.take(i + 1)) == rows.push(row));
            }
            if mib > u64::MAX / 1048576 {
                proof {
                    assert(rows_of(all.take(i + 1))[rows.len() as int] == row);
                    assert(!row_fits(row));
                    lemma_rows_kept(all, i + 1);
                    assert(listed(listing@)[rows.len() as int] == row);
                }
                return None;
            }
            gpus.push(DetectedGpu { index, name, vram_bytes: mib * 1024 * 1024 });
        }
        i = i + 1;
    }
    proof {
        assert(all.take(i as int) =~= all);
    }
    Some(gpus)
}

/// Later lines add rows behind the earlier ones.
proof fn lemma_rows_kept(lines: Seq<Seq<char>>, k: int)
    requires
        0 <= k <= lines.len(),
    ensures
        rows_of(lines.take(k)).len() <= rows_of(lines).len(),
        forall|i: int|
            0 <= i < rows_of(lines.take(k)).len() ==> rows_of(lines)[i] == rows_of(
                lines.take(k),
            )[i],
    decreases lines.len() - k,
{
    if k < lines.len() {
        lemma_rows_kept(lines, k + 1);
        assert(lines.take(k + 1).drop_last() =~= lines.take(k));
    } else {
        assert(lines.take(k) =~= lines);
    }
}

/// The rows of a probe.
pub open spec fn probed(probe: Probe) -> Seq<Row> {
    match probe {
        Probe::Listing(listing) => listed(listing@),
        _ => Seq::empty(),
    }
}

/// Why a probe shows no GPUs; `None` where it shows some.
pub open spec fn complaint(probe: Probe) -> Option<Trouble> {
    match probe {
        Probe::NotFound => Some(
            Trouble::Text("nvidia-smi not found (no NVIDIA GPU or driver on this machine)"@),
        ),
        Probe::Failed => Some(Trouble::Text("nvidia-smi exited with an error"@)),
        Probe::Listing(listing) => if !all_fit(listed(listing@)) {
            Some(Trouble::Overflow)
        } else if listed(listing@).len() == 0 {
            Some(Trouble::Text("nvidia-smi returned no GPUs"@))
        } else {
            None
        },
    }
}

/// The GPUs of this machine, as a probe shows them.
pub fn detect_gpus(probe: &Probe) -> (r: Result<Vec<DetectedGpu>, Failure>)
    ensures
        match r {
            Ok(gpus) => complaint(*probe) is None && are_gpus(gpus@, probed(*probe)),
            Err(f) => complaint(*probe) == Some(f@),
        },
{
    match probe {
        Probe::NotFound => Err(
            Failure::Message(
                "nvidia-smi not found (no NVIDIA GPU or driver on this machine)".to_owned(),
            ),
        ),
        Probe::Failed => Err(Failure::Message("nvidia-smi exited with an error".to_owned())),
        Probe::Listing(listing) => match read_listing(listing.as_str()) {
            None => Err(Failure::Overflow),
            Some(gpus) => if gpus.len() == 0 {
                Err(Failure::Message("nvidia-smi returned no GPUs".to_owned()))
            } else {
                Ok(gpus)
            },
        },
    }
}

/// The registry id that a name in lower case stands for; empty where it is unknown.
pub open spec fn id_of(lowered: Seq<char>, vram_bytes: u64) -> Seq<char> {
    if text::occurs_in("h200"@, lowered) {
        "h200-141gb"@
    } else if text::occurs_in("h100"@, lowered) {
        "h100-80gb"@
    } else if text::occurs_in("gb200"@, lowered) || text::occurs_in("b200"@, lowered) {
        "b200-192gb"@
    } else if text::occurs_in("a100"@, lowered) && (text::occurs_in("40"@, lowered) || vram_bytes
        < 60_000_000_000) {
        "a100-40gb"@
    } else if text::occurs_in("a100"@, lowered) {
        "a100-80gb"@
    } else if text::occurs_in("l40s"@, lowered) {
        "l40s-48gb"@
    } else if text::occurs_in("5090"@, lowered) {
        "rtx5090-32gb"@
    } else if text::occurs_in("4090"@, lowered) {
        "rtx4090-24gb"@
    } else if text::occurs_in("3090"@, lowered) {
        "rtx3090-24gb"@
    } else if text::occurs_in("mi300"@, lowered) {
        "mi300x-192gb"@
    } else {
        ""@
    }
}

fn find_id(lowered: &str, vram_bytes: u64) -> (r: &'static str)
    ensures
        r@ == id_of(lowered@, vram_bytes),
{
    if text::contains(lowered, "h200") {
        "h200-141gb"
    } else if text::contains(lowered, "h100") {
        "h100-80gb"
    } else if text::contains(lowered, "gb200") || text::contains(lowered, "b200") {
        "b200-192gb"
    } else if text::contains(lowered, "a100") && (text::contains(lowered, "40") || vram_bytes
        < 60_000_000_000) {
        "a100-40gb"
    } else if text::contains(lowered, "a100") {
        "a100-80gb"
    } else if text::contains(lowered, "l40s") {
        "l40s-48gb"
    } else if text::contains(lowered, "5090") {
        "rtx5090-32gb"
    } else if text::contains(lowered, "4090") {
        "rtx4090-24gb"
    } else if text::contains(lowered, "3090") {
        "rtx3090-24gb"
    } else if text::contains(lowered, "mi300") {
        "mi300x-192gb"
    } else {
        ""
    }
}

/// The name that a matched device gets.
pub open spec fn matched_name(lowered: Seq<char>, name: Seq<char>, vram_bytes: u64) -> Seq<char> {
    let id = id_of(lowered, vram_bytes);
    if registry::known_device(id) is Some {
        id + " (detected)"@
    } else {
        name + " (detected, specs unknown)"@
    }
}

/// `d` is what a GPU is matched to: a device of the registry, or one of which only
/// the memory is known.
pub open spec fn is_match(
    d: Device,
    lowered: Seq<char>,
    name: Seq<char>,
    vram_bytes: u64,
) -> bool {
    match registry::known_device(id_of(lowered, vram_bytes)) {
        Some(row) => registry::is_device(d, matched_name(lowered, name, vram_bytes), row),
        None => {
            &&& d.name@ == matched_name(lowered, name, vram_bytes)
            &&& d.vram_bytes == vram_bytes
            &&& d.mem_bw_bytes_s == 0
            &&& d.peak_flops@ == Datum::of_nat(0)
            &&& d.arch@ == "unknown"@
            &&& d.interconnect@ == "unknown"@
        },
    }
}

/// `match_device`, for a name whose lower-case form is at hand.
pub fn match_lowered(lowered: &str, name: &str, vram_bytes: u64) -> (r: Device)
    ensures
        is_match(r, lowered@, name@, vram_bytes),
{
    let id = find_id(lowered, vram_bytes);
    match registry::device(id) {
        Some(d) => {
            let mut full = id.to_owned();
            full.append(" (detected)");
            Device { name: full, ..d }
        },
        None => {
            let mut full = name.to_owned();
            full.append(" (detected, specs unknown)");
            Device {
                name: full,
                vram_bytes,
                mem_bw_bytes_s: 0,
                peak_flops: F64::from_u64(0),
                arch: "unknown",
                interconnect: "unknown",
            }
        },
    }
}

/// The lower-case form of a text, by the tables of Unicode.
pub uninterp spec fn lowercase(s: Seq<char>) -> Seq<char>;

/// The lower-case form of an ASCII character.
pub open spec fn ascii_lower(c: char) -> char {
    if 'A' <= c <= 'Z' {
        (c as u32 + 32) as char
    } else {
        c
    }
}

/// A text with its ASCII letters in lower case.
pub open spec fn folded(s: Seq<char>) -> Seq<char> {
    s.map_values(|c: char| ascii_lower(c))
}

/// `str::to_lowercase` depends on the text alone, and not on the case of the ASCII
/// letters in it; text of ASCII alone it maps letter by letter. What it makes of
/// other characters is left to the tables of Unicode.
#[verifier::external_body]
fn to_lowercase(s: &str) -> (r: String)
    ensures
        r@ == lowercase(s@),
        r@ == lowercase(folded(s@)),
        s.is_ascii() ==> r@ == folded(s@),
{
    s.to_lowercase()
}

/// Maps a detected name and memory size onto a device of the registry, or onto one
/// that carries only the reported memory. The case of ASCII letters does not matter.
pub fn match_device(name: &str, vram_bytes: u64) -> (r: Device)
    ensures
        is_match(r, lowercase(name@), name@, vram_bytes),
        is_match(r, lowercase(folded(name@)), name@, vram_bytes),
        name.is_ascii() ==> is_match(r, folded(name@), name@, vram_bytes),
{
    let lowered = to_lowercase(name);
    match_lowered(lowered.as_str(), name, vram_bytes)
}

pub open spec fn matched_arch(lowered: Seq<char>, vram_bytes: u64) -> Seq<char> {
    match registry::known_device(id_of(lowered, vram_bytes)) {
        Some(row) => row.arch@,
        None => "unknown"@,
    }
}

pub open spec fn matched_interconnect(lowered: Seq<char>, vram_bytes: u64) -> Seq<char> {
    match registry::known_device(id_of(lowered, vram_bytes)) {
        Some(row) => row.interconnect@,
        None => "unknown"@,
    }
}

/// A GPU, its memory in GB, and what it is matched to.
pub open spec fn gpu_line(gpu: DetectedGpu) -> Seq<char> {
    let lowered = lowercase(gpu.name@);
    "  ["@ + text::digits(gpu.index as nat) + "] "@ + gpu.name@ + "  ("@ + decimal::fixed(
        Datum::of_nat(gpu.vram_bytes as nat).over(Datum::of_nat(1_000_000_000)),
        0,
    ) + " GB)  → "@ + matched_name(lowered, gpu.name@, gpu.vram_bytes) + " · "@ + matched_arch(
        lowered,
        gpu.vram_bytes,
    ) + " · "@ + matched_interconnect(lowered, gpu.vram_bytes) + "\n"@
}

pub open spec fn gpu_lines(gpus: Seq<DetectedGpu>) -> Seq<char>
    decreases gpus.len(),
{
    if gpus.len() == 0 {
        Seq::empty()
    } else {
        gpu_lines(gpus.drop_last()) + gpu_line(gpus.last())
    }
}

/// A report on the GPUs of this machine.
pub open spec fn devices_text(gpus: Seq<DetectedGpu>) -> Seq<char> {
    "detected "@ + text::digits(gpus.len()) + " GPU(s):\n"@ + gpu_lines(gpus)
        + "\nuse:  --gpu auto   (all)   ·   --gpu auto:N   (N of them)"@
}

fn show_gpu(gpu: &DetectedGpu) -> (s: String)
    ensures
        s@ == gpu_line(*gpu),
{
    let d = match_device(gpu.name.as_str(), gpu.vram_bytes);
    let mut s = "  [".to_owned();
    s.append(text::show_u64(gpu.index as u64).as_str());
    s.append("] ");
    s.append(gpu.name.as_str());
    s.append("  (");
    s.append(
        decimal::show_fixed(
            F64::from_u64(gpu.vram_bytes).div(F64::from_u64(1_000_000_000)),
            0,
        ).as_str(),
    );
    s.append(" GB)  → ");
    s.append(d.name.as_str());
    s.append(" · ");
    s.append(d.arch);
    s.append(" · ");
    s.append(d.interconnect);
    s.append("\n");
    s
}

/// A report on the GPUs of this machine.
pub fn devices_report(gpus: &Vec<DetectedGpu>) -> (s: String)
    ensures
        s@ == devices_text(gpus@),
{
    let mut lines = String::new();
    let mut i: usize = 0;
    while i < gpus.len()
        invariant
            i <= gpus@.len(),
            lines@ == gpu_lines(gpus@.take(i as int)),
        decreases gpus.len() - i,
    {
        proof {
            assert(gpus@.take(i + 1).drop_last() =~= gpus@.take(i as int));
        }
        lines.append(show_gpu(&gpus[i]).as_str());
        i = i + 1;
    }
    proof {
        assert(gpus@.take(i as int) =~= gpus@);
    }
    let mut s = "detected ".to_owned();
    s.append(text::show_u64(gpus.len() as u64).as_str());
    s.append(" GPU(s):\n");
    s.append(lines.as_str());
    s.append("\nuse:  --gpu auto   (all)   ·   --gpu auto:N   (N of them)");
    s
}

} // verus!
