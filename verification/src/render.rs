//! A report as text: a dashboard for people, and JSON.

use crate::binary64::{Datum, F64};
use crate::decimal;
use crate::fit;
use crate::fit::FitReport;
use crate::sizing::{Band, Interval};
use crate::text;
use vstd::prelude::*;

verus! {

/// Bytes in GiB, to one digit behind the point.
pub open spec fn gibibytes(bytes: Datum) -> Seq<char> {
    decimal::fixed(bytes.over(Datum::of_nat(1_073_741_824)), 1)
}

fn gib(bytes: F64) -> (r: String)
    ensures
        r@ == gibibytes(bytes@),
{
    decimal::show_fixed(bytes.div(F64::from_u64(1_073_741_824)), 1)
}

fn gib_of(bytes: u64) -> (r: String)
    ensures
        r@ == gibibytes(Datum::of_nat(bytes as nat)),
{
    gib(F64::from_u64(bytes))
}

/// Low, best and high of a memory interval, in GiB.
pub open spec fn memory_band(i: Band) -> Seq<char> {
    if i.exact {
        text::right_aligned(gibibytes(i.best), 6) + " GiB  exact"@
    } else {
        text::right_aligned(gibibytes(i.low), 6) + " ·"@ + text::right_aligned(
            gibibytes(i.best),
            6,
        ) + " ·"@ + text::right_aligned(gibibytes(i.high), 6) + " GiB"@ + if i.calibrated {
            ""@
        } else {
            "  ~est"@
        }
    }
}

fn mem_band(i: &Interval) -> (r: String)
    ensures
        r@ == memory_band(i@),
{
    if i.exact {
        let mut s = text::align_right(gib(i.best).as_str(), 6);
        s.append(" GiB  exact");
        s
    } else {
        let mut s = text::align_right(gib(i.low).as_str(), 6);
        s.append(" ·");
        s.append(text::align_right(gib(i.best).as_str(), 6).as_str());
        s.append(" ·");
        s.append(text::align_right(gib(i.high).as_str(), 6).as_str());
        s.append(" GiB");
        s.append(
            if i.calibrated {
                ""
            } else {
                "  ~est"
            },
        );
        s
    }
}

/// The length of the longest line.
pub open spec fn widest(lines: Seq<Seq<char>>) -> nat
    decreases lines.len(),
{
    if lines.len() == 0 {
        0
    } else if lines.last().len() > widest(lines.drop_last()) {
        lines.last().len()
    } else {
        widest(lines.drop_last())
    }
}

/// One line of a box, between its sides.
pub open spec fn boxed_line(line: Seq<char>, width: nat) -> Seq<char> {
    "│ "@ + text::left_aligned(line, width) + " │\n"@
}

pub open spec fn boxed_lines(lines: Seq<Seq<char>>, width: nat) -> Seq<char>
    decreases lines.len(),
{
    if lines.len() == 0 {
        Seq::empty()
    } else {
        boxed_lines(lines.drop_last(), width) + boxed_line(lines.last(), width)
    }
}

/// Lines in a box that is as wide as the longest of them.
pub open spec fn boxed_text(lines: Seq<Seq<char>>) -> Seq<char> {
    let bar = text::repeated('─', widest(lines) + 2);
    "╭"@ + bar + "╮\n"@ + boxed_lines(lines, widest(lines)) + "╰"@ + bar + "╯\n"@
}

fn find_widest(lines: &[String]) -> (r: usize)
    ensures
        r == widest(text::views(lines@)),
{
    let mut w: usize = 0;
    let mut i: usize = 0;
    let ghost all = text::views(lines@);
    while i < lines.len()
        invariant
            i <= lines@.len(),
            all == text::views(lines@),
            w == widest(all.take(i as int)),
        decreases lines.len() - i,
    {
        proof {
            assert(all.take(i + 1).drop_last() =~= all.take(i as int));
            assert(all.take(i + 1).last() == lines@[i as int]@);
        }
        let len = lines[i].as_str().unicode_len();
        if len > w {
            w = len;
        }
        i = i + 1;
    }
    proof {
        assert(all.take(i as int) =~= all);
    }
    w
}

fn push_bar(s: &mut String, width: usize)
    ensures
        final(s)@ == old(s)@ + text::repeated('─', width as nat + 2),
{
    text::push_repeated(s, '─', width);
    text::push_repeated(s, '─', 2);
    proof {
        assert(s@ =~= old(s)@ + text::repeated('─', width as nat + 2));
    }
}

/// Draws a box around lines.
pub fn boxed(lines: &[String]) -> (r: String)
    ensures
        r@ == boxed_text(text::views(lines@)),
{
    let w = find_widest(lines);
    let ghost all = text::views(lines@);
    let mut out = "╭".to_owned();
    push_bar(&mut out, w);
    out.append("╮\n");
    let mut rows = String::new();
    let mut i: usize = 0;
    while i < lines.len()
        invariant
            i <= lines@.len(),
            all == text::views(lines@),
            rows@ == boxed_lines(all.take(i as int), w as nat),
        decreases lines.len() - i,
    {
        proof {
            assert(all.take(i + 1).drop_last() =~= all.take(i as int));
            assert(all.take(i + 1).last() == lines@[i as int]@);
        }
        let mut row = "│ ".to_owned();
        row.append(text::align_left(lines[i].as_str(), w).as_str());
        row.append(" │\n");
        rows.append(row.as_str());
        i = i + 1;
    }
    proof {
        assert(all.take(i as int) =~= all);
    }
    out.append(rows.as_str());
    out.append("╰");
    push_bar(&mut out, w);
    out.append("╯\n");
    out
}

/// The second line of the header: model, kind, parameters, quantisation.
pub open spec fn model_line(r: FitReport) -> Seq<char> {
    r.model.id@ + " · "@ + r.model.kv_kind@ + " · "@ + decimal::fixed(
        Datum::of_nat(r.model.n_params as nat).over(Datum::of_nat(1_000_000_000)),
        1,
    ) + "B"@ + " · "@ + r.quant_name@
}

/// The third line of the header: devices, engine, KV dtype.
pub open spec fn engine_line(r: FitReport) -> Seq<char> {
    text::digits(r.hw.count as nat) + "× "@ + r.hw.device.name@ + " · "@ + r.engine_name@
        + match r.util {
        Some(u) => " "@ + decimal::fixed(u@, 2),
        None => ""@,
    } + " · KV "@ + if r.kv_bytes == 1 {
        "fp8"@
    } else {
        "fp16"@
    }
}

pub open spec fn header_text(r: FitReport) -> Seq<char> {
    boxed_text(seq!["ridgepoint fit"@, model_line(r), engine_line(r)]) + "\n"@
}

fn header(r: &FitReport) -> (s: String)
    ensures
        s@ == header_text(*r),
{
    let mut model = r.model.id.clone();
    model.append(" · ");
    model.append(r.model.kv_kind);
    model.append(" · ");
    model.append(
        decimal::show_fixed(
            F64::from_u64(r.model.n_params).div(F64::from_u64(1_000_000_000)),
            1,
        ).as_str(),
    );
    model.append("B");
    model.append(" · ");
    model.append(r.quant_name.as_str());

    let mut engine = text::show_u64(r.hw.count as u64);
    engine.append("× ");
    engine.append(r.hw.device.name.as_str());
    engine.append(" · ");
    engine.append(r.engine_name.as_str());
    let mut util = "".to_owned();
    if let Some(u) = r.util {
        util = " ".to_owned();
        util.append(decimal::show_fixed(u, 2).as_str());
    }
    engine.append(util.as_str());
    engine.append(" · KV ");
    engine.append(
        if r.kv_bytes == 1 {
            "fp8"
        } else {
            "fp16"
        },
    );

    let mut lines: Vec<String> = Vec::new();
    lines.push("ridgepoint fit".to_owned());
    lines.push(model);
    lines.push(engine);
    proof {
        assert(text::views(lines@) =~= seq!["ridgepoint fit"@, model_line(*r), engine_line(*r)]);
    }
    let mut s = boxed(lines.as_slice());
    s.append("\n");
    s
}

pub open spec fn verdict_text(r: FitReport) -> Seq<char> {
    if r.serves {
        "  ✓  SERVES        ~"@ + text::integer(r.max_seqs.1 as int) + " seqs @ "@ + text::digits(
            r.ctx as nat,
        ) + " ctx (best)\n"@ + "\n"@
    } else {
        "  ✗  WON'T SERVE\n"@ + "     KV pool ≈ "@ + gibibytes(r.kv_pool.best@)
            + " GiB after the engine's grab\n"@ + if r.naive_would_say {
            "     a naive weights<VRAM check says \"fits\" ("@ + gibibytes(
                Datum::of_nat(r.weights as nat),
            ) + "<"@ + gibibytes(Datum::of_nat(r.total_vram as nat)) + ") — wrong\n"@
        } else {
            ""@
        } + "\n"@
    }
}

fn verdict(r: &FitReport) -> (s: String)
    ensures
        s@ == verdict_text(*r),
{
    if r.serves {
        let mut s = "  ✓  SERVES        ~".to_owned();
        s.append(text::show_i64(r.max_seqs.1).as_str());
        s.append(" seqs @ ");
        s.append(text::show_u64(r.ctx as u64).as_str());
        s.append(" ctx (best)\n");
        s.append("\n");
        s
    } else {
        let mut s = "  ✗  WON'T SERVE\n".to_owned();
        s.append("     KV pool ≈ ");
        s.append(gib(r.kv_pool.best).as_str());
        s.append(" GiB after the engine's grab\n");
        let mut naive = "".to_owned();
        if r.naive_would_say {
            naive = "     a naive weights<VRAM check says \"fits\" (".to_owned();
            naive.append(gib_of(r.weights).as_str());
            naive.append("<");
            naive.append(gib_of(r.total_vram).as_str());
            naive.append(") — wrong\n");
        }
        s.append(naive.as_str());
        s.append("\n");
        s
    }
}

pub open spec fn memory_text(r: FitReport) -> Seq<char> {
    "  MEMORY                low     best    high\n"@ + "    weights  "@ + text::left_aligned(
        r.quant_name@,
        7,
    ) + memory_band(Band::point(Datum::of_nat(r.weights as nat))) + "\n"@ + "    overhead        "@
        + memory_band(r.overhead@) + "\n"@ + "    KV pool         "@ + memory_band(r.kv_pool@)
        + "   ←\n"@ + "\n"@
}

fn memory(r: &FitReport) -> (s: String)
    ensures
        s@ == memory_text(*r),
{
    let mut s = "  MEMORY                low     best    high\n".to_owned();
    s.append("    weights  ");
    s.append(text::align_left(r.quant_name.as_str(), 7).as_str());
    s.append(mem_band(&Interval::exact(F64::from_u64(r.weights))).as_str());
    s.append("\n");
    s.append("    overhead        ");
    s.append(mem_band(&r.overhead).as_str());
    s.append("\n");
    s.append("    KV pool         ");
    s.append(mem_band(&r.kv_pool).as_str());
    s.append("   ←\n");
    s.append("\n");
    s
}

/// Low, best and high with so many digits behind the point.
pub open spec fn three(i: Band, places: nat) -> Seq<char> {
    text::right_aligned(decimal::fixed(i.low, places), 5) + " ·"@ + text::right_aligned(
        decimal::fixed(i.best, places),
        5,
    ) + " ·"@ + text::right_aligned(decimal::fixed(i.high, places), 5)
}

fn show_three(i: &Interval, places: u32) -> (s: String)
    ensures
        s@ == three(i@, places as nat),
{
    let mut s = text::align_right(decimal::show_fixed(i.low, places).as_str(), 5);
    s.append(" ·");
    s.append(text::align_right(decimal::show_fixed(i.best, places).as_str(), 5).as_str());
    s.append(" ·");
    s.append(text::align_right(decimal::show_fixed(i.high, places).as_str(), 5).as_str());
    s
}

/// Speed: all of it follows the roofline, and only the rate of decode can rest on a
/// measured efficiency.
pub open spec fn speed_text(r: FitReport) -> Seq<char> {
    "  SPEED  "@ + if r.calibrated {
        "roofline"@
    } else {
        "roofline · uncalibrated"@
    } + "\n"@ + "    TTFT @prompt      "@ + three(r.ttft@, 2) + " s\n"@ + "    decode/req       "@
        + three(r.decode@, 0) + " tok/s"@ + if r.decode.calibrated {
        "  MBU calibrated"@
    } else {
        ""@
    } + "\n"@ + "    regime   memory-bound · ridge ≈ batch "@ + decimal::fixed(r.ridge_batch@, 0)
        + "\n"@ + "\n"@
}

fn speed(r: &FitReport) -> (s: String)
    ensures
        s@ == speed_text(*r),
{
    let mut s = "  SPEED  ".to_owned();
    s.append(
        if r.calibrated {
            "roofline"
        } else {
            "roofline · uncalibrated"
        },
    );
    s.append("\n");
    s.append("    TTFT @prompt      ");
    s.append(show_three(&r.ttft, 2).as_str());
    s.append(" s\n");
    s.append("    decode/req       ");
    s.append(show_three(&r.decode, 0).as_str());
    s.append(" tok/s");
    s.append(
        if r.decode.calibrated {
            "  MBU calibrated"
        } else {
            ""
        },
    );
    s.append("\n");
    s.append("    regime   memory-bound · ridge ≈ batch ");
    s.append(decimal::show_fixed(r.ridge_batch, 0).as_str());
    s.append("\n");
    s.append("\n");
    s
}

pub open spec fn capacity_text(r: FitReport) -> Seq<char> {
    "  CAPACITY @"@ + text::digits(r.ctx as nat) + "       "@ + text::integer(r.max_seqs.1 as int)
        + " seqs · "@ + gibibytes(Datum::of_nat(r.bytes_per_seq as nat)) + " GiB/seq\n"@
}

fn capacity(r: &FitReport) -> (s: String)
    ensures
        s@ == capacity_text(*r),
{
    let mut s = "  CAPACITY @".to_owned();
    s.append(text::show_u64(r.ctx as u64).as_str());
    s.append("       ");
    s.append(text::show_i64(r.max_seqs.1).as_str());
    s.append(" seqs · ");
    s.append(gib_of(r.bytes_per_seq).as_str());
    s.append(" GiB/seq\n");
    s
}

/// The recommendations, the first one behind the title and the others below it.
pub open spec fn fix_lines(list: Seq<(Seq<char>, Seq<char>)>) -> Seq<char>
    decreases list.len(),
{
    if list.len() == 0 {
        Seq::empty()
    } else {
        fix_lines(list.drop_last()) + if list.len() == 1 {
            "  "@
        } else {
            "       "@
        } + list.last().0 + " → "@ + list.last().1 + "\n"@
    }
}

pub open spec fn fix_text(r: FitReport) -> Seq<char> {
    if r.recommendations@.len() == 0 {
        ""@
    } else {
        "\n"@ + "  FIX"@ + fix_lines(fit::texts(r.recommendations@))
    }
}

fn fixes(r: &FitReport) -> (s: String)
    ensures
        s@ == fix_text(*r),
{
    if r.recommendations.len() == 0 {
        return "".to_owned();
    }
    let ghost all = fit::texts(r.recommendations@);
    let mut lines = String::new();
    let mut i: usize = 0;
    while i < r.recommendations.len()
        invariant
            i <= r.recommendations@.len(),
            all == fit::texts(r.recommendations@),
            lines@ == fix_lines(all.take(i as int)),
        decreases r.recommendations.len() - i,
    {
        proof {
            assert(all.take(i + 1).drop_last() =~= all.take(i as int));
            assert(all.take(i + 1).last() == (
                r.recommendations@[i as int].0@,
                r.recommendations@[i as int].1@,
            ));
        }
        lines.append(
            if i == 0 {
                "  "
            } else {
                "       "
            },
        );
        lines.append(r.recommendations[i].0.as_str());
        lines.append(" → ");
        lines.append(r.recommendations[i].1.as_str());
        lines.append("\n");
        i = i + 1;
    }
    proof {
        assert(all.take(i as int) =~= all);
    }
    let mut s = "\n".to_owned();
    s.append("  FIX");
    s.append(lines.as_str());
    s
}

/// The texts of a list of labels.
pub open spec fn labels(list: Seq<&'static str>) -> Seq<Seq<char>> {
    list.map_values(|s: &'static str| s@)
}

fn own(list: &Vec<&'static str>) -> (r: Vec<String>)
    ensures
        text::views(r@) == labels(list@),
{
    let mut out: Vec<String> = Vec::new();
    let mut i: usize = 0;
    while i < list.len()
        invariant
            i <= list@.len(),
            out@.len() == i,
            text::views(out@) == labels(list@).take(i as int),
        decreases list.len() - i,
    {
        let label = list[i].to_owned();
        proof {
            text::lemma_next_text(out@, label, labels(list@));
        }
        out.push(label);
        i = i + 1;
    }
    proof {
        assert(labels(list@).take(i as int) =~= labels(list@));
    }
    out
}

pub open spec fn footer_text(r: FitReport) -> Seq<char> {
    "\n"@ + "  not modeled: "@ + text::joined(labels(r.not_modeled@), ", "@)
        + "   ·   calibrated: "@ + if r.calibrated {
        "yes"@
    } else {
        "no"@
    } + "\n"@
}

fn footer(r: &FitReport) -> (s: String)
    ensures
        s@ == footer_text(*r),
{
    let mut s = "\n".to_owned();
    s.append("  not modeled: ");
    s.append(text::join(&own(&r.not_modeled), ", ").as_str());
    s.append("   ·   calibrated: ");
    s.append(
        if r.calibrated {
            "yes"
        } else {
            "no"
        },
    );
    s.append("\n");
    s
}

/// The dashboard.
#[verifier::opaque]
pub open spec fn human_text(r: FitReport) -> Seq<char> {
    header_text(r) + verdict_text(r) + memory_text(r) + speed_text(r) + capacity_text(r)
        + fix_text(r) + footer_text(r)
}

/// A report for people.
pub fn human(r: &FitReport) -> (s: String)
    ensures
        s@ == human_text(*r),
{
    proof {
        reveal(human_text);
    }
    let mut s = header(r);
    s.append(verdict(r).as_str());
    s.append(memory(r).as_str());
    s.append(speed(r).as_str());
    s.append(capacity(r).as_str());
    s.append(fixes(r).as_str());
    s.append(footer(r).as_str());
    s
}

/// An interval as JSON; an exact one has only its value.
pub open spec fn interval_json(i: Band) -> Seq<char> {
    if i.exact {
        "{\"best\": "@ + decimal::scientific(i.best) + ", \"exact\": true}"@
    } else {
        "{\"low\": "@ + decimal::scientific(i.low) + ", \"best\": "@ + decimal::scientific(i.best)
            + ", \"high\": "@ + decimal::scientific(i.high) + ", \"calibrated\": "@ + text::boolean(
            i.calibrated,
        ) + "}"@
    }
}

fn iv_json(i: &Interval) -> (s: String)
    ensures
        s@ == interval_json(i@),
{
    if i.exact {
        let mut s = "{\"best\": ".to_owned();
        s.append(decimal::show_scientific(i.best).as_str());
        s.append(", \"exact\": true}");
        s
    } else {
        let mut s = "{\"low\": ".to_owned();
        s.append(decimal::show_scientific(i.low).as_str());
        s.append(", \"best\": ");
        s.append(decimal::show_scientific(i.best).as_str());
        s.append(", \"high\": ");
        s.append(decimal::show_scientific(i.high).as_str());
        s.append(", \"calibrated\": ");
        s.append(text::show_bool(i.calibrated));
        s.append("}");
        s
    }
}

/// A share as JSON.
pub open spec fn util_json(util: Option<F64>) -> Seq<char> {
    match util {
        Some(u) => decimal::fixed(u@, 2),
        None => "null"@,
    }
}

fn show_util(util: Option<F64>) -> (s: String)
    ensures
        s@ == util_json(util),
{
    match util {
        Some(u) => decimal::show_fixed(u, 2),
        None => "null".to_owned(),
    }
}

/// The model of a report.
pub open spec fn model_json(r: FitReport) -> Seq<char> {
    "{\n  \"model\": {\"id\": \""@
        + r.model.id@
        + "\", \"kv_kind\": \""@
        + r.model.kv_kind@
        + "\", \"params\": "@
        + text::digits(r.model.n_params as nat)
        + ", \"layers\": "@
        + text::digits(r.model.layers as nat)
        + "},\n  "@
}

fn show_model(r: &FitReport) -> (s: String)
    ensures
        s@ == model_json(*r),
{
    let mut s = "{\n  \"model\": {\"id\": \"".to_owned();
    s.append(r.model.id.as_str());
    s.append("\", \"kv_kind\": \"");
    s.append(r.model.kv_kind);
    s.append("\", \"params\": ");
    s.append(text::show_u64(r.model.n_params).as_str());
    s.append(", \"layers\": ");
    s.append(text::show_u64(r.model.layers as u64).as_str());
    s.append("},\n  ");
    s
}

/// The engine of a report.
pub open spec fn engine_json(r: FitReport) -> Seq<char> {
    "\"engine\": {\"name\": \""@
        + r.engine_name@
        + "\", \"util\": "@
        + util_json(r.util)
        + "},\n  "@
}

fn show_engine(r: &FitReport) -> (s: String)
    ensures
        s@ == engine_json(*r),
{
    let mut s = "\"engine\": {\"name\": \"".to_owned();
    s.append(r.engine_name.as_str());
    s.append("\", \"util\": ");
    s.append(show_util(r.util).as_str());
    s.append("},\n  ");
    s
}

/// The verdict of a report.
pub open spec fn verdict_json(r: FitReport) -> Seq<char> {
    "\"verdict\": {\"serves\": "@
        + text::boolean(r.serves)
        + ", \"naive_would_say\": "@
        + text::boolean(r.naive_would_say)
        + "},\n  "@
}

fn show_verdict(r: &FitReport) -> (s: String)
    ensures
        s@ == verdict_json(*r),
{
    let mut s = "\"verdict\": {\"serves\": ".to_owned();
    s.append(text::show_bool(r.serves));
    s.append(", \"naive_would_say\": ");
    s.append(text::show_bool(r.naive_would_say));
    s.append("},\n  ");
    s
}

/// The memory of a report.
pub open spec fn memory_json(r: FitReport) -> Seq<char> {
    "\"memory\": {\"weights_bytes\": "@
        + interval_json(Band::point(Datum::of_nat(r.weights as nat)))
        + ", \"overhead_bytes\": "@
        + interval_json(r.overhead@)
        + ", \"kv_pool_bytes\": "@
        + interval_json(r.kv_pool@)
        + "},\n  "@
}

fn show_memory(r: &FitReport) -> (s: String)
    ensures
        s@ == memory_json(*r),
{
    let mut s = "\"memory\": {\"weights_bytes\": ".to_owned();
    s.append(iv_json(&Interval::exact(F64::from_u64(r.weights))).as_str());
    s.append(", \"overhead_bytes\": ");
    s.append(iv_json(&r.overhead).as_str());
    s.append(", \"kv_pool_bytes\": ");
    s.append(iv_json(&r.kv_pool).as_str());
    s.append("},\n  ");
    s
}

/// The speed of a report.
pub open spec fn speed_json(r: FitReport) -> Seq<char> {
    "\"speed\": {\"ttft_s\": "@
        + interval_json(r.ttft@)
        + ", \"decode_tok_s\": "@
        + interval_json(r.decode@)
        + ", \"regime\": \"memory_bound\", \"ridge_batch\": "@
        + decimal::fixed(r.ridge_batch@, 0)
        + "},\n  "@
}

fn show_speed(r: &FitReport) -> (s: String)
    ensures
        s@ == speed_json(*r),
{
    let mut s = "\"speed\": {\"ttft_s\": ".to_owned();
    s.append(iv_json(&r.ttft).as_str());
    s.append(", \"decode_tok_s\": ");
    s.append(iv_json(&r.decode).as_str());
    s.append(", \"regime\": \"memory_bound\", \"ridge_batch\": ");
    s.append(decimal::show_fixed(r.ridge_batch, 0).as_str());
    s.append("},\n  ");
    s
}

/// The capacity of a report.
pub open spec fn capacity_json(r: FitReport) -> Seq<char> {
    "\"capacity\": {\"ctx\": "@
        + text::digits(r.ctx as nat)
        + ", \"max_sequences\": {\"low\": "@
        + text::integer(r.max_seqs.0 as int)
        + ", \"best\": "@
        + text::integer(r.max_seqs.1 as int)
        + ", \"high\": "@
        + text::integer(r.max_seqs.2 as int)
        + "}, \"bytes_per_seq\": "@
        + text::digits(r.bytes_per_seq as nat)
        + "},\n  "@
}

fn show_capacity(r: &FitReport) -> (s: String)
    ensures
        s@ == capacity_json(*r),
{
    let mut s = "\"capacity\": {\"ctx\": ".to_owned();
    s.append(text::show_u64(r.ctx as u64).as_str());
    s.append(", \"max_sequences\": {\"low\": ");
    s.append(text::show_i64(r.max_seqs.0).as_str());
    s.append(", \"best\": ");
    s.append(text::show_i64(r.max_seqs.1).as_str());
    s.append(", \"high\": ");
    s.append(text::show_i64(r.max_seqs.2).as_str());
    s.append("}, \"bytes_per_seq\": ");
    s.append(text::show_u64(r.bytes_per_seq).as_str());
    s.append("},\n  ");
    s
}

/// A recommendation as JSON.
pub open spec fn change_json(pair: (Seq<char>, Seq<char>)) -> Seq<char> {
    "{\"change\": \""@ + pair.0 + "\", \"effect\": \""@ + pair.1 + "\"}"@
}

pub open spec fn changes_json(list: Seq<(Seq<char>, Seq<char>)>) -> Seq<Seq<char>> {
    list.map_values(|pair: (Seq<char>, Seq<char>)| change_json(pair))
}

fn show_changes(list: &Vec<(String, String)>) -> (r: Vec<String>)
    ensures
        text::views(r@) == changes_json(fit::texts(list@)),
{
    let mut out: Vec<String> = Vec::new();
    let ghost all = changes_json(fit::texts(list@));
    let mut i: usize = 0;
    while i < list.len()
        invariant
            i <= list@.len(),
            out@.len() == i,
            all == changes_json(fit::texts(list@)),
            text::views(out@) == all.take(i as int),
        decreases list.len() - i,
    {
        let mut s = "{\"change\": \"".to_owned();
        s.append(list[i].0.as_str());
        s.append("\", \"effect\": \"");
        s.append(list[i].1.as_str());
        s.append("\"}");
        proof {
            text::lemma_next_text(out@, s, all);
        }
        out.push(s);
        i = i + 1;
    }
    proof {
        assert(all.take(i as int) =~= all);
    }
    out
}

pub open spec fn quoted(list: Seq<Seq<char>>) -> Seq<Seq<char>> {
    list.map_values(|s: Seq<char>| "\""@ + s + "\""@)
}

fn quote(list: &Vec<&'static str>) -> (r: Vec<String>)
    ensures
        text::views(r@) == quoted(labels(list@)),
{
    let mut out: Vec<String> = Vec::new();
    let ghost all = quoted(labels(list@));
    let mut i: usize = 0;
    while i < list.len()
        invariant
            i <= list@.len(),
            out@.len() == i,
            all == quoted(labels(list@)),
            text::views(out@) == all.take(i as int),
        decreases list.len() - i,
    {
        let mut s = "\"".to_owned();
        s.append(list[i]);
        s.append("\"");
        proof {
            text::lemma_next_text(out@, s, all);
        }
        out.push(s);
        i = i + 1;
    }
    proof {
        assert(all.take(i as int) =~= all);
    }
    out
}

/// What a report recommends, leaves out, and rests on.
pub open spec fn notes_json(r: FitReport) -> Seq<char> {
    "\"recommendations\": ["@
        + text::joined(changes_json(fit::texts(r.recommendations@)), ", "@)
        + "],\n  \"not_modeled\": ["@
        + text::joined(quoted(labels(r.not_modeled@)), ", "@)
        + "],\n  \"calibrated\": "@
        + text::boolean(r.calibrated)
        + "\n}"@
}

fn show_notes(r: &FitReport) -> (s: String)
    ensures
        s@ == notes_json(*r),
{
    let mut s = "\"recommendations\": [".to_owned();
    s.append(text::join(&show_changes(&r.recommendations), ", ").as_str());
    s.append("],\n  \"not_modeled\": [");
    s.append(text::join(&quote(&r.not_modeled), ", ").as_str());
    s.append("],\n  \"calibrated\": ");
    s.append(text::show_bool(r.calibrated));
    s.append("\n}");
    s
}

/// A report as JSON.
#[verifier::opaque]
pub open spec fn json_text(r: FitReport) -> Seq<char> {
    model_json(r) + engine_json(r) + verdict_json(r) + memory_json(r) + speed_json(r)
        + capacity_json(r) + notes_json(r)
}

/// A report for programs.
pub fn json(r: &FitReport) -> (s: String)
    ensures
        s@ == json_text(*r),
{
    proof {
        reveal(json_text);
    }
    let mut s = show_model(r);
    s.append(show_engine(r).as_str());
    s.append(show_verdict(r).as_str());
    s.append(show_memory(r).as_str());
    s.append(show_speed(r).as_str());
    s.append(show_capacity(r).as_str());
    s.append(show_notes(r).as_str());
    s
}

/// The texts of several reports.
pub open spec fn human_texts(list: Seq<FitReport>) -> Seq<Seq<char>> {
    list.map_values(|r: FitReport| human_text(r))
}

pub open spec fn json_texts(list: Seq<FitReport>) -> Seq<Seq<char>> {
    list.map_values(|r: FitReport| json_text(r))
}

/// The reports of a scan for people, one after the other.
pub fn scan_human(list: &Vec<FitReport>) -> (s: String)
    ensures
        s@ == text::joined(human_texts(list@), "\n"@),
{
    let mut pieces: Vec<String> = Vec::new();
    let ghost all = human_texts(list@);
    let mut i: usize = 0;
    while i < list.len()
        invariant
            i <= list@.len(),
            pieces@.len() == i,
            all == human_texts(list@),
            text::views(pieces@) == all.take(i as int),
        decreases list.len() - i,
    {
        let piece = human(&list[i]);
        proof {
            text::lemma_next_text(pieces@, piece, all);
        }
        pieces.push(piece);
        i = i + 1;
    }
    proof {
        assert(all.take(i as int) =~= all);
    }
    text::join(&pieces, "\n")
}

/// The reports of a scan as a JSON array.
pub fn scan_json(list: &Vec<FitReport>) -> (s: String)
    ensures
        s@ == "["@ + text::joined(json_texts(list@), ", "@) + "]"@,
{
    let mut pieces: Vec<String> = Vec::new();
    let ghost all = json_texts(list@);
    let mut i: usize = 0;
    while i < list.len()
        invariant
            i <= list@.len(),
            pieces@.len() == i,
            all == json_texts(list@),
            text::views(pieces@) == all.take(i as int),
        decreases list.len() - i,
    {
        let piece = json(&list[i]);
        proof {
            text::lemma_next_text(pieces@, piece, all);
        }
        pieces.push(piece);
        i = i + 1;
    }
    proof {
        assert(all.take(i as int) =~= all);
    }
    let mut s = "[".to_owned();
    s.append(text::join(&pieces, ", ").as_str());
    s.append("]");
    s
}

} // verus!
