//! Laws of what reports show.

use crate::binary64;
use crate::binary64::Datum;
use crate::decimal;
use crate::detect;
use crate::detect::DetectedGpu;
use crate::fit;
use crate::fit::FitReport;
use crate::laws::words;
use crate::render;
use crate::rounding;
use crate::rounding::TWO_53;
use crate::sizing::{Band, Device};
use crate::text;
use vstd::arithmetic::power2::*;
use vstd::prelude::*;

verus! {

proof fn lemma_regroup(a: Seq<char>, b: Seq<char>, c: Seq<char>)
    ensures
        a + b + c == a + (b + c),
{
    assert(a + b + c =~= a + (b + c));
}

/// A part of a text occurs in it.
proof fn lemma_part(a: Seq<char>, x: Seq<char>, b: Seq<char>)
    ensures
        text::occurs_in(x, a + x + b),
{
    let all = a + x + b;
    assert(all.subrange(a.len() as int, a.len() as int + x.len()) =~= x);
    assert(text::occurs_at(all, x, a.len() as int));
}

/// What occurs in a part of a text occurs in the text.
proof fn lemma_inside(x: Seq<char>, a: Seq<char>, s: Seq<char>, b: Seq<char>)
    requires
        text::occurs_in(x, s),
    ensures
        text::occurs_in(x, a + s + b),
{
    let i = choose|i: int| text::occurs_at(s, x, i);
    let all = a + s + b;
    let at = a.len() + i;
    assert(all.subrange(at, at + x.len()) =~= s.subrange(i, i + x.len()));
    assert(text::occurs_at(all, x, at));
}

/// What occurs in a front or a rear part of a text occurs in the text.
proof fn lemma_ends(x: Seq<char>, a: Seq<char>, b: Seq<char>)
    ensures
        text::occurs_in(x, a) ==> text::occurs_in(x, a + b),
        text::occurs_in(x, b) ==> text::occurs_in(x, a + b),
{
    let none = Seq::<char>::empty();
    if text::occurs_in(x, a) {
        lemma_inside(x, none, a, b);
        assert(none + a + b =~= a + b);
    }
    if text::occurs_in(x, b) {
        lemma_inside(x, a, b, none);
        assert(a + b + none =~= a + b);
    }
}

/// Each section of the dashboard is part of it.
proof fn lemma_sections(r: FitReport, x: Seq<char>)
    requires
        text::occurs_in(x, render::header_text(r)) || text::occurs_in(x, render::verdict_text(r))
            || text::occurs_in(x, render::memory_text(r)) || text::occurs_in(
            x,
            render::speed_text(r),
        ) || text::occurs_in(x, render::capacity_text(r)) || text::occurs_in(
            x,
            render::fix_text(r),
        ) || text::occurs_in(x, render::footer_text(r)),
    ensures
        text::occurs_in(x, render::human_text(r)),
{
    reveal(render::human_text);
    let a = render::header_text(r);
    let b = render::verdict_text(r);
    let c = render::memory_text(r);
    let d = render::speed_text(r);
    let e = render::capacity_text(r);
    let f = render::fix_text(r);
    let g = render::footer_text(r);
    lemma_ends(x, a, b);
    lemma_ends(x, a + b, c);
    lemma_ends(x, a + b + c, d);
    lemma_ends(x, a + b + c + d, e);
    lemma_ends(x, a + b + c + d + e, f);
    lemma_ends(x, a + b + c + d + e + f, g);
}

proof fn lemma_header_line(r: FitReport, i: int, x: Seq<char>)
    requires
        0 <= i < 3,
        text::occurs_in(x, seq!["ridgepoint fit"@, render::model_line(r), render::engine_line(r)][i]),
    ensures
        text::occurs_in(x, render::human_text(r)),
{
    let lines = seq!["ridgepoint fit"@, render::model_line(r), render::engine_line(r)];
    words::law_box_rows_align(lines, i);
    let shown = render::boxed_text(lines);
    let k = render::widest(lines) + 5;
    let from = (i + 1) * k;
    let row = shown.subrange(from, from + k);
    let line = lines[i];
    assert(from >= 0) by (nonlinear_arith)
        requires
            from == (i + 1) * k,
            i >= 0,
            k >= 0,
    ;
    let n = line.len() as int;
    assert(row.subrange(2, 2 + n) == line);
    assert(n + 2 <= k) by {
        words::lemma_no_line_is_wider(lines, i);
    }
    assert(shown =~= shown.subrange(0, from + 2) + line + shown.subrange(
        from + 2 + n,
        shown.len() as int,
    )) by {
        assert forall|j: int| 0 <= j < n implies shown[from + 2 + j] == line[j] by {
            assert(row.subrange(2, 2 + n)[j] == row[2 + j]);
        }
    }
    lemma_inside(
        x,
        shown.subrange(0, from + 2),
        line,
        shown.subrange(from + 2 + n, shown.len() as int),
    );
    lemma_ends(x, shown, "\n"@);
    lemma_sections(r, x);
}

/// The dashboard names the model, its kind, its size in billions, the quantisation, the
/// devices, the engine with the share that it was told, and the KV dtype.
pub proof fn law_dashboard_names_the_setup(r: FitReport)
    ensures
        text::occurs_in(r.model.id@, render::human_text(r)),
        text::occurs_in(r.model.kv_kind@, render::human_text(r)),
        text::occurs_in(r.quant_name@, render::human_text(r)),
        text::occurs_in(
            decimal::fixed(
                Datum::of_nat(r.model.n_params as nat).over(Datum::of_nat(1_000_000_000)),
                1,
            ) + "B"@,
            render::human_text(r),
        ),
        text::occurs_in(
            text::digits(r.hw.count as nat) + "× "@ + r.hw.device.name@,
            render::human_text(r),
        ),
        text::occurs_in(r.engine_name@, render::human_text(r)),
        r.util matches Some(u) ==> text::occurs_in(
            r.engine_name@ + (" "@ + decimal::fixed(u@, 2)),
            render::human_text(r),
        ),
        text::occurs_in(
            if r.kv_bytes == 1 {
                "KV fp8"@
            } else {
                "KV fp16"@
            },
            render::human_text(r),
        ),
{
    let none = Seq::<char>::empty();
    let m = render::model_line(r);
    let dot = " · "@;
    let params = decimal::fixed(
        Datum::of_nat(r.model.n_params as nat).over(Datum::of_nat(1_000_000_000)),
        1,
    );
    let id = r.model.id@;
    let kind = r.model.kv_kind@;
    let quant = r.quant_name@;
    let rest = dot + kind + dot + params + "B"@ + dot + quant;
    assert(m =~= none + id + rest);
    lemma_part(none, id, rest);
    let after = dot + params + "B"@ + dot + quant;
    assert(m =~= (id + dot) + kind + after);
    lemma_part(id + dot, kind, after);
    let before = id + dot + kind + dot + params + "B"@ + dot;
    assert(m =~= before + quant + none);
    lemma_part(before, quant, none);
    let size = params + "B"@;
    let ahead = id + dot + kind + dot;
    assert(m =~= ahead + size + (dot + quant));
    lemma_part(ahead, size, dot + quant);
    lemma_header_line(r, 1, size);
    lemma_header_line(r, 1, id);
    lemma_header_line(r, 1, kind);
    lemma_header_line(r, 1, quant);
    let e = render::engine_line(r);
    let devices = text::digits(r.hw.count as nat) + "× "@ + r.hw.device.name@;
    let name = r.engine_name@;
    let util = match r.util {
        Some(u) => " "@ + decimal::fixed(u@, 2),
        None => ""@,
    };
    let label = if r.kv_bytes == 1 {
        "fp8"@
    } else {
        "fp16"@
    };
    assert(e == devices + dot + name + util + " · KV "@ + label);
    let tail = dot + name + util + " · KV "@ + label;
    assert(e =~= none + devices + tail);
    lemma_part(none, devices, tail);
    let end = util + " · KV "@ + label;
    assert(e =~= (devices + dot) + name + end);
    lemma_part(devices + dot, name, end);
    lemma_header_line(r, 2, devices);
    lemma_header_line(r, 2, name);
    let told = name + util;
    let last = " · KV "@ + label;
    assert(e =~= (devices + dot) + told + last);
    lemma_part(devices + dot, told, last);
    lemma_header_line(r, 2, told);
    reveal_strlit(" · KV ");
    reveal_strlit(" · ");
    reveal_strlit("KV fp8");
    reveal_strlit("KV fp16");
    reveal_strlit("fp8");
    reveal_strlit("fp16");
    let kv = if r.kv_bytes == 1 {
        "KV fp8"@
    } else {
        "KV fp16"@
    };
    assert(" · KV "@ + label =~= dot + kv);
    let front = devices + dot + name + util;
    assert(e =~= (front + dot) + kv + none);
    lemma_part(front + dot, kv, none);
    lemma_header_line(r, 2, kv);
}

/// An aligned text is as wide as it should be where it fits; the rest of it are blanks, in
/// front of a text on the right and behind one on the left.
pub proof fn law_aligned_texts_are_padded(s: Seq<char>, width: nat, i: int)
    ensures
        s.len() >= width ==> text::right_aligned(s, width) == s && text::left_aligned(s, width)
            == s,
        s.len() < width ==> {
            let right = text::right_aligned(s, width);
            let left = text::left_aligned(s, width);
            &&& right.len() == width && left.len() == width
            &&& right.subrange(width - s.len(), width as int) == s
            &&& left.subrange(0, s.len() as int) == s
            &&& 0 <= i < width - s.len() ==> right[i] == ' ' && left[s.len() + i] == ' '
        },
{
    if s.len() < width {
        let right = text::right_aligned(s, width);
        let left = text::left_aligned(s, width);
        assert(right.subrange(width - s.len(), width as int) =~= s);
        assert(left.subrange(0, s.len() as int) =~= s);
    }
}

/// Memory in GiB, with one digit behind the point.
pub open spec fn in_gib(bytes: Datum) -> Seq<char> {
    decimal::fixed(bytes.over(Datum::of_nat(1_073_741_824)), 1)
}

/// Three texts in columns, in their order.
pub open spec fn in_columns(
    low: Seq<char>,
    best: Seq<char>,
    high: Seq<char>,
    width: nat,
) -> Seq<char> {
    text::right_aligned(low, width) + " ·"@ + text::right_aligned(best, width) + " ·"@
        + text::right_aligned(high, width)
}

/// The mark behind memory that was estimated.
pub open spec fn estimated(calibrated: bool) -> Seq<char> {
    if calibrated {
        ""@
    } else {
        "  ~est"@
    }
}

/// The dashboard shows weights, overhead and pool in GiB, each under its name, with low,
/// best and high in their places, and what was estimated as such.
pub proof fn law_dashboard_shows_memory(r: FitReport)
    requires
        !r.overhead.exact,
        !r.kv_pool.exact,
    ensures
        text::occurs_in(
            "    weights  "@ + (text::left_aligned(r.quant_name@, 7) + (text::right_aligned(
                in_gib(Datum::of_nat(r.weights as nat)),
                6,
            ) + " GiB  exact"@)),
            render::human_text(r),
        ),
        text::occurs_in(
            "    overhead        "@ + (in_columns(
                in_gib(r.overhead.low@),
                in_gib(r.overhead.best@),
                in_gib(r.overhead.high@),
                6,
            ) + " GiB"@ + estimated(r.overhead.calibrated)),
            render::human_text(r),
        ),
        text::occurs_in(
            "    KV pool         "@ + (in_columns(
                in_gib(r.kv_pool.low@),
                in_gib(r.kv_pool.best@),
                in_gib(r.kv_pool.high@),
                6,
            ) + " GiB"@ + estimated(r.kv_pool.calibrated)),
            render::human_text(r),
        ),
{
    let w = render::memory_band(Band::point(Datum::of_nat(r.weights as nat)));
    let o = render::memory_band(r.overhead@);
    let p = render::memory_band(r.kv_pool@);
    let head = "  MEMORY                low     best    high\n"@;
    let n0 = "    weights  "@;
    let q = text::left_aligned(r.quant_name@, 7);
    let n1 = "    overhead        "@;
    let n2 = "    KV pool         "@;
    let nl = "\n"@;
    let end = "   ←\n"@ + nl;
    let m = render::memory_text(r);
    let a1 = head + n0 + q + w + nl;
    let a2 = a1 + n1 + o + nl;
    assert(m == a2 + n2 + p + "   ←\n"@ + nl);
    let x0 = n0 + (q + w);
    let x1 = n1 + o;
    let x2 = n2 + p;
    lemma_regroup(a2, n2, p);
    lemma_regroup(a2 + x2, "   ←\n"@, nl);
    lemma_part(a2, x2, end);
    lemma_sections(r, x2);
    let c1 = nl + (x2 + end);
    lemma_regroup(a1, n1, o);
    lemma_regroup(a1 + x1 + nl, x2, end);
    lemma_regroup(a1 + x1, nl, x2 + end);
    lemma_part(a1, x1, c1);
    lemma_sections(r, x1);
    let c0 = nl + (x1 + c1);
    lemma_regroup(head, n0, q);
    lemma_regroup(head, n0 + q, w);
    lemma_regroup(n0, q, w);
    lemma_regroup(head + x0 + nl, x1, c1);
    lemma_regroup(head + x0, nl, x1 + c1);
    lemma_part(head, x0, c0);
    lemma_sections(r, x0);
}

/// The dashboard says whether the model serves, how many sequences and at which context.
pub proof fn law_dashboard_shows_the_verdict(r: FitReport)
    ensures
        r.serves ==> text::occurs_in(
            "  ✓  SERVES        ~"@ + text::integer(r.max_seqs.1 as int) + " seqs @ "@
                + text::digits(r.ctx as nat) + " ctx"@,
            render::human_text(r),
        ),
        !r.serves ==> text::occurs_in(
            "  ✗  WON'T SERVE\n"@ + "     KV pool ≈ "@ + in_gib(r.kv_pool.best@) + " GiB"@,
            render::human_text(r),
        ),
        !r.serves && r.naive_would_say ==> text::occurs_in(
            "says \"fits\" ("@ + (in_gib(Datum::of_nat(r.weights as nat)) + "<"@ + in_gib(
                Datum::of_nat(r.total_vram as nat),
            )),
            render::human_text(r),
        ),
        text::occurs_in(
            "  CAPACITY @"@ + text::digits(r.ctx as nat) + "       "@ + text::integer(
                r.max_seqs.1 as int,
            ) + " seqs · "@ + in_gib(Datum::of_nat(r.bytes_per_seq as nat)) + " GiB/seq\n"@,
            render::human_text(r),
        ),
{
    let none = Seq::<char>::empty();
    if r.serves {
        lemma_shows_that_it_serves(r);
    } else {
        lemma_shows_that_it_does_not(r);
    }
    let c = render::capacity_text(r);
    lemma_part(none, c, none);
    assert(none + c + none =~= c);
    lemma_sections(r, c);
}

proof fn lemma_shows_that_it_serves(r: FitReport)
    requires
        r.serves,
    ensures
        text::occurs_in(
            "  ✓  SERVES        ~"@ + text::integer(r.max_seqs.1 as int) + " seqs @ "@
                + text::digits(r.ctx as nat) + " ctx"@,
            render::human_text(r),
        ),
{
    reveal_strlit(" ctx");
    reveal_strlit(" (best)\n");
    reveal_strlit(" ctx (best)\n");
    let none = Seq::<char>::empty();
    let front = "  ✓  SERVES        ~"@ + text::integer(r.max_seqs.1 as int) + " seqs @ "@
        + text::digits(r.ctx as nat);
    let x = front + " ctx"@;
    let end = " (best)\n"@ + "\n"@;
    assert(" ctx (best)\n"@ =~= " ctx"@ + " (best)\n"@);
    lemma_regroup(front, " ctx"@, " (best)\n"@);
    lemma_regroup(x, " (best)\n"@, "\n"@);
    assert(none + x =~= x);
    lemma_part(none, x, end);
    lemma_sections(r, x);
}

proof fn lemma_shows_that_it_does_not(r: FitReport)
    requires
        !r.serves,
    ensures
        text::occurs_in(
            "  ✗  WON'T SERVE\n"@ + "     KV pool ≈ "@ + in_gib(r.kv_pool.best@) + " GiB"@,
            render::human_text(r),
        ),
        r.naive_would_say ==> text::occurs_in(
            "says \"fits\" ("@ + (in_gib(Datum::of_nat(r.weights as nat)) + "<"@ + in_gib(
                Datum::of_nat(r.total_vram as nat),
            )),
            render::human_text(r),
        ),
{
    reveal_strlit(" GiB");
    reveal_strlit(" after the engine's grab\n");
    reveal_strlit(" GiB after the engine's grab\n");
    let none = Seq::<char>::empty();
    let nl = "\n"@;
    let g1 = " GiB"@;
    let g2 = " after the engine's grab\n"@;
    assert(" GiB after the engine's grab\n"@ =~= g1 + g2);
    let front = "  ✗  WON'T SERVE\n"@ + "     KV pool ≈ "@ + in_gib(r.kv_pool.best@);
    let x = front + g1;
    let claim = "     a naive weights<VRAM check says \"fits\" ("@;
    let w = in_gib(Datum::of_nat(r.weights as nat));
    let t = in_gib(Datum::of_nat(r.total_vram as nat));
    let wrong = ") — wrong\n"@;
    let naive = if r.naive_would_say {
        claim + w + "<"@ + t + wrong
    } else {
        ""@
    };
    let v = render::verdict_text(r);
    lemma_regroup(front, g1, g2);
    assert(v == x + g2 + naive + nl);
    lemma_regroup(x + g2, naive, nl);
    lemma_regroup(x, g2, naive + nl);
    assert(none + x =~= x);
    lemma_part(none, x, g2 + (naive + nl));
    lemma_sections(r, x);
    if r.naive_would_say {
        reveal_strlit("says \"fits\" (");
        reveal_strlit("     a naive weights<VRAM check ");
        reveal_strlit("     a naive weights<VRAM check says \"fits\" (");
        let n0 = "says \"fits\" ("@;
        let lead = "     a naive weights<VRAM check "@;
        assert(claim =~= lead + n0);
        let y = w + "<"@ + t;
        lemma_regroup(claim, w, "<"@);
        lemma_regroup(claim, w + "<"@, t);
        assert(naive == claim + y + wrong);
        lemma_regroup(lead, n0, y);
        lemma_part(lead, n0 + y, wrong);
        lemma_ends(n0 + y, x + g2, naive);
        lemma_ends(n0 + y, x + g2 + naive, nl);
        lemma_sections(r, n0 + y);
    }
}

/// The dashboard shows the times, the rates and the ridge, each under its name, with low,
/// best and high in their places, and says what was measured.
pub proof fn law_dashboard_shows_speed(r: FitReport)
    ensures
        text::occurs_in(
            "  SPEED  "@ + if r.calibrated {
                "roofline"@
            } else {
                "roofline · uncalibrated"@
            } + "\n"@ + "    TTFT @prompt      "@ + in_columns(
                decimal::fixed(r.ttft.low@, 2),
                decimal::fixed(r.ttft.best@, 2),
                decimal::fixed(r.ttft.high@, 2),
                5,
            ) + " s\n"@,
            render::human_text(r),
        ),
        text::occurs_in(
            "    decode/req       "@ + in_columns(
                decimal::fixed(r.decode.low@, 0),
                decimal::fixed(r.decode.best@, 0),
                decimal::fixed(r.decode.high@, 0),
                5,
            ) + " tok/s"@ + if r.decode.calibrated {
                "  MBU calibrated"@
            } else {
                ""@
            } + "\n"@,
            render::human_text(r),
        ),
        text::occurs_in(
            "ridge ≈ batch "@ + decimal::fixed(r.ridge_batch@, 0),
            render::human_text(r),
        ),
{
    reveal_strlit("ridge ≈ batch ");
    reveal_strlit("    regime   memory-bound · ");
    reveal_strlit("    regime   memory-bound · ridge ≈ batch ");
    let n2 = "ridge ≈ batch "@;
    let lead = "    regime   memory-bound · "@;
    let k2 = "    regime   memory-bound · ridge ≈ batch "@;
    assert(k2 =~= lead + n2);
    let none = Seq::<char>::empty();
    let nl = "\n"@;
    let kind = if r.calibrated {
        "roofline"@
    } else {
        "roofline · uncalibrated"@
    };
    let mark = if r.decode.calibrated {
        "  MBU calibrated"@
    } else {
        ""@
    };
    let t = render::three(r.ttft@, 2);
    let d = render::three(r.decode@, 0);
    let b = decimal::fixed(r.ridge_batch@, 0);
    let s = render::speed_text(r);
    let x0 = "  SPEED  "@ + kind + nl + "    TTFT @prompt      "@ + t + " s\n"@;
    let d1 = "    decode/req       "@ + d;
    let d2 = d1 + " tok/s"@;
    let d3 = d2 + mark;
    let x1 = d3 + nl;
    assert(s == x0 + "    decode/req       "@ + d + " tok/s"@ + mark + nl + k2 + b + nl + nl);
    assert(x0 + "    decode/req       "@ + d =~= x0 + d1);
    assert(x0 + d1 + " tok/s"@ =~= x0 + d2);
    assert(x0 + d2 + mark =~= x0 + d3);
    assert(x0 + d3 + nl =~= x0 + x1);
    assert(s == x0 + x1 + k2 + b + nl + nl);
    let end = nl + nl;
    assert(s =~= x0 + x1 + k2 + b + end);
    lemma_named(x0 + x1, lead, n2, b, end);
    lemma_sections(r, n2 + b);
    let c1 = k2 + b + end;
    assert(s =~= x0 + x1 + c1);
    lemma_part(x0, x1, c1);
    lemma_sections(r, x1);
    let c0 = x1 + c1;
    assert(s =~= none + x0 + c0);
    lemma_part(none, x0, c0);
    lemma_sections(r, x0);
}

proof fn lemma_fix_line(list: Seq<(Seq<char>, Seq<char>)>, i: int)
    requires
        0 <= i < list.len(),
    ensures
        text::occurs_in(list[i].0 + " → "@ + list[i].1 + "\n"@, render::fix_lines(list)),
    decreases list.len(),
{
    let x = list[i].0 + " → "@ + list[i].1 + "\n"@;
    let front = render::fix_lines(list.drop_last());
    let lead = if list.len() == 1 {
        "  "@
    } else {
        "       "@
    };
    let last = list.last();
    let none = Seq::<char>::empty();
    let tail = last.0 + " → "@ + last.1 + "\n"@;
    assert(render::fix_lines(list) =~= front + (lead + tail));
    if i < list.len() - 1 {
        lemma_fix_line(list.drop_last(), i);
        assert(list.drop_last()[i] == list[i]);
    } else {
        lemma_part(lead, x, none);
        assert(lead + x + none =~= lead + tail);
    }
    lemma_ends(x, front, lead + tail);
}

proof fn lemma_joined_part(list: Seq<Seq<char>>, sep: Seq<char>, i: int)
    requires
        0 <= i < list.len(),
    ensures
        text::occurs_in(list[i], text::joined(list, sep)),
    decreases list.len(),
{
    let x = list[i];
    let none = Seq::<char>::empty();
    lemma_part(none, x, none);
    assert(none + x + none =~= x);
    if list.len() > 1 {
        let front = text::joined(list.drop_last(), sep);
        if i < list.len() - 1 {
            lemma_joined_part(list.drop_last(), sep, i);
            assert(list.drop_last()[i] == x);
        }
        lemma_ends(x, front, sep);
        lemma_ends(x, front + sep, list.last());
    }
}

/// The dashboard lists every recommendation, what to change and what it brings, and every
/// thing that is not modeled.
pub proof fn law_dashboard_lists_everything(r: FitReport, i: int)
    ensures
        0 <= i < r.recommendations@.len() ==> text::occurs_in(
            r.recommendations@[i].0@ + " → "@ + r.recommendations@[i].1@ + "\n"@,
            render::human_text(r),
        ),
        0 <= i < r.not_modeled@.len() ==> text::occurs_in(
            r.not_modeled@[i]@,
            render::human_text(r),
        ),
        text::occurs_in(
            "calibrated: "@ + if r.calibrated {
                "yes"@
            } else {
                "no"@
            },
            render::human_text(r),
        ),
{
    if 0 <= i < r.recommendations@.len() {
        let list = fit::texts(r.recommendations@);
        let x = list[i].0 + " → "@ + list[i].1 + "\n"@;
        lemma_fix_line(list, i);
        lemma_ends(x, "\n"@ + "  FIX"@, render::fix_lines(list));
        lemma_sections(r, x);
    }
    if 0 <= i < r.not_modeled@.len() {
        let list = render::labels(r.not_modeled@);
        let x = list[i];
        lemma_joined_part(list, ", "@, i);
        let all = text::joined(list, ", "@);
        let yes = if r.calibrated {
            "yes"@
        } else {
            "no"@
        };
        let p1 = "\n"@ + "  not modeled: "@;
        lemma_ends(x, p1, all);
        lemma_ends(x, p1 + all, "   ·   calibrated: "@);
        lemma_ends(x, p1 + all + "   ·   calibrated: "@, yes);
        lemma_ends(x, p1 + all + "   ·   calibrated: "@ + yes, "\n"@);
        lemma_sections(r, x);
    }
    reveal_strlit("calibrated: ");
    reveal_strlit("   ·   ");
    reveal_strlit("   ·   calibrated: ");
    let n0 = "calibrated: "@;
    assert("   ·   calibrated: "@ =~= "   ·   "@ + n0);
    let front = "\n"@ + "  not modeled: "@ + text::joined(render::labels(r.not_modeled@), ", "@);
    let yes = if r.calibrated {
        "yes"@
    } else {
        "no"@
    };
    lemma_named(front, "   ·   "@, n0, yes, "\n"@);
    lemma_sections(r, n0 + yes);
}

proof fn lemma_json_parts(r: FitReport, x: Seq<char>)
    requires
        text::occurs_in(x, render::model_json(r)) || text::occurs_in(x, render::engine_json(r))
            || text::occurs_in(x, render::verdict_json(r)) || text::occurs_in(
            x,
            render::memory_json(r),
        ) || text::occurs_in(x, render::speed_json(r)) || text::occurs_in(
            x,
            render::capacity_json(r),
        ) || text::occurs_in(x, render::notes_json(r)),
    ensures
        text::occurs_in(x, render::json_text(r)),
{
    reveal(render::json_text);
    let a = render::model_json(r);
    let b = render::engine_json(r);
    let c = render::verdict_json(r);
    let d = render::memory_json(r);
    let e = render::speed_json(r);
    let f = render::capacity_json(r);
    let g = render::notes_json(r);
    lemma_ends(x, a, b);
    lemma_ends(x, a + b, c);
    lemma_ends(x, a + b + c, d);
    lemma_ends(x, a + b + c + d, e);
    lemma_ends(x, a + b + c + d + e, f);
    lemma_ends(x, a + b + c + d + e + f, g);
}

/// A name and what stands behind it occur in a text that splits there.
proof fn lemma_named(a: Seq<char>, lead: Seq<char>, name: Seq<char>, x: Seq<char>, b: Seq<char>)
    ensures
        text::occurs_in(name + x, a + (lead + name) + x + b),
{
    assert(a + (lead + name) + x + b =~= (a + lead) + (name + x) + b);
    lemma_part(a + lead, name + x, b);
}

/// The JSON holds the verdict as it is in the report, and whether the report is calibrated.
pub proof fn law_json_holds_the_verdict(r: FitReport)
    ensures
        text::occurs_in("\"serves\": "@ + text::boolean(r.serves), render::json_text(r)),
        text::occurs_in(
            "\"naive_would_say\": "@ + text::boolean(r.naive_would_say),
            render::json_text(r),
        ),
        text::occurs_in("\"calibrated\": "@ + text::boolean(r.calibrated), render::json_text(r)),
{
    reveal_strlit("\"serves\": ");
    reveal_strlit("\"verdict\": {");
    reveal_strlit("\"verdict\": {\"serves\": ");
    reveal_strlit(", ");
    reveal_strlit("\"naive_would_say\": ");
    reveal_strlit(", \"naive_would_say\": ");
    reveal_strlit("],\n  ");
    reveal_strlit("\"calibrated\": ");
    reveal_strlit("],\n  \"calibrated\": ");
    let none = Seq::<char>::empty();
    let end = "},\n  "@;
    let k0 = "\"verdict\": {\"serves\": "@;
    let k1 = ", \"naive_would_say\": "@;
    let k2 = "],\n  \"calibrated\": "@;
    let n0 = "\"serves\": "@;
    let n1 = "\"naive_would_say\": "@;
    let n2 = "\"calibrated\": "@;
    let s = text::boolean(r.serves);
    let w = text::boolean(r.naive_would_say);
    let c = text::boolean(r.calibrated);
    assert(k0 =~= "\"verdict\": {"@ + n0);
    assert(k1 =~= ", "@ + n1);
    assert(k2 =~= "],\n  "@ + n2);
    let v = render::verdict_json(r);
    assert(v == k0 + s + k1 + w + end);
    lemma_named(k0 + s, ", "@, n1, w, end);
    lemma_json_parts(r, n1 + w);
    let c0 = k1 + w + end;
    assert(v =~= none + k0 + s + c0);
    lemma_named(none, "\"verdict\": {"@, n0, s, c0);
    lemma_json_parts(r, n0 + s);
    let front = "\"recommendations\": ["@ + text::joined(
        render::changes_json(fit::texts(r.recommendations@)),
        ", "@,
    ) + "],\n  \"not_modeled\": ["@ + text::joined(
        render::quoted(render::labels(r.not_modeled@)),
        ", "@,
    );
    assert(render::notes_json(r) == front + k2 + c + "\n}"@);
    lemma_named(front, "],\n  "@, n2, c, "\n}"@);
    lemma_json_parts(r, n2 + c);
}

/// The JSON holds the capacity and the context as they are in the report.
pub proof fn law_json_holds_the_capacity(r: FitReport)
    ensures
        text::occurs_in("\"ctx\": "@ + text::digits(r.ctx as nat), render::json_text(r)),
        text::occurs_in(
            "\"max_sequences\": {\"low\": "@ + (text::integer(r.max_seqs.0 as int) + ", \"best\": "@
                + text::integer(r.max_seqs.1 as int) + ", \"high\": "@ + text::integer(
                r.max_seqs.2 as int,
            ) + "}"@),
            render::json_text(r),
        ),
        text::occurs_in(
            "\"bytes_per_seq\": "@ + text::digits(r.bytes_per_seq as nat),
            render::json_text(r),
        ),
{
    reveal_strlit(", ");
    reveal_strlit("\"ctx\": ");
    reveal_strlit("\"capacity\": {");
    reveal_strlit("\"capacity\": {\"ctx\": ");
    reveal_strlit("\"max_sequences\": {\"low\": ");
    reveal_strlit(", \"max_sequences\": {\"low\": ");
    reveal_strlit("}");
    reveal_strlit(", \"bytes_per_seq\": ");
    reveal_strlit("\"bytes_per_seq\": ");
    reveal_strlit("}, \"bytes_per_seq\": ");
    let none = Seq::<char>::empty();
    let end = "},\n  "@;
    let k0 = "\"capacity\": {\"ctx\": "@;
    let k1 = ", \"max_sequences\": {\"low\": "@;
    let k2 = ", \"bytes_per_seq\": "@;
    let n0 = "\"ctx\": "@;
    let n1 = "\"max_sequences\": {\"low\": "@;
    let n2 = "\"bytes_per_seq\": "@;
    assert(k0 =~= "\"capacity\": {"@ + n0);
    assert(k1 =~= ", "@ + n1);
    assert(k2 =~= ", "@ + n2);
    assert("}, \"bytes_per_seq\": "@ =~= "}"@ + k2);
    let x = text::digits(r.ctx as nat);
    let y = text::digits(r.bytes_per_seq as nat);
    let t0 = text::integer(r.max_seqs.0 as int);
    let t1 = text::integer(r.max_seqs.1 as int);
    let t2 = text::integer(r.max_seqs.2 as int);
    let a = k0 + x + k1;
    let q1 = t0 + ", \"best\": "@;
    let q2 = q1 + t1;
    let q3 = q2 + ", \"high\": "@;
    let q4 = q3 + t2;
    let seqs = q4 + "}"@;
    let c = render::capacity_json(r);
    assert(c == a + t0 + ", \"best\": "@ + t1 + ", \"high\": "@ + t2 + ("}"@ + k2) + y + end);
    assert(a + t0 + ", \"best\": "@ =~= a + q1);
    assert(a + q1 + t1 =~= a + q2);
    assert(a + q2 + ", \"high\": "@ =~= a + q3);
    assert(a + q3 + t2 =~= a + q4);
    assert(a + q4 + ("}"@ + k2) =~= a + seqs + k2);
    assert(c == a + seqs + k2 + y + end);
    lemma_named(a + seqs, ", "@, n2, y, end);
    lemma_json_parts(r, n2 + y);
    let c1 = k2 + y + end;
    assert(c =~= k0 + x + k1 + seqs + c1);
    lemma_named(k0 + x, ", "@, n1, seqs, c1);
    lemma_json_parts(r, n1 + seqs);
    let c0 = k1 + seqs + c1;
    assert(c =~= none + k0 + x + c0);
    lemma_named(none, "\"capacity\": {"@, n0, x, c0);
    lemma_json_parts(r, n0 + x);
}

/// Whole GiB are shown as such.
pub proof fn law_whole_gib_are_shown_whole(n: nat)
    requires
        n < 0x40_0000,
    ensures
        render::gibibytes(Datum::of_nat(n * 1_073_741_824)) == text::digits(n) + "."@ + seq!['0'],
{
    let one = binary64::one();
    let g: nat = 1_073_741_824;
    let big = n * g;
    lemma_pow2_pos(1074);
    lemma_pow2_pos(2098);
    assert(big < TWO_53) by (nonlinear_arith)
        requires
            big == n * g,
            n < 0x40_0000,
            g == 1_073_741_824,
            TWO_53 == 0x20_0000_0000_0000,
    ;
    binary64::lemma_of_nat_exact(big);
    binary64::lemma_of_nat_exact(g);
    binary64::lemma_of_nat_exact(n);
    let q = Datum::of_nat(big).over(Datum::of_nat(g));
    let y = g * one;
    assert(y > 0);
    assert((big * one) * one == n * (pow2(1074) * y)) by (nonlinear_arith)
        requires
            big == n * g,
            y == g * one,
            one == pow2(1074),
    ;
    rounding::lemma_rounded_exact((big * one) * one, y, n, 1074);
    assert(q == Datum::of_nat(n)) by {
        reveal(Datum::over);
        reveal(Datum::of_nat);
        assert(n * one == n * (pow2(1074) * 1));
        rounding::lemma_rounded_exact(n * one, 1, n, 1074);
    }
    reveal(decimal::fixed);
    reveal_strlit("");
    reveal_with_fuel(decimal::pow10, 2);
    reveal_with_fuel(decimal::last_digits, 2);
    let t = (n * one) * 10;
    assert(t == (10 * n) * one + 0) by (nonlinear_arith)
        requires
            t == (n * one) * 10,
    ;
    rounding::lemma_nearest(t, one, 10 * n, 0);
    assert((10 * n) / 10 == n);
    assert(text::digit(10 * n) == '0');
    assert(decimal::last_digits(10 * n, 1) =~= seq!['0']);
    assert(decimal::sign(false) =~= Seq::empty());
    assert(render::gibibytes(Datum::of_nat(big)) =~= text::digits(n) + "."@ + seq!['0']);
}

proof fn lemma_width_bounds(n: nat)
    requires
        n > 0,
    ensures
        decimal::width(n) >= 1,
        decimal::pow10((decimal::width(n) - 1) as nat) <= n < decimal::pow10(decimal::width(n)),
    decreases n,
{
    reveal_with_fuel(decimal::pow10, 2);
    if n >= 10 {
        lemma_width_bounds(n / 10);
        assert(decimal::width(n) == decimal::width(n / 10) + 1);
    }
}

proof fn lemma_pow10_adds(a: nat, b: nat)
    ensures
        decimal::pow10(a + b) == decimal::pow10(a) * decimal::pow10(b),
    decreases a,
{
    let y = decimal::pow10(b);
    if a > 0 {
        lemma_pow10_adds((a - 1) as nat, b);
        let x = decimal::pow10((a - 1) as nat);
        assert((10 * x) * y == 10 * (x * y)) by (nonlinear_arith);
    } else {
        assert(1 * y == y);
    }
}

/// A number in scientific notation has five digits, the first of them not zero, and they
/// are the nearest to it at their exponent. Numbers are counted in 10^-1074 here, in which
/// they are whole.
pub proof fn law_scientific_is_nearest(mag: nat)
    requires
        mag > 0,
    ensures
        exists|lead: nat, step: nat|
            #![trigger decimal::pointed(lead, 4), decimal::pow10(step)]
            {
                let n = mag * decimal::pow5(1074);
                &&& decimal::scientific(Datum::Finite { neg: false, mag }) == decimal::pointed(
                    lead,
                    4,
                ) + "e"@ + text::integer(step - 1070)
                &&& 10000 <= lead < 100000
                &&& 2 * rounding::distance(lead, n, decimal::pow10(step)) <= decimal::pow10(step)
            },
{
    reveal(decimal::scientific);
    reveal_strlit("");
    let n = mag * decimal::pow5(1074);
    decimal::lemma_pow5_large(1074);
    assert(n >= 390625) by (nonlinear_arith)
        requires
            n == mag * decimal::pow5(1074),
            mag >= 1,
            decimal::pow5(1074) >= 390625,
    ;
    let w = decimal::width(n);
    lemma_width_bounds(n);
    reveal_with_fuel(decimal::pow10, 7);
    if w <= 5 {
        assert(w == 1 || w == 2 || w == 3 || w == 4 || w == 5);
        assert(false);
    }
    let c = (w - 5) as nat;
    let t = decimal::pow10(c);
    decimal::lemma_pow10_pos(c);
    lemma_pow10_adds(4, c);
    lemma_pow10_adds(5, c);
    let v = rounding::nearest(n, t);
    let q = n / t;
    let r = n % t;
    vstd::arithmetic::div_mod::lemma_fundamental_div_mod(n as int, t as int);
    vstd::arithmetic::div_mod::lemma_mod_bound(n as int, t as int);
    assert(n == q * t + r) by (nonlinear_arith)
        requires
            n == t * q + r,
    ;
    rounding::lemma_nearest(n, t, q, r);
    assert((q + 1) * t == q * t + t) by (nonlinear_arith);
    assert(q >= 10000) by (nonlinear_arith)
        requires
            n == q * t + r,
            r < t,
            n >= 10000 * t,
    ;
    assert(q < 100000) by (nonlinear_arith)
        requires
            n == q * t + r,
            r >= 0,
            n < 100000 * t,
    ;
    assert(2 * rounding::distance(v, n, t) <= t);
    assert(decimal::sign(false) =~= Seq::empty());
    let shown = decimal::scientific(Datum::Finite { neg: false, mag });
    assert(shown =~= decimal::scaled(mag));
    if v < 100000 {
        assert(shown == decimal::pointed(v, 4) + "e"@ + text::integer(c - 1070));
        assert(decimal::pow10(c) == t);
    } else {
        let s = c + 1;
        assert(decimal::pow10(s) == 10 * t);
        assert(v == 100000);
        assert(10000 * (10 * t) == 100000 * t);
        assert(rounding::distance(10000, n, 10 * t) == rounding::distance(v, n, t));
        assert(shown == decimal::pointed(10000, 4) + "e"@ + text::integer(s - 1070));
    }
}

/// An interval under its name: low, best and high in their places, and whether it was
/// measured.
pub open spec fn in_order(
    name: Seq<char>,
    low: Datum,
    best: Datum,
    high: Datum,
    calibrated: bool,
) -> Seq<char> {
    name + "{\"low\": "@ + decimal::scientific(low) + ", \"best\": "@ + decimal::scientific(best)
        + ", \"high\": "@ + decimal::scientific(high) + ", \"calibrated\": "@ + text::boolean(
        calibrated,
    ) + "}"@
}

proof fn lemma_in_order(name: Seq<char>, b: Band)
    requires
        !b.exact,
    ensures
        in_order(name, b.low, b.best, b.high, b.calibrated) == name + render::interval_json(b),
{
    let p0 = "{\"low\": "@;
    let p1 = p0 + decimal::scientific(b.low);
    let p2 = p1 + ", \"best\": "@;
    let p3 = p2 + decimal::scientific(b.best);
    let p4 = p3 + ", \"high\": "@;
    let p5 = p4 + decimal::scientific(b.high);
    let p6 = p5 + ", \"calibrated\": "@;
    let p7 = p6 + text::boolean(b.calibrated);
    assert(name + p1 =~= name + p0 + decimal::scientific(b.low));
    assert(name + p2 =~= name + p1 + ", \"best\": "@);
    assert(name + p3 =~= name + p2 + decimal::scientific(b.best));
    assert(name + p4 =~= name + p3 + ", \"high\": "@);
    assert(name + p5 =~= name + p4 + decimal::scientific(b.high));
    assert(name + p6 =~= name + p5 + ", \"calibrated\": "@);
    assert(name + p7 =~= name + p6 + text::boolean(b.calibrated));
    assert(name + (p7 + "}"@) =~= name + p7 + "}"@);
}

/// The JSON holds the weights, and the intervals of the memory, with low, best and high in
/// their places.
pub proof fn law_json_holds_the_memory(r: FitReport)
    ensures
        text::occurs_in(
            "\"weights_bytes\": "@ + ("{\"best\": "@ + decimal::scientific(
                Datum::of_nat(r.weights as nat),
            ) + ", \"exact\": true}"@),
            render::json_text(r),
        ),
        !r.overhead.exact ==> text::occurs_in(
            in_order(
                "\"overhead_bytes\": "@,
                r.overhead.low@,
                r.overhead.best@,
                r.overhead.high@,
                r.overhead.calibrated,
            ),
            render::json_text(r),
        ),
        !r.kv_pool.exact ==> text::occurs_in(
            in_order(
                "\"kv_pool_bytes\": "@,
                r.kv_pool.low@,
                r.kv_pool.best@,
                r.kv_pool.high@,
                r.kv_pool.calibrated,
            ),
            render::json_text(r),
        ),
{
    reveal_strlit(", ");
    reveal_strlit("\"memory\": {");
    reveal_strlit("\"weights_bytes\": ");
    reveal_strlit("\"memory\": {\"weights_bytes\": ");
    reveal_strlit("\"overhead_bytes\": ");
    reveal_strlit(", \"overhead_bytes\": ");
    reveal_strlit("\"kv_pool_bytes\": ");
    reveal_strlit(", \"kv_pool_bytes\": ");
    let w = render::interval_json(Band::point(Datum::of_nat(r.weights as nat)));
    let o = render::interval_json(r.overhead@);
    let p = render::interval_json(r.kv_pool@);
    let none = Seq::<char>::empty();
    let end = "},\n  "@;
    let k0 = "\"memory\": {\"weights_bytes\": "@;
    let k1 = ", \"overhead_bytes\": "@;
    let k2 = ", \"kv_pool_bytes\": "@;
    let n0 = "\"weights_bytes\": "@;
    let n1 = "\"overhead_bytes\": "@;
    let n2 = "\"kv_pool_bytes\": "@;
    assert(k0 =~= "\"memory\": {"@ + n0);
    assert(k1 =~= ", "@ + n1);
    assert(k2 =~= ", "@ + n2);
    let m = render::memory_json(r);
    assert(m == k0 + w + k1 + o + k2 + p + end);
    lemma_named(k0 + w + k1 + o, ", "@, n2, p, end);
    lemma_json_parts(r, n2 + p);
    let c1 = k2 + p + end;
    assert(m =~= k0 + w + k1 + o + c1);
    lemma_named(k0 + w, ", "@, n1, o, c1);
    lemma_json_parts(r, n1 + o);
    let c0 = k1 + o + c1;
    assert(m =~= none + k0 + w + c0);
    lemma_named(none, "\"memory\": {"@, n0, w, c0);
    lemma_json_parts(r, n0 + w);
    if !r.overhead.exact {
        lemma_in_order(n1, r.overhead@);
    }
    if !r.kv_pool.exact {
        lemma_in_order(n2, r.kv_pool@);
    }
}

/// The JSON holds the intervals of the speed, with low, best and high in their places, and
/// the ridge.
pub proof fn law_json_holds_the_speed(r: FitReport)
    ensures
        !r.ttft.exact ==> text::occurs_in(
            in_order("\"ttft_s\": "@, r.ttft.low@, r.ttft.best@, r.ttft.high@, r.ttft.calibrated),
            render::json_text(r),
        ),
        !r.decode.exact ==> text::occurs_in(
            in_order(
                "\"decode_tok_s\": "@,
                r.decode.low@,
                r.decode.best@,
                r.decode.high@,
                r.decode.calibrated,
            ),
            render::json_text(r),
        ),
        text::occurs_in(
            "\"ridge_batch\": "@ + decimal::fixed(r.ridge_batch@, 0),
            render::json_text(r),
        ),
{
    reveal_strlit(", ");
    reveal_strlit("\"speed\": {");
    reveal_strlit("\"ttft_s\": ");
    reveal_strlit("\"speed\": {\"ttft_s\": ");
    reveal_strlit("\"decode_tok_s\": ");
    reveal_strlit(", \"decode_tok_s\": ");
    reveal_strlit("\"ridge_batch\": ");
    reveal_strlit(", \"regime\": \"memory_bound\", ");
    reveal_strlit(", \"regime\": \"memory_bound\", \"ridge_batch\": ");
    let t = render::interval_json(r.ttft@);
    let d = render::interval_json(r.decode@);
    let g = decimal::fixed(r.ridge_batch@, 0);
    let none = Seq::<char>::empty();
    let end = "},\n  "@;
    let l2 = ", \"regime\": \"memory_bound\", "@;
    let k0 = "\"speed\": {\"ttft_s\": "@;
    let k1 = ", \"decode_tok_s\": "@;
    let k2 = ", \"regime\": \"memory_bound\", \"ridge_batch\": "@;
    let n0 = "\"ttft_s\": "@;
    let n1 = "\"decode_tok_s\": "@;
    let n2 = "\"ridge_batch\": "@;
    assert(k0 =~= "\"speed\": {"@ + n0);
    assert(k1 =~= ", "@ + n1);
    assert(k2 =~= l2 + n2);
    let m = render::speed_json(r);
    assert(m == k0 + t + k1 + d + k2 + g + end);
    lemma_named(k0 + t + k1 + d, l2, n2, g, end);
    lemma_json_parts(r, n2 + g);
    let c1 = k2 + g + end;
    assert(m =~= k0 + t + k1 + d + c1);
    lemma_named(k0 + t, ", "@, n1, d, c1);
    lemma_json_parts(r, n1 + d);
    let c0 = k1 + d + c1;
    assert(m =~= none + k0 + t + c0);
    lemma_named(none, "\"speed\": {"@, n0, t, c0);
    lemma_json_parts(r, n0 + t);
    if !r.ttft.exact {
        lemma_in_order(n0, r.ttft@);
    }
    if !r.decode.exact {
        lemma_in_order(n1, r.decode@);
    }
}

/// The JSON names the model with its parameters and layers, and the engine.
pub proof fn law_json_names_the_setup(r: FitReport)
    ensures
        text::occurs_in("\"id\": \""@ + r.model.id@, render::json_text(r)),
        text::occurs_in("\"kv_kind\": \""@ + r.model.kv_kind@, render::json_text(r)),
        text::occurs_in(
            "\"params\": "@ + text::digits(r.model.n_params as nat),
            render::json_text(r),
        ),
        text::occurs_in(
            "\"layers\": "@ + text::digits(r.model.layers as nat),
            render::json_text(r),
        ),
{
    reveal_strlit("{\n  \"model\": {");
    reveal_strlit("{\n  \"model\": {\"id\": \"");
    reveal_strlit("\"id\": \"");
    reveal_strlit("\", ");
    reveal_strlit(", ");
    reveal_strlit("\"kv_kind\": \"");
    reveal_strlit("\", \"kv_kind\": \"");
    reveal_strlit("\"params\": ");
    reveal_strlit("\", \"params\": ");
    reveal_strlit("\"layers\": ");
    reveal_strlit(", \"layers\": ");
    let m = render::model_json(r);
    let none = Seq::<char>::empty();
    let end = "},\n  "@;
    let k0 = "{\n  \"model\": {\"id\": \""@;
    let k1 = "\", \"kv_kind\": \""@;
    let k2 = "\", \"params\": "@;
    let k3 = ", \"layers\": "@;
    let n0 = "\"id\": \""@;
    let n1 = "\"kv_kind\": \""@;
    let n2 = "\"params\": "@;
    let n3 = "\"layers\": "@;
    assert(k0 =~= "{\n  \"model\": {"@ + n0);
    assert(k1 =~= "\", "@ + n1);
    assert(k2 =~= "\", "@ + n2);
    assert(k3 =~= ", "@ + n3);
    let x0 = r.model.id@;
    let x1 = r.model.kv_kind@;
    let x2 = text::digits(r.model.n_params as nat);
    let x3 = text::digits(r.model.layers as nat);
    assert(m == k0 + x0 + k1 + x1 + k2 + x2 + k3 + x3 + end);
    lemma_named(k0 + x0 + k1 + x1 + k2 + x2, ", "@, n3, x3, end);
    lemma_json_parts(r, n3 + x3);
    let c2 = k3 + x3 + end;
    assert(m =~= k0 + x0 + k1 + x1 + k2 + x2 + c2);
    lemma_named(k0 + x0 + k1 + x1, "\", "@, n2, x2, c2);
    lemma_json_parts(r, n2 + x2);
    let c1 = k2 + x2 + c2;
    assert(m =~= k0 + x0 + k1 + x1 + c1);
    lemma_named(k0 + x0, "\", "@, n1, x1, c1);
    lemma_json_parts(r, n1 + x1);
    let c0 = k1 + x1 + c1;
    assert(m =~= none + k0 + x0 + c0);
    lemma_named(none, "{\n  \"model\": {"@, n0, x0, c0);
    lemma_json_parts(r, n0 + x0);
}

/// The JSON names the engine, and the share of memory that it was told, if it was.
pub proof fn law_json_names_the_engine(r: FitReport)
    ensures
        text::occurs_in("\"name\": \""@ + r.engine_name@, render::json_text(r)),
        r.util matches Some(u) ==> text::occurs_in(
            "\"util\": "@ + decimal::fixed(u@, 2),
            render::json_text(r),
        ),
        r.util is None ==> text::occurs_in("\"util\": "@ + "null"@, render::json_text(r)),
{
    reveal_strlit("\"engine\": {");
    reveal_strlit("\"engine\": {\"name\": \"");
    reveal_strlit("\"name\": \"");
    reveal_strlit("\", ");
    reveal_strlit("\"util\": ");
    reveal_strlit("\", \"util\": ");
    let e = render::engine_json(r);
    let none = Seq::<char>::empty();
    let end = "},\n  "@;
    let k0 = "\"engine\": {\"name\": \""@;
    let k1 = "\", \"util\": "@;
    let n0 = "\"name\": \""@;
    let n1 = "\"util\": "@;
    assert(k0 =~= "\"engine\": {"@ + n0);
    assert(k1 =~= "\", "@ + n1);
    let x0 = r.engine_name@;
    let x1 = render::util_json(r.util);
    assert(e == k0 + x0 + k1 + x1 + end);
    lemma_named(k0 + x0, "\", "@, n1, x1, end);
    lemma_json_parts(r, n1 + x1);
    let c0 = k1 + x1 + end;
    assert(e =~= none + k0 + x0 + c0);
    lemma_named(none, "\"engine\": {"@, n0, x0, c0);
    lemma_json_parts(r, n0 + x0);
}

/// The JSON lists every recommendation and every thing that is not modeled.
pub proof fn law_json_lists_everything(r: FitReport, i: int)
    ensures
        0 <= i < r.recommendations@.len() ==> text::occurs_in(
            "{\"change\": \""@ + r.recommendations@[i].0@ + "\", \"effect\": \""@
                + r.recommendations@[i].1@ + "\"}"@,
            render::json_text(r),
        ),
        0 <= i < r.not_modeled@.len() ==> text::occurs_in(
            "\""@ + r.not_modeled@[i]@ + "\""@,
            render::json_text(r),
        ),
{
    let changes = render::changes_json(fit::texts(r.recommendations@));
    let left = render::quoted(render::labels(r.not_modeled@));
    let c = text::joined(changes, ", "@);
    let l = text::joined(left, ", "@);
    let p1 = "\"recommendations\": ["@;
    let p2 = "],\n  \"not_modeled\": ["@;
    let p3 = "],\n  \"calibrated\": "@;
    let b = text::boolean(r.calibrated);
    if 0 <= i < r.recommendations@.len() {
        let x = changes[i];
        lemma_joined_part(changes, ", "@, i);
        lemma_ends(x, p1, c);
        lemma_ends(x, p1 + c, p2);
        lemma_ends(x, p1 + c + p2, l);
        lemma_ends(x, p1 + c + p2 + l, p3);
        lemma_ends(x, p1 + c + p2 + l + p3, b);
        lemma_ends(x, p1 + c + p2 + l + p3 + b, "\n}"@);
        lemma_json_parts(r, x);
    }
    if 0 <= i < r.not_modeled@.len() {
        let x = left[i];
        lemma_joined_part(left, ", "@, i);
        lemma_ends(x, p1 + c + p2, l);
        lemma_ends(x, p1 + c + p2 + l, p3);
        lemma_ends(x, p1 + c + p2 + l + p3, b);
        lemma_ends(x, p1 + c + p2 + l + p3 + b, "\n}"@);
        lemma_json_parts(r, x);
    }
}

/// A negative number is shown as its opposite behind a minus sign, in both notations; what
/// is no number or infinite is shown as such.
pub proof fn law_signs_are_shown(x: Datum, places: nat)
    ensures
        x matches Datum::Finite { neg, mag } ==> neg ==> {
            let opposite = Datum::Finite { neg: false, mag };
            &&& decimal::fixed(x, places) == "-"@ + decimal::fixed(opposite, places)
            &&& decimal::scientific(x) == "-"@ + decimal::scientific(opposite)
        },
        x is Nan ==> decimal::fixed(x, places) == "NaN"@ && decimal::scientific(x) == "NaN"@,
        x matches Datum::Infinite { neg } ==> {
            let shown = if neg {
                "-inf"@
            } else {
                "inf"@
            };
            decimal::fixed(x, places) == shown && decimal::scientific(x) == shown
        },
{
    reveal(decimal::fixed);
    reveal(decimal::scientific);
    reveal_strlit("");
    reveal_strlit("-");
    reveal_strlit("inf");
    reveal_strlit("-inf");
    match x {
        Datum::Finite { neg, mag } => {
            let opposite = Datum::Finite { neg: false, mag };
            let f = decimal::pointed(
                rounding::nearest(mag * decimal::pow10(places), binary64::one()),
                places,
            );
            assert(decimal::sign(false) + f =~= f);
            let s = decimal::scaled(mag);
            assert(decimal::sign(false) + s =~= s);
            assert(decimal::sign(false) + "0.0000e0"@ =~= "0.0000e0"@);
        },
        Datum::Infinite { neg } => {
            assert(decimal::sign(true) + "inf"@ =~= "-inf"@);
            assert(decimal::sign(false) + "inf"@ =~= "inf"@);
        },
        _ => {},
    }
}

proof fn lemma_gpu_line_occurs(gpus: Seq<DetectedGpu>, i: int)
    requires
        0 <= i < gpus.len(),
    ensures
        text::occurs_in(detect::gpu_line(gpus[i]), detect::gpu_lines(gpus)),
    decreases gpus.len(),
{
    let x = detect::gpu_line(gpus[i]);
    let front = detect::gpu_lines(gpus.drop_last());
    let last = detect::gpu_line(gpus.last());
    if i < gpus.len() - 1 {
        lemma_gpu_line_occurs(gpus.drop_last(), i);
        assert(gpus.drop_last()[i] == gpus[i]);
    } else {
        let none = Seq::<char>::empty();
        lemma_part(none, x, none);
        assert(none + x + none =~= x);
    }
    lemma_ends(x, front, last);
}

/// The list of the GPUs of a machine counts them, and has a line for each: its index and
/// name, its memory in GB, and the name, architecture and interconnect of what it is
/// matched to.
pub proof fn law_every_gpu_is_listed(gpus: Seq<DetectedGpu>, i: int, d: Device)
    requires
        0 <= i < gpus.len(),
        detect::is_match(
            d,
            detect::lowercase(gpus[i].name@),
            gpus[i].name@,
            gpus[i].vram_bytes,
        ),
    ensures
        text::occurs_in(
            "detected "@ + text::digits(gpus.len()) + " GPU(s):\n"@,
            detect::devices_text(gpus),
        ),
        text::occurs_in(
            "  ["@ + text::digits(gpus[i].index as nat) + "] "@ + gpus[i].name@ + "  ("@
                + decimal::fixed(
                Datum::of_nat(gpus[i].vram_bytes as nat).over(Datum::of_nat(1_000_000_000)),
                0,
            ) + " GB)  → "@ + d.name@ + " · "@ + d.arch@ + " · "@ + d.interconnect@ + "\n"@,
            detect::devices_text(gpus),
        ),
{
    let x = detect::gpu_line(gpus[i]);
    let lines = detect::gpu_lines(gpus);
    let head = "detected "@ + text::digits(gpus.len()) + " GPU(s):\n"@;
    let tail = "\nuse:  --gpu auto   (all)   ·   --gpu auto:N   (N of them)"@;
    lemma_gpu_line_occurs(gpus, i);
    lemma_ends(x, head, lines);
    lemma_ends(x, head + lines, tail);
    let none = Seq::<char>::empty();
    lemma_part(none, head, lines + tail);
    assert(none + head + (lines + tail) =~= head + lines + tail);
}

} // verus!
