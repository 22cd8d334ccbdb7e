//! Laws of what is read and written: numbers, flags, listings, advice and boxes.

use crate::binary64;
use crate::binary64::Datum;
use crate::choice;
use crate::cli;
use crate::cli::{Settings, Wish};
use crate::decimal;
use crate::detect;
use crate::detect::{DetectedGpu, Probe, Row};
use crate::fit;
use crate::fit::FitReport;
use crate::registry;
use crate::render;
use crate::rounding;
use crate::sizing::{
    Allocator, Band, Calibration, Device, DeviceSet, Fp8, ModelShape, QuantScheme, Workload,
};
use crate::text;
use vstd::prelude::*;

verus! {

proof fn lemma_digits_read_back(n: nat)
    ensures
        text::number(text::digits(n)) == Some(n),
        text::digits(n).len() > 0,
        text::is_digit(text::digits(n)[0]),
        forall|i: int|
            0 <= i < text::digits(n).len() ==> text::is_digit(#[trigger] text::digits(n)[i]),
    decreases n,
{
    let s = text::digits(n);
    if n < 10 {
        assert(s.drop_last() =~= Seq::<char>::empty());
        assert(text::number(s.drop_last()) == Some(0nat));
        assert(s.last() == text::digit(n));
    } else {
        lemma_digits_read_back(n / 10);
        assert(s.drop_last() =~= text::digits(n / 10));
        assert(s.last() == text::digit(n));
    }
}

/// A number that is written in decimal reads back as itself.
pub proof fn law_numbers_read_back(n: nat, max: nat)
    requires
        n <= max,
    ensures
        text::unsigned(text::digits(n), max) == Some(n),
{
    lemma_digits_read_back(n);
}

pub proof fn lemma_first(s: Seq<char>, t: Seq<char>, c: char)
    requires
        !s.contains(c),
    ensures
        text::first(s + seq![c] + t, c) == s.len(),
    decreases s.len(),
{
    let all = s + seq![c] + t;
    if s.len() > 0 {
        assert(all[0] == s[0]);
        assert(s.contains(s[0]));
        let rest = s.skip(1);
        assert forall|x: char| rest.contains(x) implies s.contains(x) by {
            let i = choose|i: int| 0 <= i < rest.len() && rest[i] == x;
            assert(s[i + 1] == x);
        }
        lemma_first(rest, t, c);
        assert(all.skip(1) =~= rest + seq![c] + t);
    } else {
        assert(all[0] == c);
    }
}

/// A device and a count, written as a value of `--gpu`, read back as themselves.
pub proof fn law_gpu_values_read_back(name: Seq<char>, count: u32)
    requires
        !name.contains(':'),
        !text::starts_with(name, "auto"@),
    ensures
        cli::wish(name + ":"@ + text::digits(count as nat)) == Ok::<Wish, Seq<char>>(
            Wish::Named(name, count),
        ),
{
    let number = text::digits(count as nat);
    let all = name + ":"@ + number;
    reveal_strlit(":");
    reveal_strlit("auto");
    assert(":"@ =~= seq![':']);
    lemma_first(name, number, ':');
    law_numbers_read_back(count as nat, u32::MAX as nat);
    assert(all.skip(name.len() as int + 1) =~= number);
    assert(all.take(name.len() as int) =~= name);
    if text::starts_with(all, "auto"@) {
        lemma_digits_read_back(count as nat);
        let head = all.take(4);
        assert(head =~= seq!['a', 'u', 't', 'o']);
        assert(forall|i: int| 0 <= i < 4 ==> all[i] == head[i]);
        assert(all[name.len() as int] == ':');
        assert(name.len() >= 4);
        assert(name.take(4) =~= head);
        assert(false);
    }
}

/// The larger set that is looked for is the smallest of two, four and eight devices
/// that is more than there is and serves.
pub proof fn law_larger_set_is_the_first_that_serves<E: Allocator + ?Sized>(
    m: ModelShape,
    hw: DeviceSet,
    weight: Datum,
    e: &E,
    w: Workload,
    overhead: Band,
)
    ensures
        match fit::larger_set(m, hw, weight, e, w, overhead, 2) {
            Some(count) => {
                &&& count == 2 || count == 4 || count == 8
                &&& count > hw.count
                &&& fit::holds(m, fit::with_count(hw, count), weight, e, w, overhead) >= 1
                &&& forall|n: u32|
                    (n == 2 || n == 4) && hw.count < n < count ==> fit::holds(
                        m,
                        #[trigger] fit::with_count(hw, n),
                        weight,
                        e,
                        w,
                        overhead,
                    ) < 1
            },
            None => forall|n: u32|
                (n == 2 || n == 4 || n == 8) && hw.count < n ==> fit::holds(
                    m,
                    #[trigger] fit::with_count(hw, n),
                    weight,
                    e,
                    w,
                    overhead,
                ) < 1,
        },
{
    reveal_with_fuel(fit::larger_set, 4);
}

proof fn lemma_changes_differ(name: Seq<char>, count: nat)
    ensures
        "--gpu "@ + name + ":"@ + text::digits(count) != "--dtype fp8"@,
{
    reveal_strlit("--gpu ");
    reveal_strlit("--dtype fp8");
    let change = "--gpu "@ + name + ":"@ + text::digits(count);
    assert(change[2] == 'g');
    assert("--dtype fp8"@[2] == 'd');
}

/// Where a report recommends weights in fp8, the model serves with them, as many
/// sequences as the report says.
pub proof fn law_fp8_advice_holds<Q: QuantScheme + ?Sized, E: Allocator + ?Sized>(
    r: FitReport,
    r8: FitReport,
    m: ModelShape,
    hw: DeviceSet,
    q: &Q,
    e: &E,
    w: Workload,
    c: Calibration,
)
    requires
        fit::reports(r, m, hw, q, e, w, c),
        fit::reports(r8, m, hw, &Fp8, e, w, c),
        r.recommendations@.len() > 0,
        fit::texts(r.recommendations@)[0].0 == "--dtype fp8"@,
    ensures
        r8.serves,
        fit::texts(r.recommendations@)[0].1 == "~"@ + text::integer(r8.max_seqs.1 as int)
            + " seqs @"@ + text::digits((w.ctx / 1024) as nat) + "k"@,
{
    let weight = q.weight();
    let o = c.overhead@;
    assert(Fp8.weight() == Datum::of_nat(1));
    assert(fit::texts(r.recommendations@).len() == r.recommendations@.len());
    if fit::holds(m, hw, Datum::of_nat(1), e, w, o) < 1 {
        match fit::larger_set(m, hw, weight, e, w, o, 2) {
            Some(count) => {
                lemma_changes_differ(hw.device.name@, count as nat);
            },
            None => {},
        }
    }
}

proof fn lemma_digits_injective(a: nat, b: nat)
    requires
        text::digits(a) == text::digits(b),
    ensures
        a == b,
{
    lemma_digits_read_back(a);
    lemma_digits_read_back(b);
}

/// The count that a report recommends is the one that was looked for.
pub proof fn lemma_gpu_advice<Q: QuantScheme + ?Sized, E: Allocator + ?Sized>(
    r: FitReport,
    count: u32,
    m: ModelShape,
    hw: DeviceSet,
    q: &Q,
    e: &E,
    w: Workload,
    c: Calibration,
)
    requires
        fit::reports(r, m, hw, q, e, w, c),
        fit::texts(r.recommendations@).contains(
            ("--gpu "@ + hw.device.name@ + ":"@ + text::digits(count as nat), "fits"@),
        ),
    ensures
        !r.serves,
        fit::larger_set(m, hw, q.weight(), e, w, c.overhead@, 2) == Some(count),
{
    let weight = q.weight();
    let o = c.overhead@;
    let prefix = "--gpu "@ + hw.device.name@ + ":"@;
    let wanted = prefix + text::digits(count as nat);
    let list = fit::texts(r.recommendations@);
    let i = choose|i: int| 0 <= i < list.len() && list[i] == (wanted, "fits"@);
    lemma_changes_differ(hw.device.name@, count as nat);
    match fit::larger_set(m, hw, weight, e, w, o, 2) {
        Some(found) => {
            let given = prefix + text::digits(found as nat);
            assert(list[i].0 == given);
            let n = prefix.len() as int;
            assert(given.skip(n) =~= text::digits(found as nat));
            assert(wanted.skip(n) =~= text::digits(count as nat));
            lemma_digits_injective(found as nat, count as nat);
        },
        None => {},
    }
}

/// Where a report recommends a larger set of devices, it is larger, and the model
/// serves on it.
pub proof fn law_gpu_advice_holds<Q: QuantScheme + ?Sized, E: Allocator + ?Sized>(
    r: FitReport,
    larger: FitReport,
    count: u32,
    m: ModelShape,
    hw: DeviceSet,
    q: &Q,
    e: &E,
    w: Workload,
    c: Calibration,
)
    requires
        fit::reports(r, m, hw, q, e, w, c),
        fit::reports(larger, m, fit::with_count(hw, count), q, e, w, c),
        fit::texts(r.recommendations@).contains(
            ("--gpu "@ + hw.device.name@ + ":"@ + text::digits(count as nat), "fits"@),
        ),
    ensures
        count > hw.count,
        larger.serves,
{
    lemma_gpu_advice(r, count, m, hw, q, e, w, c);
    law_larger_set_is_the_first_that_serves(m, hw, q.weight(), e, w, c.overhead@);
}

pub proof fn lemma_no_line_is_wider(lines: Seq<Seq<char>>, i: int)
    requires
        0 <= i < lines.len(),
    ensures
        lines[i].len() <= render::widest(lines),
    decreases lines.len(),
{
    if i < lines.len() - 1 {
        lemma_no_line_is_wider(lines.drop_last(), i);
        assert(lines.drop_last()[i] == lines[i]);
    }
}

proof fn lemma_row_len(line: Seq<char>, width: nat)
    requires
        line.len() <= width,
    ensures
        render::boxed_line(line, width).len() == width + 5,
{
    reveal_strlit("│ ");
    reveal_strlit(" │\n");
}

proof fn lemma_rows(lines: Seq<Seq<char>>, width: nat, i: int)
    requires
        0 <= i < lines.len(),
        forall|k: int| 0 <= k < lines.len() ==> (#[trigger] lines[k]).len() <= width,
    ensures
        render::boxed_lines(lines, width).len() == lines.len() * (width + 5),
        i * (width + 5) + (width + 5) <= lines.len() * (width + 5),
        render::boxed_lines(lines, width).subrange(
            i * (width + 5),
            i * (width + 5) + (width + 5),
        ) == render::boxed_line(lines[i], width),
    decreases lines.len(),
{
    let k = width + 5;
    let n = lines.len();
    let before = lines.drop_last();
    let head = render::boxed_lines(before, width);
    let tail = render::boxed_line(lines.last(), width);
    lemma_row_len(lines.last(), width);
    if n > 1 {
        lemma_rows(
            before,
            width,
            if i < n - 1 {
                i
            } else {
                0
            },
        );
    }
    assert(head.len() == (n - 1) * k) by {
        if n == 1 {
            assert(0 * k == 0);
        }
    }
    assert((n - 1) * k + k == n * k) by (nonlinear_arith);
    if i < n - 1 {
        assert(before[i] == lines[i]);
        assert(render::boxed_lines(lines, width).subrange(i * k, i * k + k) =~= head.subrange(
            i * k,
            i * k + k,
        ));
    } else {
        assert(render::boxed_lines(lines, width).subrange(i * k, i * k + k) =~= tail);
    }
}

/// The rows of a box are equally long, its bars among them, and each holds its line
/// in full, from the third character on.
pub proof fn law_box_rows_align(lines: Seq<Seq<char>>, i: int)
    requires
        0 <= i < lines.len(),
    ensures
        ({
            let k = render::widest(lines) + 5;
            let shown = render::boxed_text(lines);
            let row = shown.subrange((i + 1) * k, (i + 1) * k + k);
            &&& shown.len() == (lines.len() + 2) * k
            &&& (i + 1) * k + k <= shown.len()
            &&& row == render::boxed_line(lines[i], render::widest(lines))
            &&& row.subrange(2, 2 + lines[i].len() as int) == lines[i]
        }),
{
    let width = render::widest(lines);
    let k = width + 5;
    let n = lines.len();
    assert forall|j: int| 0 <= j < lines.len() implies (#[trigger] lines[j]).len() <= width by {
        lemma_no_line_is_wider(lines, j);
    }
    lemma_rows(lines, width, i);
    reveal_strlit("╭");
    reveal_strlit("╮\n");
    reveal_strlit("╰");
    reveal_strlit("╯\n");
    reveal_strlit("│ ");
    let bar = text::repeated('─', width + 2);
    let top = "╭"@ + bar + "╮\n"@;
    let body = render::boxed_lines(lines, width);
    let shown = render::boxed_text(lines);
    assert(top.len() == k);
    assert((n + 2) * k == k + n * k + k) by (nonlinear_arith);
    assert((i + 1) * k == k + i * k) by (nonlinear_arith);
    assert(shown.subrange((i + 1) * k, (i + 1) * k + k) =~= body.subrange(i * k, i * k + k));
    let row = render::boxed_line(lines[i], width);
    assert(row.subrange(2, 2 + lines[i].len() as int) =~= lines[i]);
}

proof fn lemma_arguments_compose(
    first: Seq<Seq<char>>,
    second: Seq<Seq<char>>,
    i: int,
    so_far: Settings,
)
    requires
        0 <= i <= first.len(),
        cli::parsed(first, i, so_far) is Ok,
    ensures
        cli::parsed(first + second, i, so_far) == cli::parsed(
            first + second,
            first.len() as int,
            cli::parsed(first, i, so_far)->Ok_0,
        ),
    decreases first.len() - i,
{
    let all = first + second;
    if i < first.len() {
        assert(all[i] == first[i]);
        if cli::takes_value(first[i]) {
            assert(all[i + 1] == first[i + 1]);
            let next = so_far.with_value(first[i], first[i + 1])->Ok_0;
            lemma_arguments_compose(first, second, i + 2, next);
        } else {
            let next = so_far.with_word(first[i])->Ok_0;
            lemma_arguments_compose(first, second, i + 1, next);
        }
    }
}

proof fn lemma_arguments_shift(
    first: Seq<Seq<char>>,
    second: Seq<Seq<char>>,
    i: int,
    so_far: Settings,
)
    requires
        0 <= i,
    ensures
        cli::parsed(first + second, first.len() + i, so_far) == cli::parsed(second, i, so_far),
    decreases second.len() - i,
{
    let all = first + second;
    let at = first.len() + i;
    if i < second.len() {
        assert(all[at] == second[i]);
        if cli::takes_value(second[i]) {
            if i + 1 < second.len() {
                assert(all[at + 1] == second[i + 1]);
                if let Ok(next) = so_far.with_value(second[i], second[i + 1]) {
                    lemma_arguments_shift(first, second, i + 2, next);
                }
            }
        } else if let Ok(next) = so_far.with_word(second[i]) {
            lemma_arguments_shift(first, second, i + 1, next);
        }
    }
}

/// Arguments act one after the other: those behind a valid row of them go on from
/// what that row has set, so that of two values for one flag the later one counts.
pub proof fn law_arguments_compose(
    first: Seq<Seq<char>>,
    second: Seq<Seq<char>>,
    so_far: Settings,
)
    requires
        cli::parsed(first, 0, so_far) is Ok,
    ensures
        cli::parsed(first + second, 0, so_far) == cli::parsed(
            second,
            0,
            cli::parsed(first, 0, so_far)->Ok_0,
        ),
{
    lemma_arguments_compose(first, second, 0, so_far);
    lemma_arguments_shift(first, second, 0, cli::parsed(first, 0, so_far)->Ok_0);
}

/// With `--gpu auto` there is at least one device, and never more than were found.
pub proof fn law_granted_is_in_range(want: Option<u32>, available: int)
    requires
        1 <= available,
    ensures
        1 <= cli::granted(want, available) <= available,
        want matches Some(n) ==> 1 <= n <= available ==> cli::granted(want, available) == n,
{
}

/// Every id that a detected name is matched to stands in the registry.
pub proof fn law_matches_are_known(lowered: Seq<char>, vram_bytes: u64)
    ensures
        detect::id_of(lowered, vram_bytes) == ""@ || registry::known_device(
            detect::id_of(lowered, vram_bytes),
        ) is Some,
{
}

/// A detected device is one of the registry under its id, with everything that the
/// registry knows of it, its memory included; or it carries the detected name and
/// memory and nothing else.
pub proof fn law_matches_are_whole_or_bare(
    d: Device,
    lowered: Seq<char>,
    name: Seq<char>,
    vram_bytes: u64,
)
    requires
        detect::is_match(d, lowered, name, vram_bytes),
    ensures
        (exists|id: Seq<char>|
            (#[trigger] registry::known_device(id)) is Some && registry::is_device(
                d,
                id + " (detected)"@,
                registry::known_device(id)->0,
            )) || {
            &&& d.name@ == name + " (detected, specs unknown)"@
            &&& d.vram_bytes == vram_bytes
            &&& d.mem_bw_bytes_s == 0
            &&& d.peak_flops@ == Datum::of_nat(0)
        },
{
    let id = detect::id_of(lowered, vram_bytes);
    assert(registry::known_device(id) is Some || registry::known_device(id) is None);
}

/// The case of ASCII letters does not decide what a GPU is matched to: two names that
/// differ in nothing else, matched as `match_device` matches them, are both unknown or
/// give the same device.
pub proof fn law_letter_case_does_not_decide(
    a: Device,
    b: Device,
    name_a: Seq<char>,
    name_b: Seq<char>,
    vram_bytes: u64,
)
    requires
        detect::folded(name_a) == detect::folded(name_b),
        detect::is_match(a, detect::lowercase(detect::folded(name_a)), name_a, vram_bytes),
        detect::is_match(b, detect::lowercase(detect::folded(name_b)), name_b, vram_bytes),
    ensures
        a.name@ == b.name@ || (a.name@ == name_a + " (detected, specs unknown)"@ && b.name@
            == name_b + " (detected, specs unknown)"@),
        a.vram_bytes == b.vram_bytes,
        a.mem_bw_bytes_s == b.mem_bw_bytes_s,
        a.peak_flops@ == b.peak_flops@,
        a.arch@ == b.arch@,
        a.interconnect@ == b.interconnect@,
{
}

pub proof fn lemma_split_plain(s: Seq<char>, sep: char)
    requires
        !s.contains(sep),
    ensures
        text::split(s, sep) == seq![s],
    decreases s.len(),
{
    if s.len() > 0 {
        let front = s.drop_last();
        assert(s.contains(s.last()));
        assert forall|x: char| front.contains(x) implies s.contains(x) by {
            let i = choose|i: int| 0 <= i < front.len() && front[i] == x;
            assert(s[i] == x);
        }
        lemma_split_plain(front, sep);
        assert(front.push(s.last()) =~= s);
        assert(text::split(s, sep) =~= seq![s]);
    } else {
        assert(s =~= Seq::empty());
    }
}

pub proof fn lemma_split_behind(a: Seq<char>, b: Seq<char>, sep: char)
    requires
        !b.contains(sep),
    ensures
        text::split(a + seq![sep] + b, sep) == text::split(a, sep).push(b),
    decreases b.len(),
{
    let all = a + seq![sep] + b;
    if b.len() > 0 {
        let front = b.drop_last();
        assert(b.contains(b.last()));
        assert forall|x: char| front.contains(x) implies b.contains(x) by {
            let i = choose|i: int| 0 <= i < front.len() && front[i] == x;
            assert(b[i] == x);
        }
        lemma_split_behind(a, front, sep);
        assert(all.drop_last() =~= a + seq![sep] + front);
        assert(all.last() == b.last());
        assert(front.push(b.last()) =~= b);
        let before = text::split(a, sep).push(front);
        assert(before.drop_last() =~= text::split(a, sep));
    } else {
        assert(b =~= Seq::empty());
        assert(all.drop_last() =~= a);
        assert(all.last() == sep);
    }
}

/// No white space at either end.
pub open spec fn is_trimmed(s: Seq<char>) -> bool {
    s.len() > 0 ==> !text::is_white(s[0]) && !text::is_white(s.last())
}

proof fn lemma_trim_blank(s: Seq<char>)
    requires
        is_trimmed(s),
    ensures
        text::trimmed(" "@ + s) == s,
        text::trimmed(s) == s,
{
    reveal_strlit(" ");
    let blank = " "@ + s;
    assert(blank[0] == ' ');
    assert(blank.skip(1) =~= s);
    assert(text::trimmed_front(s) == s);
    assert(text::trimmed_front(blank) == s);
}

/// A line of the listing reads back as the index, the name and the memory that it was
/// written from.
pub proof fn law_listing_lines_read_back(index: u32, name: Seq<char>, mib: u64)
    requires
        !name.contains(','),
        is_trimmed(name),
    ensures
        detect::row_of(
            text::digits(index as nat) + ", "@ + name + ", "@ + text::digits(mib as nat),
        ) == Some(Row { index: index as nat, name, mib: mib as nat }),
{
    let a = text::digits(index as nat);
    let b = text::digits(mib as nat);
    let line = a + ", "@ + name + ", "@ + b;
    lemma_digits_read_back(index as nat);
    lemma_digits_read_back(mib as nat);
    law_numbers_read_back(index as nat, u32::MAX as nat);
    law_numbers_read_back(mib as nat, u64::MAX as nat);
    reveal_strlit(", ");
    reveal_strlit(" ");
    let second = " "@ + name;
    let third = " "@ + b;
    assert(line =~= a + seq![','] + second + seq![','] + third);
    assert(!a.contains(','));
    assert forall|i: int| 0 <= i < second.len() implies second[i] != ',' by {
        if i > 0 {
            assert(second[i] == name[i - 1]);
            assert(name.contains(name[i - 1]));
        }
    }
    assert forall|i: int| 0 <= i < third.len() implies third[i] != ',' by {
        if i > 0 {
            assert(third[i] == b[i - 1]);
        }
    }
    lemma_split_plain(a, ',');
    lemma_split_behind(a, second, ',');
    lemma_split_behind(a + seq![','] + second, third, ',');
    lemma_trim_blank(a);
    lemma_trim_blank(name);
    lemma_trim_blank(b);
}

/// The names of engines differ.
pub proof fn lemma_engine_names()
    ensures
        "vllm"@ != "llamacpp"@,
        "vllm"@ != "llama.cpp"@,
{
    reveal_strlit("vllm");
    reveal_strlit("llamacpp");
    reveal_strlit("llama.cpp");
    assert("vllm"@.len() == 4);
    assert("llamacpp"@.len() == 8);
    assert("llama.cpp"@.len() == 9);
}

/// The flags differ, and none of them is `--json`.
proof fn lemma_flags_differ()
    ensures
        "--gpu"@ != "--engine"@ && "--gpu"@ != "--dtype"@ && "--gpu"@ != "--kv-cache-dtype"@
            && "--gpu"@ != "--ctx"@ && "--gpu"@ != "--prompt"@ && "--gpu"@ != "--json"@,
        "--engine"@ != "--dtype"@ && "--engine"@ != "--kv-cache-dtype"@ && "--engine"@ != "--ctx"@
            && "--engine"@ != "--prompt"@ && "--engine"@ != "--json"@,
        "--dtype"@ != "--kv-cache-dtype"@ && "--dtype"@ != "--ctx"@ && "--dtype"@ != "--prompt"@
            && "--dtype"@ != "--json"@,
        "--kv-cache-dtype"@ != "--ctx"@ && "--kv-cache-dtype"@ != "--prompt"@
            && "--kv-cache-dtype"@ != "--json"@,
        "--ctx"@ != "--prompt"@ && "--ctx"@ != "--json"@ && "--prompt"@ != "--json"@,
{
    reveal_strlit("--gpu");
    reveal_strlit("--engine");
    reveal_strlit("--dtype");
    reveal_strlit("--kv-cache-dtype");
    reveal_strlit("--ctx");
    reveal_strlit("--prompt");
    reveal_strlit("--json");
    assert("--gpu"@[2] == 'g' && "--engine"@[2] == 'e' && "--dtype"@[2] == 'd');
    assert("--kv-cache-dtype"@[2] == 'k' && "--ctx"@[2] == 'c' && "--prompt"@[2] == 'p');
    assert("--json"@[2] == 'j');
}

proof fn lemma_one_flag(flag: Seq<char>, value: Seq<char>, s: Settings)
    requires
        cli::takes_value(flag),
    ensures
        cli::parsed(seq![flag, value], 0, s) == s.with_value(flag, value),
{
    let args = seq![flag, value];
    assert(args[0] == flag && args[1] == value);
    match s.with_value(flag, value) {
        Ok(next) => {
            assert(cli::parsed(args, 2, next) == Ok::<Settings, Seq<char>>(next));
        },
        Err(_) => {},
    }
}

/// Each flag sets its own setting, to any value, and no other.
pub proof fn law_flags_set_their_settings(s: Settings, word: Seq<char>, n: u32)
    ensures
        cli::parsed(seq!["--gpu"@, word], 0, s) == Ok::<Settings, Seq<char>>(
            Settings { gpu: word, ..s },
        ),
        cli::parsed(seq!["--engine"@, word], 0, s) == Ok::<Settings, Seq<char>>(
            Settings { engine: word, ..s },
        ),
        cli::parsed(seq!["--dtype"@, word], 0, s) == Ok::<Settings, Seq<char>>(
            Settings { dtype: word, ..s },
        ),
        cli::parsed(seq!["--kv-cache-dtype"@, "fp8"@], 0, s) == Ok::<Settings, Seq<char>>(
            Settings { kv_bytes: 1, ..s },
        ),
        cli::parsed(seq!["--kv-cache-dtype"@, "fp16"@], 0, s) == Ok::<Settings, Seq<char>>(
            Settings { kv_bytes: 2, ..s },
        ),
        cli::parsed(seq!["--kv-cache-dtype"@, "bf16"@], 0, s) == Ok::<Settings, Seq<char>>(
            Settings { kv_bytes: 2, ..s },
        ),
        cli::parsed(seq!["--ctx"@, text::digits(n as nat)], 0, s) == Ok::<Settings, Seq<char>>(
            Settings { ctx: n, ..s },
        ),
        cli::parsed(seq!["--prompt"@, text::digits(n as nat)], 0, s) == Ok::<Settings, Seq<char>>(
            Settings { prompt: n, ..s },
        ),
        cli::parsed(seq!["--json"@], 0, s) == Ok::<Settings, Seq<char>>(
            Settings { json: true, ..s },
        ),
{
    lemma_flags_differ();
    law_numbers_read_back(n as nat, u32::MAX as nat);
    lemma_one_flag("--gpu"@, word, s);
    lemma_one_flag("--engine"@, word, s);
    lemma_one_flag("--dtype"@, word, s);
    lemma_one_flag("--kv-cache-dtype"@, "fp8"@, s);
    lemma_one_flag("--kv-cache-dtype"@, "fp16"@, s);
    lemma_one_flag("--kv-cache-dtype"@, "bf16"@, s);
    lemma_one_flag("--ctx"@, text::digits(n as nat), s);
    lemma_one_flag("--prompt"@, text::digits(n as nat), s);
    reveal_strlit("fp8");
    reveal_strlit("fp16");
    reveal_strlit("bf16");
    assert("fp8"@.len() == 3 && "fp16"@.len() == 4 && "bf16"@.len() == 4);
    let args = seq!["--json"@];
    assert(args[0] == "--json"@);
    let next = Settings { json: true, ..s };
    assert(s.with_word("--json"@) == Ok::<Settings, Seq<char>>(next));
    assert(cli::parsed(args, 1, next) == Ok::<Settings, Seq<char>>(next));
}

/// A word that is no flag is the model, once; a second one is refused, and so is a flag
/// that is not known or lacks its value.
pub proof fn law_words_are_models(s: Settings, word: Seq<char>)
    requires
        !text::starts_with(word, "--"@),
    ensures
        s.model is None ==> cli::parsed(seq![word], 0, s) == Ok::<Settings, Seq<char>>(
            Settings { model: Some(word), ..s },
        ),
        s.model is Some ==> cli::parsed(seq![word], 0, s) is Err,
{
    let args = seq![word];
    assert(args[0] == word);
    reveal_strlit("--");
    reveal_strlit("--gpu");
    reveal_strlit("--engine");
    reveal_strlit("--dtype");
    reveal_strlit("--kv-cache-dtype");
    reveal_strlit("--ctx");
    reveal_strlit("--prompt");
    reveal_strlit("--json");
    assert("--gpu"@.take(2) =~= "--"@ && "--engine"@.take(2) =~= "--"@ && "--dtype"@.take(2)
        =~= "--"@ && "--kv-cache-dtype"@.take(2) =~= "--"@ && "--ctx"@.take(2) =~= "--"@
        && "--prompt"@.take(2) =~= "--"@ && "--json"@.take(2) =~= "--"@);
    if s.model is None {
        let next = Settings { model: Some(word), ..s };
        assert(s.with_word(word) == Ok::<Settings, Seq<char>>(next));
        assert(cli::parsed(args, 1, next) == Ok::<Settings, Seq<char>>(next));
    }
}

proof fn lemma_no_first(s: Seq<char>, c: char)
    requires
        !s.contains(c),
    ensures
        text::first(s, c) == s.len(),
    decreases s.len(),
{
    if s.len() > 0 {
        assert(s.contains(s[0]));
        let rest = s.skip(1);
        assert forall|x: char| rest.contains(x) implies s.contains(x) by {
            let i = choose|i: int| 0 <= i < rest.len() && rest[i] == x;
            assert(s[i + 1] == x);
        }
        lemma_no_first(rest, c);
    }
}

/// `auto` asks for all GPUs of the machine and `auto:N` for so many; a name without a
/// count asks for one device.
pub proof fn law_short_gpu_values(name: Seq<char>, count: u32)
    requires
        !name.contains(':'),
        !text::starts_with(name, "auto"@),
    ensures
        cli::wish("auto"@) == Ok::<Wish, Seq<char>>(Wish::Auto(None)),
        cli::wish("auto:"@ + text::digits(count as nat)) == Ok::<Wish, Seq<char>>(
            Wish::Auto(Some(count)),
        ),
        cli::wish(name) == Ok::<Wish, Seq<char>>(Wish::Named(name, 1)),
{
    reveal_strlit("auto");
    reveal_strlit("auto:");
    assert("auto"@.take(4) =~= "auto"@);
    assert("auto"@.skip(4).len() == 0);
    let all = "auto:"@ + text::digits(count as nat);
    assert(all.take(4) =~= "auto"@);
    assert(all.skip(4)[0] == ':');
    assert(all.skip(4).skip(1) =~= text::digits(count as nat));
    law_numbers_read_back(count as nat, u32::MAX as nat);
    lemma_no_first(name, ':');
}

/// With `--gpu auto` the device is the match of the first GPU that was found; with a name
/// it is that of the registry, in any number.
pub proof fn law_devices_follow_the_wish(hw: DeviceSet, wish: Wish, probe: Probe)
    requires
        cli::is_hw(hw, wish, probe),
        cli::hw_trouble(wish, probe) is None,
    ensures
        match wish {
            Wish::Named(id, n) => hw.count == n && hw.device.name@ == id,
            Wish::Auto(want) => {
                let rows = detect::probed(probe);
                &&& rows.len() > 0
                &&& rows.len() < 0x1_0000_0000 ==> {
                    &&& 1 <= hw.count <= rows.len()
                    &&& want is None ==> hw.count == rows.len()
                    &&& want matches Some(n) ==> 1 <= n <= rows.len() ==> hw.count == n
                    &&& want matches Some(n) ==> n > rows.len() ==> hw.count == rows.len()
                }
                &&& detect::is_match(
                    hw.device,
                    detect::lowercase(rows[0].name),
                    rows[0].name,
                    (rows[0].mib * 1024 * 1024) as u64,
                )
            },
        },
{
}

proof fn lemma_split_parts(a: Seq<char>, b: Seq<char>, sep: char)
    ensures
        text::split(a + seq![sep] + b, sep) == text::split(a, sep) + text::split(b, sep),
        text::split(b, sep).len() > 0,
    decreases b.len(),
{
    let all = a + seq![sep] + b;
    if b.len() == 0 {
        assert(b =~= Seq::empty());
        assert(all.drop_last() =~= a);
        assert(all.last() == sep);
        assert(text::split(a, sep).push(Seq::empty()) =~= text::split(a, sep) + text::split(
            b,
            sep,
        ));
    } else {
        let front = b.drop_last();
        lemma_split_parts(a, front, sep);
        assert(all.drop_last() =~= a + seq![sep] + front);
        assert(all.last() == b.last());
        let x = text::split(a, sep);
        let y = text::split(front, sep);
        if b.last() == sep {
            assert((x + y).push(Seq::empty()) =~= x + y.push(Seq::empty()));
        } else {
            assert((x + y).last() == y.last());
            assert((x + y).drop_last().push(y.last().push(b.last())) =~= x + y.drop_last().push(
                y.last().push(b.last()),
            ));
        }
    }
}

proof fn lemma_rows_parts(a: Seq<Seq<char>>, b: Seq<Seq<char>>)
    ensures
        detect::rows_of(a + b) == detect::rows_of(a) + detect::rows_of(b),
    decreases b.len(),
{
    if b.len() == 0 {
        assert(a + b =~= a);
        assert(detect::rows_of(a) + detect::rows_of(b) =~= detect::rows_of(a));
    } else {
        lemma_rows_parts(a, b.drop_last());
        assert((a + b).drop_last() =~= a + b.drop_last());
        assert((a + b).last() == b.last());
        let x = detect::rows_of(a);
        let y = detect::rows_of(b.drop_last());
        match detect::row_of(b.last()) {
            Some(row) => {
                assert((x + y).push(row) =~= x + y.push(row));
            },
            None => {},
        }
    }
}

/// A listing reads line by line: the GPUs of two listings, one below the other, are those
/// of the first and then those of the second.
pub proof fn law_listings_read_line_by_line(a: Seq<char>, b: Seq<char>)
    ensures
        detect::listed(a + seq!['\n'] + b) == detect::listed(a) + detect::listed(b),
{
    lemma_split_parts(a, b, '\n');
    lemma_rows_parts(text::split(a, '\n'), text::split(b, '\n'));
}

proof fn lemma_listed_line(index: u32, name: Seq<char>, mib: u64)
    requires
        !name.contains(','),
        !name.contains('\n'),
        is_trimmed(name),
    ensures
        detect::listed(
            text::digits(index as nat) + ", "@ + name + ", "@ + text::digits(mib as nat),
        ) == seq![Row { index: index as nat, name, mib: mib as nat }],
{
    let a = text::digits(index as nat);
    let b = text::digits(mib as nat);
    let line = a + ", "@ + name + ", "@ + b;
    law_listing_lines_read_back(index, name, mib);
    lemma_digits_read_back(index as nat);
    lemma_digits_read_back(mib as nat);
    reveal_strlit(", ");
    assert forall|i: int| 0 <= i < line.len() implies line[i] != '\n' by {
        let n = a.len();
        let k = name.len();
        if i < n {
            assert(line[i] == a[i]);
        } else if i < n + 2 {
            assert(line[i] == ", "@[i - n]);
        } else if i < n + 2 + k {
            assert(line[i] == name[i - n - 2]);
            assert(name.contains(name[i - n - 2]));
        } else if i < n + 4 + k {
            assert(line[i] == ", "@[i - n - 2 - k]);
        } else {
            assert(line[i] == b[i - n - 4 - k]);
        }
    }
    assert(!line.contains('\n'));
    lemma_split_plain(line, '\n');
    let lines = seq![line];
    assert(lines.drop_last() =~= Seq::empty());
    assert(lines.last() == line);
    assert(detect::rows_of(lines.drop_last()) =~= Seq::empty());
    let row = Row { index: index as nat, name, mib: mib as nat };
    assert(detect::rows_of(lines) =~= seq![row]);
}

/// A listing of one line that was written from an index, a name and a count of MiB is one
/// GPU with those; its memory is counted in bytes.
pub proof fn law_listed_gpus_read_back(
    gpus: Seq<DetectedGpu>,
    index: u32,
    name: Seq<char>,
    mib: u64,
)
    requires
        !name.contains(','),
        !name.contains('\n'),
        is_trimmed(name),
        detect::are_gpus(
            gpus,
            detect::listed(
                text::digits(index as nat) + ", "@ + name + ", "@ + text::digits(mib as nat),
            ),
        ),
    ensures
        gpus.len() == 1,
        gpus[0].index == index,
        gpus[0].name@ == name,
        gpus[0].vram_bytes == mib * 1_048_576,
{
    lemma_listed_line(index, name, mib);
    let row = Row { index: index as nat, name, mib: mib as nat };
    assert(detect::is_gpu(gpus[0], row));
}

/// The reported memory decides between the two A100 alone.
pub proof fn law_memory_decides_only_between_a100(
    lowered: Seq<char>,
    small: u64,
    large: u64,
)
    ensures
        !text::occurs_in("a100"@, lowered) ==> detect::id_of(lowered, small) == detect::id_of(
            lowered,
            large,
        ),
        (small < 60_000_000_000) == (large < 60_000_000_000) ==> detect::id_of(lowered, small)
            == detect::id_of(lowered, large),
        text::occurs_in("40"@, lowered) ==> detect::id_of(lowered, small) == detect::id_of(
            lowered,
            large,
        ),
{
}

/// Cards by what their names hold, where no other card's mark is in them: whatever the
/// memory is, but for the A100.
pub proof fn law_marks_decide(lowered: Seq<char>, vram_bytes: u64)
    ensures
        ({
            let id = detect::id_of(lowered, vram_bytes);
            let h200 = text::occurs_in("h200"@, lowered);
            let h100 = text::occurs_in("h100"@, lowered);
            let b200 = text::occurs_in("b200"@, lowered);
            let a100 = text::occurs_in("a100"@, lowered);
            let l40s = text::occurs_in("l40s"@, lowered);
            let r50 = text::occurs_in("5090"@, lowered);
            let r40 = text::occurs_in("4090"@, lowered);
            let r30 = text::occurs_in("3090"@, lowered);
            let mi = text::occurs_in("mi300"@, lowered);
            &&& h200 ==> id == "h200-141gb"@
            &&& h100 && !h200 ==> id == "h100-80gb"@
            &&& b200 && !h200 && !h100 ==> id == "b200-192gb"@
            &&& a100 && !h200 && !h100 && !b200 ==> id == (if vram_bytes < 60_000_000_000
                || text::occurs_in("40"@, lowered) {
                "a100-40gb"@
            } else {
                "a100-80gb"@
            })
            &&& l40s && !(h200 || h100 || b200 || a100) ==> id == "l40s-48gb"@
            &&& r50 && !(h200 || h100 || b200 || a100 || l40s) ==> id == "rtx5090-32gb"@
            &&& r40 && !(h200 || h100 || b200 || a100 || l40s || r50) ==> id == "rtx4090-24gb"@
            &&& r30 && !(h200 || h100 || b200 || a100 || l40s || r50 || r40) ==> id
                == "rtx3090-24gb"@
            &&& mi && !(h200 || h100 || b200 || a100 || l40s || r50 || r40 || r30) ==> id
                == "mi300x-192gb"@
            &&& !(h200 || h100 || b200 || a100 || l40s || r50 || r40 || r30 || mi) ==> id == ""@
        }),
{
    if text::occurs_in("gb200"@, lowered) {
        reveal_strlit("gb200");
        reveal_strlit("b200");
        let i = choose|i: int| text::occurs_at(lowered, "gb200"@, i);
        let part = lowered.subrange(i, i + 5);
        assert(part =~= "gb200"@);
        assert(part.subrange(1, 5) =~= "b200"@);
        assert(lowered.subrange(i + 1, i + 5) =~= part.subrange(1, 5));
        assert(text::occurs_at(lowered, "b200"@, i + 1));
    }
}

/// Only the names of the registry are known.
pub proof fn law_registry_is_closed(name: Seq<char>)
    ensures
        registry::known_model(name) is Some ==> seq![
            "llama-2-7b"@,
            "llama-3-8b"@,
            "llama-3-70b"@,
            "mistral-7b"@,
            "qwen2.5-7b"@,
            "deepseek-r1-distill-14b"@,
            "mixtral-8x7b"@,
            "deepseek-v2-lite"@,
            "deepseek-r1"@,
        ].contains(name),
        registry::known_device(name) is Some ==> seq![
            "a100-40gb"@,
            "a100-80gb"@,
            "rtx3090-24gb"@,
            "h100-80gb"@,
            "h200-141gb"@,
            "l40s-48gb"@,
            "rtx4090-24gb"@,
            "b200-192gb"@,
            "gb200-192gb"@,
            "rtx5090-32gb"@,
            "mi300x-192gb"@,
        ].contains(name),
        registry::known_quant(name) is Some ==> seq![
            "fp16"@,
            "bf16"@,
            "fp8"@,
            "int8"@,
            "q8_0"@,
            "q6_k"@,
            "q5_k_m"@,
            "q4_k_m"@,
            "q4km"@,
            "q4_0"@,
            "q3_k_m"@,
            "q2_k"@,
            "awq"@,
            "awq-int4"@,
            "gptq"@,
            "gptq-int4"@,
        ].contains(name),
        choice::known_engine(name) is Some ==> seq!["vllm"@, "llamacpp"@, "llama.cpp"@].contains(
            name,
        ),
        choice::known_kv_dtype(name) is Some ==> seq!["fp16"@, "bf16"@, "fp8"@].contains(name),
{
    let models = seq![
        "llama-2-7b"@,
        "llama-3-8b"@,
        "llama-3-70b"@,
        "mistral-7b"@,
        "qwen2.5-7b"@,
        "deepseek-r1-distill-14b"@,
        "mixtral-8x7b"@,
        "deepseek-v2-lite"@,
        "deepseek-r1"@,
    ];
    if registry::known_model(name) is Some {
        assert(name == models[0] || name == models[1] || name == models[2] || name == models[3]
            || name == models[4] || name == models[5] || name == models[6] || name == models[7]
            || name == models[8]);
    }
    let devices = seq![
        "a100-40gb"@,
        "a100-80gb"@,
        "rtx3090-24gb"@,
        "h100-80gb"@,
        "h200-141gb"@,
        "l40s-48gb"@,
        "rtx4090-24gb"@,
        "b200-192gb"@,
        "gb200-192gb"@,
        "rtx5090-32gb"@,
        "mi300x-192gb"@,
    ];
    if registry::known_device(name) is Some {
        assert(name == devices[0] || name == devices[1] || name == devices[2] || name == devices[3]
            || name == devices[4] || name == devices[5] || name == devices[6] || name == devices[7]
            || name == devices[8] || name == devices[9] || name == devices[10]);
    }
    let quants = seq![
        "fp16"@,
        "bf16"@,
        "fp8"@,
        "int8"@,
        "q8_0"@,
        "q6_k"@,
        "q5_k_m"@,
        "q4_k_m"@,
        "q4km"@,
        "q4_0"@,
        "q3_k_m"@,
        "q2_k"@,
        "awq"@,
        "awq-int4"@,
        "gptq"@,
        "gptq-int4"@,
    ];
    if registry::known_quant(name) is Some {
        assert(name == quants[0] || name == quants[1] || name == quants[2] || name == quants[3]
            || name == quants[4] || name == quants[5] || name == quants[6] || name == quants[7]
            || name == quants[8] || name == quants[9] || name == quants[10] || name == quants[11]
            || name == quants[12] || name == quants[13] || name == quants[14] || name
            == quants[15]);
    }
    let engines = seq!["vllm"@, "llamacpp"@, "llama.cpp"@];
    if choice::known_engine(name) is Some {
        assert(name == engines[0] || name == engines[1] || name == engines[2]);
    }
    let dtypes = seq!["fp16"@, "bf16"@, "fp8"@];
    if choice::known_kv_dtype(name) is Some {
        assert(name == dtypes[0] || name == dtypes[1] || name == dtypes[2]);
    }
}

proof fn lemma_pointed(n: nat, places: nat)
    ensures
        text::number(
            text::digits(n / decimal::pow10(places)) + decimal::last_digits(n, places),
        ) == Some(n),
        decimal::last_digits(n, places).len() == places,
    decreases places,
{
    let head = text::digits(n / decimal::pow10(places));
    let tail = decimal::last_digits(n, places);
    if places == 0 {
        assert(n / 1 == n);
        assert(head + tail =~= head);
        lemma_digits_read_back(n);
    } else {
        let p = (places - 1) as nat;
        lemma_pointed(n / 10, p);
        decimal::lemma_pow10_pos(p);
        vstd::arithmetic::div_mod::lemma_div_denominator(
            n as int,
            10,
            decimal::pow10(p) as int,
        );
        let all = head + tail;
        assert(all.drop_last() =~= text::digits((n / 10) / decimal::pow10(p))
            + decimal::last_digits(n / 10, p));
        assert(all.last() == text::digit(n));
    }
}

/// A number shown with a fixed count of places has that many digits behind its point, and
/// all its digits together are the number of that many places nearest to it.
pub proof fn law_shown_numbers_are_nearest(mag: nat, places: nat, other: nat)
    requires
        places > 0,
    ensures
        ({
            let x = Datum::Finite { neg: false, mag };
            let unit = binary64::one();
            exists|head: Seq<char>, tail: Seq<char>, n: nat|
                #![trigger text::number(head + tail), rounding::distance(n, mag, unit)]
                {
                    &&& decimal::fixed(x, places) == head + "."@ + tail
                    &&& tail.len() == places
                    &&& text::number(head + tail) == Some(n)
                    &&& rounding::distance(n, mag * decimal::pow10(places), unit)
                        <= rounding::distance(other, mag * decimal::pow10(places), unit)
                }
        }),
{
    let x = Datum::Finite { neg: false, mag };
    let unit = binary64::one();
    let total = mag * decimal::pow10(places);
    vstd::arithmetic::power2::lemma_pow2_pos(1074);
    let n = rounding::nearest(total, unit);
    reveal(decimal::fixed);
    reveal_strlit("");
    lemma_pointed(n, places);
    rounding::lemma_nearest_is_nearest(total, unit, other);
    let head = text::digits(n / decimal::pow10(places));
    let tail = decimal::last_digits(n, places);
    assert(decimal::sign(false) =~= Seq::empty());
    assert(decimal::fixed(x, places) =~= head + "."@ + tail);
    assert(text::number(head + tail) == Some(n));
    assert(rounding::distance(n, mag, unit) >= 0);
}

/// A flag that is not known is refused, and so is one that lacks its value, whatever is
/// set already.
pub proof fn law_bad_flags_are_refused(s: Settings, word: Seq<char>)
    requires
        text::starts_with(word, "--"@),
        word != "--json"@,
    ensures
        cli::parsed(seq![word], 0, s) == Err::<Settings, Seq<char>>(
            if word == "--gpu"@ || word == "--engine"@ || word == "--dtype"@ || word
                == "--kv-cache-dtype"@ || word == "--ctx"@ || word == "--prompt"@ {
                "missing value for "@ + word
            } else {
                "unknown flag "@ + word
            },
        ),
{
    let args = seq![word];
    assert(args[0] == word);
}

/// A count of tokens that is no number, or too large a one, is refused.
pub proof fn law_bad_numbers_are_refused(s: Settings, word: Seq<char>)
    requires
        text::unsigned(word, u32::MAX as nat) is None,
    ensures
        cli::parsed(seq!["--ctx"@, word], 0, s) == Err::<Settings, Seq<char>>(
            "--ctx must be an integer"@,
        ),
        cli::parsed(seq!["--prompt"@, word], 0, s) == Err::<Settings, Seq<char>>(
            "--prompt must be an integer"@,
        ),
{
    lemma_flags_differ();
    lemma_one_flag("--ctx"@, word, s);
    lemma_one_flag("--prompt"@, word, s);
}

/// A number with anything but digits behind an optional plus sign is none.
pub proof fn law_only_digits_are_numbers(s: Seq<char>, i: int, max: nat)
    requires
        0 <= i < s.len(),
        !text::is_digit(s[i]),
        i > 0 || s[0] != '+',
    ensures
        text::unsigned(s, max) is None,
{
    if s[0] == '+' {
        lemma_no_number(s.skip(1), i - 1);
    } else {
        lemma_no_number(s, i);
    }
}

proof fn lemma_no_number(s: Seq<char>, i: int)
    requires
        0 <= i < s.len(),
        !text::is_digit(s[i]),
    ensures
        text::number(s) is None,
    decreases s.len(),
{
    if i < s.len() - 1 {
        lemma_no_number(s.drop_last(), i);
    }
}

/// A GPU that was listed, with a memory that fits in 64 bits of bytes, is found.
pub proof fn law_listed_gpus_are_found(listing: String, index: u32, name: Seq<char>, mib: u64)
    requires
        !name.contains(','),
        !name.contains('\n'),
        is_trimmed(name),
        mib * 1_048_576 <= u64::MAX,
        listing@ == text::digits(index as nat) + ", "@ + name + ", "@ + text::digits(mib as nat),
    ensures
        detect::complaint(Probe::Listing(listing)) is None,
        detect::probed(Probe::Listing(listing)) == seq![
            Row { index: index as nat, name, mib: mib as nat },
        ],
{
    lemma_listed_line(index, name, mib);
}

/// Cutting a text at a separator and joining the pieces with it gives the text back.
pub proof fn law_cut_texts_join(s: Seq<char>, sep: char)
    ensures
        text::joined(text::split(s, sep), seq![sep]) == s,
        text::split(s, sep).len() > 0,
    decreases s.len(),
{
    let all = text::split(s, sep);
    if s.len() == 0 {
        assert(s =~= Seq::empty());
    } else {
        let front = s.drop_last();
        law_cut_texts_join(front, sep);
        let before = text::split(front, sep);
        let gap = seq![sep];
        if s.last() == sep {
            assert(all.drop_last() =~= before);
            assert(all.last() =~= Seq::<char>::empty());
            assert(text::joined(all, gap) == front + gap + all.last());
            assert(front + gap + all.last() =~= s);
        } else {
            let last = before.last().push(s.last());
            assert(all.drop_last() =~= before.drop_last());
            assert(all.last() == last);
            if before.len() == 1 {
                assert(text::joined(all, gap) == last);
                assert(last =~= s);
            } else {
                let head = text::joined(before.drop_last(), gap);
                assert(text::joined(all, gap) == head + gap + last);
                assert(front == head + gap + before.last());
                assert(head + gap + last =~= (head + gap + before.last()).push(s.last()));
                assert(front.push(s.last()) =~= s);
            }
        }
    }
}

/// What is left of a text after trimming has no white space at its ends.
pub proof fn law_trimmed_texts_are_trimmed(s: Seq<char>)
    ensures
        is_trimmed(text::trimmed(s)),
        is_trimmed(s) ==> text::trimmed(s) == s,
{
    lemma_trimmed_front(s);
    lemma_trimmed_back(text::trimmed_front(s));
}

proof fn lemma_trimmed_front(s: Seq<char>)
    ensures
        text::trimmed_front(s).len() > 0 ==> !text::is_white(text::trimmed_front(s)[0]),
    decreases s.len(),
{
    if s.len() > 0 && text::is_white(s[0]) {
        lemma_trimmed_front(s.skip(1));
    }
}

proof fn lemma_trimmed_back(s: Seq<char>)
    ensures
        text::trimmed_back(s).len() > 0 ==> !text::is_white(text::trimmed_back(s).last())
            && text::trimmed_back(s)[0] == s[0] && s.len() > 0,
    decreases s.len(),
{
    if s.len() > 0 && text::is_white(s.last()) {
        lemma_trimmed_back(s.drop_last());
    }
}

/// A number above the largest that is allowed is none, and a plus sign in front of a number
/// changes nothing.
pub proof fn law_large_numbers_are_refused(n: nat, max: nat, s: Seq<char>)
    ensures
        n > max ==> text::unsigned(text::digits(n), max) is None,
        s.len() == 0 || s[0] != '+' ==> text::unsigned("+"@ + s, max) == text::unsigned(s, max),
        text::unsigned(Seq::empty(), max) is None,
{
    lemma_digits_read_back(n);
    let d = text::digits(n);
    assert(text::is_digit(d[0]));
    reveal_strlit("+");
    assert(("+"@ + s).skip(1) =~= s);
}

/// Integers below zero have a minus sign in front of their digits; truth values are words.
pub proof fn law_integers_and_truth_are_shown(n: nat, b: bool)
    ensures
        text::integer(n as int) == text::digits(n),
        n > 0 ==> text::integer(-(n as int)) == "-"@ + text::digits(n),
        text::boolean(b) == if b {
            "true"@
        } else {
            "false"@
        },
{
}

} // verus!
