//! Laws of names: what the names of the registry tell, and which names are refused.

use crate::api;
use crate::binary64;
use crate::binary64::Datum;
use crate::choice;
use crate::cli;
use crate::cli::{Settings, Wish};
use crate::close;
use crate::detect;
use crate::detect::Probe;
use crate::laws::words;
use crate::registry;
use crate::sizing::{Device, ModelShape, StateGeometry, Trouble};
use crate::text;
use vstd::arithmetic::power2::*;
use vstd::prelude::*;

verus! {

/// `s` ends in `tail`.
pub open spec fn ends_in(s: Seq<char>, tail: Seq<char>) -> bool {
    s.len() >= tail.len() && s.subrange(s.len() - tail.len(), s.len() as int) == tail
}

proof fn lemma_two_digits(n: nat)
    requires
        10 <= n < 100,
    ensures
        text::digits(n) == seq![text::digit(n / 10), text::digit(n)],
{
    reveal_with_fuel(text::digits, 3);
    assert(text::digits(n) =~= seq![text::digit(n / 10), text::digit(n)]);
}

proof fn lemma_three_digits(n: nat)
    requires
        100 <= n < 1000,
    ensures
        text::digits(n) == seq![text::digit(n / 100), text::digit(n / 10), text::digit(n)],
{
    lemma_two_digits(n / 10);
    assert((n / 10) / 10 == n / 100);
    assert(text::digits(n) =~= seq![text::digit(n / 100), text::digit(n / 10), text::digit(n)]);
}

proof fn lemma_gb_tail(n: nat)
    requires
        10 <= n < 1000,
    ensures
        n < 100 ==> "-"@ + text::digits(n) + "gb"@ == seq![
            '-',
            text::digit(n / 10),
            text::digit(n),
            'g',
            'b',
        ],
        n >= 100 ==> "-"@ + text::digits(n) + "gb"@ == seq![
            '-',
            text::digit(n / 100),
            text::digit(n / 10),
            text::digit(n),
            'g',
            'b',
        ],
{
    reveal_strlit("-");
    reveal_strlit("gb");
    if n < 100 {
        lemma_two_digits(n);
        assert("-"@ + text::digits(n) + "gb"@ =~= seq![
            '-',
            text::digit(n / 10),
            text::digit(n),
            'g',
            'b',
        ]);
    } else {
        lemma_three_digits(n);
        assert("-"@ + text::digits(n) + "gb"@ =~= seq![
            '-',
            text::digit(n / 100),
            text::digit(n / 10),
            text::digit(n),
            'g',
            'b',
        ]);
    }
}

proof fn lemma_row_tells_its_memory(id: Seq<char>)
    requires
        registry::known_device(id) is Some,
    ensures
        ({
            let gib = registry::known_device(id)->0.nominal_gib as nat;
            10 <= gib < 1000 && ends_in(id, "-"@ + text::digits(gib) + "gb"@)
        }),
{
    let row = registry::known_device(id)->0;
    let gib = row.nominal_gib as nat;
    lemma_gb_tail(40);
    lemma_gb_tail(80);
    lemma_gb_tail(24);
    lemma_gb_tail(141);
    lemma_gb_tail(48);
    lemma_gb_tail(192);
    lemma_gb_tail(32);
    let tail = "-"@ + text::digits(gib) + "gb"@;
    if id == "a100-40gb"@ {
        reveal_strlit("a100-40gb");
        assert(id.subrange(4, 9) =~= tail);
    } else if id == "a100-80gb"@ {
        reveal_strlit("a100-80gb");
        assert(id.subrange(4, 9) =~= tail);
    } else if id == "rtx3090-24gb"@ {
        reveal_strlit("rtx3090-24gb");
        assert(id.subrange(7, 12) =~= tail);
    } else if id == "h100-80gb"@ {
        reveal_strlit("h100-80gb");
        assert(id.subrange(4, 9) =~= tail);
    } else if id == "h200-141gb"@ {
        reveal_strlit("h200-141gb");
        assert(id.subrange(4, 10) =~= tail);
    } else if id == "l40s-48gb"@ {
        reveal_strlit("l40s-48gb");
        assert(id.subrange(4, 9) =~= tail);
    } else if id == "rtx4090-24gb"@ {
        reveal_strlit("rtx4090-24gb");
        assert(id.subrange(7, 12) =~= tail);
    } else if id == "b200-192gb"@ {
        reveal_strlit("b200-192gb");
        assert(id.subrange(4, 10) =~= tail);
    } else if id == "gb200-192gb"@ {
        reveal_strlit("gb200-192gb");
        assert(id.subrange(5, 11) =~= tail);
    } else if id == "rtx5090-32gb"@ {
        reveal_strlit("rtx5090-32gb");
        assert(id.subrange(7, 12) =~= tail);
    } else if id == "mi300x-192gb"@ {
        reveal_strlit("mi300x-192gb");
        assert(id.subrange(6, 12) =~= tail);
    }
}

/// The id of a device ends in its memory. What can be used is 800 MB less than so many GiB;
/// bandwidth and peak are known of every device of the registry.
pub proof fn law_devices_tell_their_memory(id: Seq<char>, d: Device)
    requires
        registry::known_device(id) is Some,
        registry::is_device(d, id, registry::known_device(id)->0),
    ensures
        exists|gib: nat|
            ends_in(id, "-"@ + #[trigger] text::digits(gib) + "gb"@) && d.vram_bytes == gib
                * 1_073_741_824 - 800_000_000,
        d.name@ == id,
        d.mem_bw_bytes_s >= 800_000_000_000,
        d.peak_flops@ is Finite && !d.peak_flops@->Finite_neg && d.peak_flops@->mag
            >= 30_000_000_000_000 * binary64::one(),
{
    lemma_row_tells_its_memory(id);
    let row = registry::known_device(id)->0;
    let gib = row.nominal_gib as nat;
    assert(ends_in(id, "-"@ + text::digits(gib) + "gb"@));
    binary64::lemma_of_nat_exact(row.peak_flops as nat);
    let one = binary64::one();
    let f = row.peak_flops as nat;
    assert(f * one >= 30_000_000_000_000 * one) by (nonlinear_arith)
        requires
            f >= 30_000_000_000_000,
    ;
}

/// The label of a model tells its geometry, and that it is a mixture of experts exactly
/// where not all of its parameters are active; there are never more of those than there are.
pub proof fn law_labels_tell_the_model(id: Seq<char>, m: ModelShape)
    requires
        registry::known_model(id) is Some,
        registry::is_model(m, id, registry::known_model(id)->0),
    ensures
        m.active_params <= m.n_params,
        m.kv_layers == m.layers,
        match m.state {
            StateGeometry::Mha { head_dim, n_heads } => m.kv_kind@ == "MHA"@ && m.active_params
                == m.n_params && n_heads * head_dim == m.d_model,
            StateGeometry::Gqa { head_dim, n_kv_heads } => m.kv_kind@ == (if m.active_params
                == m.n_params {
                "GQA"@
            } else {
                "GQA·MoE"@
            }) && n_kv_heads * head_dim < m.d_model,
            StateGeometry::Mla { .. } => m.kv_kind@ == (if m.active_params == m.n_params {
                "MLA"@
            } else {
                "MLA·MoE"@
            }),
            StateGeometry::Ssm { .. } => false,
        },
{
    match m.state {
        StateGeometry::Mha { head_dim, n_heads } => {
            assert(n_heads * head_dim == 4096) by (nonlinear_arith)
                requires
                    n_heads == 32,
                    head_dim == 128,
            ;
        },
        StateGeometry::Gqa { head_dim, n_kv_heads } => {
            assert(n_kv_heads * head_dim <= 1024) by (nonlinear_arith)
                requires
                    n_kv_heads <= 8,
                    head_dim == 128,
            ;
        },
        _ => {},
    }
}

/// A name and the canonical name of its quantisation mean the same.
pub proof fn law_canonical_names_mean_the_same(name: Seq<char>)
    requires
        registry::known_quant(name) is Some,
    ensures
        registry::known_quant((registry::known_quant(name)->0).0) == registry::known_quant(name),
{
    lemma_quant_names_differ();
}

proof fn lemma_quant_names_differ()
    ensures
        "q4_k_m"@ != "fp16"@ && "q4_k_m"@ != "bf16"@ && "q4_k_m"@ != "fp8"@ && "q4_k_m"@ != "int8"@,
        "q4_k_m"@ != "q8_0"@ && "q4_k_m"@ != "q6_k"@ && "q4_k_m"@ != "q5_k_m"@,
        "awq-int4"@.len() == 8,
        "gptq-int4"@.len() == 9,
        "fp16"@.len() < 8 && "bf16"@.len() < 8 && "fp8"@.len() < 8 && "int8"@.len() < 8,
        "q8_0"@.len() < 8 && "q6_k"@.len() < 8 && "q5_k_m"@.len() < 8 && "q4_k_m"@.len() < 8,
        "q4km"@.len() < 8 && "q4_0"@.len() < 8 && "q3_k_m"@.len() < 8 && "q2_k"@.len() < 8,
        "awq"@.len() < 8 && "gptq"@.len() < 8,
{
    reveal_strlit("fp16");
    reveal_strlit("bf16");
    reveal_strlit("fp8");
    reveal_strlit("int8");
    reveal_strlit("q8_0");
    reveal_strlit("q6_k");
    reveal_strlit("q5_k_m");
    reveal_strlit("q4_k_m");
    reveal_strlit("q4km");
    reveal_strlit("q4_0");
    reveal_strlit("q3_k_m");
    reveal_strlit("q2_k");
    reveal_strlit("awq");
    reveal_strlit("awq-int4");
    reveal_strlit("gptq");
    reveal_strlit("gptq-int4");
    assert("q4_k_m"@[1] == '4' && "q5_k_m"@[1] == '5');
}

/// Hundredths of a bit that a weight takes under a name.
pub open spec fn hundredths(name: Seq<char>) -> nat {
    if name == "fp16"@ || name == "bf16"@ {
        1600
    } else if name == "fp8"@ || name == "int8"@ {
        800
    } else if name == "q8_0"@ {
        850
    } else if name == "q6_k"@ {
        656
    } else if name == "q5_k_m"@ {
        567
    } else if name == "q4_k_m"@ || name == "q4km"@ {
        480
    } else if name == "q4_0"@ {
        455
    } else if name == "q3_k_m"@ {
        391
    } else if name == "q2_k"@ {
        335
    } else if name == "awq"@ || name == "awq-int4"@ {
        451
    } else {
        425
    }
}

/// A weight takes as many bits as its quantisation gives it.
pub proof fn law_quantisations_take_their_bits(name: Seq<char>)
    requires
        registry::known_quant(name) is Some,
    ensures
        (registry::known_quant(name)->0).1 is Finite,
        !(registry::known_quant(name)->0).1->Finite_neg,
        close::close(
            (registry::known_quant(name)->0).1->mag * 800,
            hundredths(name) * binary64::one(),
            2,
        ),
{
    let one = binary64::one();
    let w = (registry::known_quant(name)->0).1;
    let h = hundredths(name);
    lemma_pow2_pos(1074);
    lemma2_to64();
    if h == 1600 || h == 800 {
        binary64::lemma_of_nat_exact(1);
        binary64::lemma_of_nat_exact(2);
        assert(w->mag * 800 == h * one);
        close::lemma_close_same(h * one, 2);
    } else {
        close::lemma_hundredths_close(h);
        close::lemma_of_nat_close(8, 3);
        let l = Datum::literal(h, 100);
        let e = Datum::of_nat(8);
        assert(w == l.over(e));
        close::lemma_over_close(l, 7, 4, e, 0, 3);
        let x = w->mag;
        let y = l->mag;
        assert(e->mag == 8 * one);
        close::lemma_close_scaled(x * e->mag, y * one, 100, 1);
        assert((x * (8 * one)) * 100 == (x * 800) * one) by (nonlinear_arith);
        close::lemma_close_scaled(y * 100, h * one, one, 1);
        assert((y * one) * 100 == (y * 100) * one) by (nonlinear_arith);
        close::lemma_close_through((x * 800) * one, (y * 100) * one, 1, (h * one) * one, 1);
        close::lemma_close_cancel(x * 800, h * one, one, 2);
    }
}

/// An engine that reserves a share of the memory reserves nine tenths of it.
pub proof fn law_nine_tenths_are_reserved(name: Seq<char>)
    ensures
        choice::known_engine(name) matches Some(Some(u)) ==> u is Finite && !u->Finite_neg
            && close::close(u->mag * 100, 90 * binary64::one(), 1),
        choice::known_engine(name) is Some ==> (choice::known_engine(name)->0 is Some <==> name
            == "vllm"@),
{
    close::lemma_literal_close(90);
}

/// A command fails exactly where its model, the value of `--gpu`, the devices, the
/// quantisation or the engine is no good.
pub proof fn law_good_settings_have_no_trouble(o: Settings, probe: Probe)
    ensures
        cli::trouble(o, probe) is None <==> {
            &&& o.model is Some && registry::known_model(o.model->0) is Some
            &&& registry::known_quant(o.dtype) is Some
            &&& choice::known_engine(o.engine) is Some
            &&& cli::wish(o.gpu) is Ok
            &&& match cli::wish(o.gpu)->Ok_0 {
                Wish::Named(id, _) => registry::known_device(id) is Some,
                Wish::Auto(_) => {
                    &&& probe is Listing
                    &&& detect::all_fit(detect::probed(probe))
                    &&& detect::probed(probe).len() as int % 0x1_0000_0000 != 0
                },
            }
        },
{
    match probe {
        Probe::Listing(listing) => {
            assert(detect::probed(probe) == detect::listed(listing@));
        },
        _ => {},
    }
}

/// A command complains about the first thing that is wrong, and about what it is: the model
/// before the devices, those before the quantisation, and that before the engine.
pub proof fn law_troubles_name_what_is_wrong(o: Settings, probe: Probe)
    ensures
        o.model matches Some(id) ==> registry::known_model(id) is None ==> cli::trouble(o, probe)
            == Some(Trouble::Text("unknown model: "@ + id)),
        o.model is Some && registry::known_model(o.model->0) is Some ==> {
            &&& cli::wish(o.gpu) matches Err(complaint) ==> cli::trouble(o, probe) == Some(
                Trouble::Text(complaint),
            )
            &&& cli::wish(o.gpu) matches Ok(Wish::Named(id, _)) ==> {
                if registry::known_device(id) is None {
                    cli::trouble(o, probe) == Some(
                        Trouble::Text(
                            "unknown gpu: "@ + id
                                + " (try `ridgepoint devices`, or --gpu auto)"@,
                        ),
                    )
                } else if registry::known_quant(o.dtype) is None {
                    cli::trouble(o, probe) == Some(Trouble::Text("unknown dtype: "@ + o.dtype))
                } else {
                    choice::known_engine(o.engine) is None ==> cli::trouble(o, probe) == Some(
                        Trouble::Text("unknown engine: "@ + o.engine),
                    )
                }
            }
        },
{
}

/// A call fails over a name exactly where one is not known, and its complaint ends in such
/// a name.
pub proof fn law_calls_refuse_unknown_names(
    gpu: Seq<char>,
    engine: Seq<char>,
    dtype: Seq<char>,
    kv_cache_dtype: Seq<char>,
)
    ensures
        api::unknown_name(gpu, engine, dtype, kv_cache_dtype) is None <==> {
            &&& registry::known_device(gpu) is Some
            &&& registry::known_quant(dtype) is Some
            &&& choice::known_engine(engine) is Some
            &&& choice::known_kv_dtype(kv_cache_dtype) is Some
        },
        api::unknown_name(gpu, engine, dtype, kv_cache_dtype) matches Some(complaint) ==> {
            ||| registry::known_device(gpu) is None && complaint == "unknown gpu: "@ + gpu
            ||| registry::known_quant(dtype) is None && complaint == "unknown dtype: "@ + dtype
            ||| choice::known_engine(engine) is None && complaint == "unknown engine: "@ + engine
            ||| choice::known_kv_dtype(kv_cache_dtype) is None && complaint
                == "unknown kv_cache_dtype: "@ + kv_cache_dtype
        },
{
}

/// What stands behind the first colon of a value of `--gpu` has to be a count, and what
/// stands behind `auto` has to start with a colon.
pub proof fn law_bad_gpu_values_are_refused(name: Seq<char>, rest: Seq<char>)
    ensures
        !name.contains(':') && !text::starts_with(name + ":"@ + rest, "auto"@) ==> (cli::wish(
            name + ":"@ + rest,
        ) is Ok <==> text::unsigned(rest, u32::MAX as nat) is Some),
        cli::wish("auto:"@ + rest) is Ok <==> text::unsigned(rest, u32::MAX as nat) is Some,
        rest.len() > 0 && rest[0] != ':' ==> cli::wish("auto"@ + rest) is Err,
{
    reveal_strlit("auto");
    reveal_strlit("auto:");
    reveal_strlit(":");
    let a = "auto:"@ + rest;
    assert(a.take(4) =~= "auto"@);
    assert(a.skip(4)[0] == ':');
    assert(a.skip(4).skip(1) =~= rest);
    let b = "auto"@ + rest;
    assert(b.take(4) =~= "auto"@);
    assert(b.skip(4) =~= rest);
    if !name.contains(':') {
        let c = name + ":"@ + rest;
        assert(":"@ =~= seq![':']);
        words::lemma_first(name, rest, ':');
        assert(c.skip(name.len() as int + 1) =~= rest);
    }
}

/// Printing ASCII is no blank; the ASCII blanks are the space, tabs, and the ends of lines
/// and pages.
pub proof fn law_blanks(c: char)
    ensures
        c as u32 <= 0x7f ==> (text::is_white(c) <==> c == ' ' || c == '\t' || c == '\n' || c
            == '\u{b}' || c == '\u{c}' || c == '\r'),
        text::is_digit(c) ==> !text::is_white(c),
{
}

/// A line of fewer than two commas lists no GPU. Of others the first three fields count: an
/// index or a memory that is no number counts as zero.
pub proof fn law_unreadable_fields_count_as_zero(
    a: Seq<char>,
    b: Seq<char>,
    c: Seq<char>,
)
    requires
        !a.contains(','),
        !b.contains(','),
        !c.contains(','),
    ensures
        detect::row_of(a) is None,
        detect::row_of(a + seq![','] + b) is None,
        detect::row_of(a + seq![','] + b + seq![','] + c) matches Some(row) && {
            &&& row.name == text::trimmed(b)
            &&& text::unsigned(text::trimmed(a), u32::MAX as nat) matches Some(n) ==> row.index == n
            &&& text::unsigned(text::trimmed(a), u32::MAX as nat) is None ==> row.index == 0
            &&& text::unsigned(text::trimmed(c), u64::MAX as nat) matches Some(n) ==> row.mib == n
            &&& text::unsigned(text::trimmed(c), u64::MAX as nat) is None ==> row.mib == 0
        },
{
    words::lemma_split_plain(a, ',');
    words::lemma_split_behind(a, b, ',');
    words::lemma_split_behind(a + seq![','] + b, c, ',');
    assert(text::split(a + seq![','] + b, ',') =~= seq![a, b]);
    assert(text::split(a + seq![','] + b + seq![','] + c, ',') =~= seq![a, b, c]);
}

/// Where a probe found no tool, or the tool failed or listed nothing, there is a complaint
/// and there are no GPUs to choose from.
pub proof fn law_probes_without_gpus_complain(probe: Probe)
    ensures
        detect::probed(probe).len() == 0 ==> detect::complaint(probe) is Some,
        !(probe is Listing) ==> detect::probed(probe).len() == 0,
        detect::complaint(probe) is None ==> detect::all_fit(detect::probed(probe)),
{
}

} // verus!
