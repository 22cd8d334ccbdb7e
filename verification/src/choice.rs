//! What users write: engines, dtypes and geometries by name.

use crate::binary64::{Datum, F64};
use crate::sizing::{Allocator, Band, Interval, LlamaCpp, StateGeometry, Vllm};
use crate::text::same;
use vstd::prelude::*;

verus! {

/// One of the engines.
#[derive(Clone, Copy, Debug)]
pub enum Engine {
    Vllm(Vllm),
    LlamaCpp(LlamaCpp),
}

impl Allocator for Engine {
    open spec fn pool(&self, total_vram: u64, weights: u64, overhead: Band) -> Band {
        match *self {
            Engine::Vllm(v) => v.pool(total_vram, weights, overhead),
            Engine::LlamaCpp(l) => l.pool(total_vram, weights, overhead),
        }
    }

    open spec fn label(&self) -> Seq<char> {
        match *self {
            Engine::Vllm(v) => v.label(),
            Engine::LlamaCpp(l) => l.label(),
        }
    }

    open spec fn share(&self) -> Option<Datum> {
        match *self {
            Engine::Vllm(v) => v.share(),
            Engine::LlamaCpp(l) => l.share(),
        }
    }

    fn kv_pool_bytes(&self, total_vram: u64, weights: u64, overhead: Interval) -> (r: Interval) {
        match self {
            Engine::Vllm(v) => v.kv_pool_bytes(total_vram, weights, overhead),
            Engine::LlamaCpp(l) => l.kv_pool_bytes(total_vram, weights, overhead),
        }
    }

    fn name(&self) -> (r: &str) {
        match self {
            Engine::Vllm(v) => v.name(),
            Engine::LlamaCpp(l) => l.name(),
        }
    }

    fn util(&self) -> (r: Option<F64>) {
        match self {
            Engine::Vllm(v) => v.util(),
            Engine::LlamaCpp(l) => l.util(),
        }
    }
}

/// The engines by name: the share of VRAM that is reserved, if one is.
pub open spec fn known_engine(name: Seq<char>) -> Option<Option<Datum>> {
    if name == "vllm"@ {
        Some(Some(Datum::literal(90, 100)))
    } else if name == "llamacpp"@ || name == "llama.cpp"@ {
        Some(None)
    } else {
        None
    }
}

/// `e` is the engine that reserves this share.
pub open spec fn is_engine(e: Engine, share: Option<Datum>) -> bool {
    match share {
        Some(u) => e matches Engine::Vllm(v) && v.util@ == u,
        None => e is LlamaCpp,
    }
}

/// `prefix` with a word behind it.
pub fn message(prefix: &str, word: &str) -> (r: String)
    ensures
        r@ == prefix@ + word@,
{
    let mut s = prefix.to_owned();
    s.append(word);
    s
}

/// The engine of a name.
pub fn alloc_of(engine: &str) -> (r: Result<Engine, String>)
    ensures
        match r {
            Ok(e) => known_engine(engine@) is Some && is_engine(e, known_engine(engine@)->0),
            Err(m) => known_engine(engine@) is None && m@ == "unknown engine: "@ + engine@,
        },
{
    if same(engine, "vllm") {
        Ok(Engine::Vllm(Vllm { util: F64::decimal(90, 100) }))
    } else if same(engine, "llamacpp") || same(engine, "llama.cpp") {
        Ok(Engine::LlamaCpp(LlamaCpp))
    } else {
        Err(message("unknown engine: ", engine))
    }
}

/// The KV-cache dtypes by name: bytes of an element.
pub open spec fn known_kv_dtype(name: Seq<char>) -> Option<u8> {
    if name == "fp16"@ || name == "bf16"@ {
        Some(2)
    } else if name == "fp8"@ {
        Some(1)
    } else {
        None
    }
}

pub fn find_kv_dtype(name: &str) -> (r: Option<u8>)
    ensures
        r == known_kv_dtype(name@),
{
    if same(name, "fp16") || same(name, "bf16") {
        Some(2)
    } else if same(name, "fp8") {
        Some(1)
    } else {
        None
    }
}

/// The size of a KV-cache element of a dtype.
pub fn kv_bytes_of(name: &str) -> (r: Result<u8, String>)
    ensures
        match r {
            Ok(b) => known_kv_dtype(name@) == Some(b),
            Err(m) => known_kv_dtype(name@) is None && m@ == "unknown kv_cache_dtype: "@ + name@,
        },
{
    match find_kv_dtype(name) {
        Some(b) => Ok(b),
        None => Err(message("unknown kv_cache_dtype: ", name)),
    }
}

/// The geometries by name, from the dimensions that each of them uses.
pub open spec fn known_geometry(
    geom: Seq<char>,
    head_dim: u32,
    n_heads: u32,
    n_kv_heads: u32,
    d_c: u32,
    d_rope: u32,
) -> Option<StateGeometry> {
    if geom == "mha"@ {
        Some(StateGeometry::Mha { head_dim, n_heads })
    } else if geom == "gqa"@ {
        Some(StateGeometry::Gqa { head_dim, n_kv_heads })
    } else if geom == "mla"@ {
        Some(StateGeometry::Mla { d_c, d_rope })
    } else {
        None
    }
}

/// The geometry of a name.
pub fn state_of(
    geom: &str,
    head_dim: u32,
    n_heads: u32,
    n_kv_heads: u32,
    d_c: u32,
    d_rope: u32,
) -> (r: Result<StateGeometry, String>)
    ensures
        match r {
            Ok(g) => known_geometry(geom@, head_dim, n_heads, n_kv_heads, d_c, d_rope) == Some(g),
            Err(m) => known_geometry(geom@, head_dim, n_heads, n_kv_heads, d_c, d_rope) is None
                && m@ == "unknown geometry: "@ + geom@ + " (expected mha|gqa|mla)"@,
        },
{
    if same(geom, "mha") {
        Ok(StateGeometry::Mha { head_dim, n_heads })
    } else if same(geom, "gqa") {
        Ok(StateGeometry::Gqa { head_dim, n_kv_heads })
    } else if same(geom, "mla") {
        Ok(StateGeometry::Mla { d_c, d_rope })
    } else {
        let mut m = message("unknown geometry: ", geom);
        m.append(" (expected mha|gqa|mla)");
        Err(m)
    }
}

/// The label of a geometry, for a dense model or a mixture of experts.
pub open spec fn kind_label(geom: Seq<char>, moe: bool) -> Seq<char> {
    if geom == "mla"@ {
        if moe {
            "MLA·MoE"@
        } else {
            "MLA"@
        }
    } else if geom == "gqa"@ {
        if moe {
            "GQA·MoE"@
        } else {
            "GQA"@
        }
    } else {
        "MHA"@
    }
}

/// The label of a geometry.
pub fn kv_kind_of(geom: &str, moe: bool) -> (r: &'static str)
    ensures
        r@ == kind_label(geom@, moe),
{
    if same(geom, "mla") {
        if moe {
            "MLA·MoE"
        } else {
            "MLA"
        }
    } else if same(geom, "gqa") {
        if moe {
            "GQA·MoE"
        } else {
            "GQA"
        }
    } else {
        "MHA"
    }
}

} // verus!
