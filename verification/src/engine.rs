//! What an inference engine is asked for and which engine to use.
use crate::text::str_eq;
use vstd::prelude::*;

verus! {

/// One forward pass over `n` padded sequences of length `l`, each with `k` marker slots.
pub struct Req<'a> {
    pub n: usize,
    pub l: usize,
    pub k: usize,
    pub ids: &'a [i64],
    pub att: &'a [i64],
    pub mpos: &'a [i64],
    pub mmask: &'a [i64],
    pub qtype: &'a [i64],
}

/// The floating-point width the weights are held in.
#[derive(Clone, Copy, PartialEq, Eq, Debug, Structural)]
pub enum DType {
    F32,
    F16,
}

pub open spec fn dtype_name(d: DType) -> Seq<char> {
    match d {
        DType::F32 => "fp32"@,
        DType::F16 => "fp16"@,
    }
}

impl DType {
    pub fn name(self) -> (r: &'static str)
        ensures
            r@ == dtype_name(self),
    {
        match self {
            DType::F32 => "fp32",
            DType::F16 => "fp16",
        }
    }
}

/// An inference backend, or `Auto` for the first one this build carries.
#[derive(Clone, Copy, PartialEq, Eq, Debug, Structural)]
pub enum BackendId {
    Auto,
    Cuda,
    Mlx,
    Cpu,
}

pub open spec fn backend_name(b: BackendId) -> Seq<char> {
    match b {
        BackendId::Auto => "auto"@,
        BackendId::Cuda => "cuda"@,
        BackendId::Mlx => "mlx"@,
        BackendId::Cpu => "cpu"@,
    }
}

/// The backend a name selects.
pub open spec fn backend_named(s: Seq<char>) -> Option<BackendId> {
    if s == "auto"@ {
        Some(BackendId::Auto)
    } else if s == "cuda"@ {
        Some(BackendId::Cuda)
    } else if s == "mlx"@ {
        Some(BackendId::Mlx)
    } else if s == "cpu"@ {
        Some(BackendId::Cpu)
    } else {
        None
    }
}

impl BackendId {
    /// The backend with this name, if any.
    pub fn parse(s: &str) -> (r: Option<BackendId>)
        ensures
            r == backend_named(s@),
    {
        if str_eq(s, "auto") {
            Some(BackendId::Auto)
        } else if str_eq(s, "cuda") {
            Some(BackendId::Cuda)
        } else if str_eq(s, "mlx") {
            Some(BackendId::Mlx)
        } else if str_eq(s, "cpu") {
            Some(BackendId::Cpu)
        } else {
            None
        }
    }

    pub fn name(self) -> (r: &'static str)
        ensures
            r@ == backend_name(self),
    {
        match self {
            BackendId::Auto => "auto",
            BackendId::Cuda => "cuda",
            BackendId::Mlx => "mlx",
            BackendId::Cpu => "cpu",
        }
    }
}

/// Which engine to open and the weights it loads.
pub struct ModelSpec {
    pub backend: BackendId,
    pub base: String,
    pub quantized: bool,
    pub quant_bits: i32,
    pub quant_group: i32,
}

} // verus!
