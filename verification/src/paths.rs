//! Where the model file is.
use crate::engine::{BackendId, ModelSpec};
use vstd::prelude::*;

verus! {

pub const DEFAULT_MODEL: &'static str = "models/laya";

pub const GGUF_FILE: &'static str = "laya-f16.gguf";

pub const MODEL_ENV: &'static str = "LAYA_MODEL";

/// The model a command uses: the one given on its command line, else the one `$LAYA_MODEL`
/// names when that is set and not empty, else the default directory.
pub open spec fn model_path_spec(arg: Option<Seq<char>>, env: Option<Seq<char>>) -> Seq<char> {
    match arg {
        Some(a) => a,
        None => match env {
            Some(e) => if e.len() > 0 {
                e
            } else {
                DEFAULT_MODEL@
            },
            None => DEFAULT_MODEL@,
        },
    }
}

/// The model a command uses, from its `--model` argument and the value of `$LAYA_MODEL`
/// (each where there is one).
pub fn model_path(arg: Option<&str>, env: Option<&str>) -> (r: String)
    ensures
        r@ == model_path_spec(
            match arg {
                Some(a) => Some(a@),
                None => None,
            },
            match env {
                Some(e) => Some(e@),
                None => None,
            },
        ),
{
    match arg {
        Some(a) => a.to_owned(),
        None => match env {
            Some(e) => if e.unicode_len() > 0 {
                e.to_owned()
            } else {
                DEFAULT_MODEL.to_owned()
            },
            None => DEFAULT_MODEL.to_owned(),
        },
    }
}

/// `s` without its trailing slashes.
pub open spec fn trim_slashes(s: Seq<char>) -> Seq<char>
    decreases s.len(),
{
    if s.len() > 0 && s[s.len() - 1] == '/' {
        trim_slashes(s.drop_last())
    } else {
        s
    }
}

/// The GGUF file a model argument names: the argument itself when it is a file, else
/// `laya-f16.gguf` inside the directory it names.
pub open spec fn gguf_path_spec(model: Seq<char>, model_is_file: bool) -> Seq<char> {
    if model_is_file {
        model
    } else {
        trim_slashes(model) + "/"@ + GGUF_FILE@
    }
}

/// The GGUF file that `model` names; `model_is_file` says whether `model` is an existing file.
pub fn gguf_path(model: &str, model_is_file: bool) -> (r: String)
    ensures
        r@ == gguf_path_spec(model@, model_is_file),
{
    if model_is_file {
        return model.to_owned();
    }
    let n = model.unicode_len();
    let mut k = n;
    assert(model@.subrange(0, n as int) == model@);
    while k > 0 && model.get_char(k - 1) == '/'
        invariant
            k <= n,
            n == model@.len(),
            trim_slashes(model@) == trim_slashes(model@.subrange(0, k as int)),
        decreases k,
    {
        proof {
            let s = model@.subrange(0, k as int);
            assert(s.drop_last() == model@.subrange(0, k - 1));
        }
        k = k - 1;
    }
    proof {
        let s = model@.subrange(0, k as int);
        assert(trim_slashes(s) == s);
        assert(model@.subrange(0, n as int) == model@);
    }
    let mut out = String::from_str(model.substring_char(0, k));
    out.append("/");
    out.append(GGUF_FILE);
    out
}

/// The engine request for a model: the given backend, the model's GGUF file, and the default
/// quantisation of 4 bits in groups of 64.
pub fn model_spec(model: &str, model_is_file: bool, backend: BackendId, quantized: bool) -> (r: ModelSpec)
    ensures
        r.backend == backend,
        r.base@ == gguf_path_spec(model@, model_is_file),
        r.quantized == quantized,
        r.quant_bits == 4,
        r.quant_group == 64,
{
    ModelSpec { backend, base: gguf_path(model, model_is_file), quantized, quant_bits: 4, quant_group: 64 }
}

} // verus!
