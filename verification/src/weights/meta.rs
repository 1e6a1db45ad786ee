//! The model's hyper-parameters as its file states them, checked against the pinned ones.
use super::half::{narrow_bits, narrow_spec};
use crate::arch::{ACT_INPUT, EPS_BITS, GLOBAL_EVERY, H, HD, HEAD_LAYERS, INTER, NH, NLAYER, NVOCAB, QTYPES, SCALE_BITS, WINDOW};
use crate::engine::DType;
use crate::gguf::format::{FT_ALL_F32, FT_MOSTLY_F16, Header};
use crate::gguf::header::lookup;
use crate::gguf::value::{Value, ValueView, as_u64_spec, lemma_view_values, view_value, view_values};
use crate::text::str_eq;
use super::options::{pair_views, sort_by_key, sorted_by_key};
use vstd::prelude::*;

verus! {

/// A metadata number as single precision, by bit pattern: an `F32` as it is, an `F64`
/// narrowed to the nearest.
pub open spec fn f32_bits_of(v: ValueView) -> Option<u32> {
    match v {
        ValueView::F32(b) => Some(b),
        ValueView::F64(b) => Some(narrow_spec(b)),
        _ => None,
    }
}

impl Value {
    /// This value as a single-precision number, by bit pattern (see `f32_bits_of`).
    pub fn as_f32_bits(&self) -> (r: Option<u32>)
        ensures
            r == f32_bits_of(self@),
    {
        match self {
            Value::F32(b) => Some(*b),
            Value::F64(b) => Some(narrow_bits(*b)),
            _ => None,
        }
    }

    /// For an array, its numeric elements as single precision (see `f32_bits_of`), skipping
    /// the others; for any other value, nothing.
    pub fn as_f32s_bits(&self) -> (r: Vec<u32>)
        ensures
            r@ == (match self@ {
                ValueView::Array(a) => floats_of(a),
                _ => Seq::empty(),
            }),
    {
        match self {
            Value::Array(a) => {
                proof {
                    lemma_view_values(a@);
                }
                let ghost va = view_values(a@);
                let mut out: Vec<u32> = Vec::new();
                let mut i: usize = 0;
                while i < a.len()
                    invariant
                        i <= a.len(),
                        va == view_values(a@),
                        va.len() == a@.len(),
                        forall|j: int| 0 <= j < a@.len() ==> #[trigger] va[j] == view_value(a@[j]),
                        out@ == floats_of(va.take(i as int)),
                    decreases a.len() - i,
                {
                    proof {
                        assert(va.take(i + 1).drop_last() == va.take(i as int));
                        assert(va.take(i + 1).last() == va[i as int]);
                    }
                    match a[i].as_f32_bits() {
                        Some(b) => out.push(b),
                        None => {},
                    }
                    i = i + 1;
                }
                assert(va.take(a@.len() as int) == va);
                out
            },
            _ => Vec::new(),
        }
    }
}

/// The numeric elements of an array as single precision, in order.
pub open spec fn floats_of(a: Seq<ValueView>) -> Seq<u32>
    decreases a.len(),
{
    if a.len() == 0 {
        Seq::empty()
    } else {
        let rest = floats_of(a.drop_last());
        match f32_bits_of(a.last()) {
            Some(b) => rest.push(b),
            None => rest,
        }
    }
}

impl Header {
    /// The number under `key` as single precision (see `f32_bits_of`), or `d` when there is
    /// none.
    pub fn f32_or_bits(&self, key: &str, d: u32) -> (r: u32)
        ensures
            r == (match lookup(self@.kv, key@) {
                Some(v) => match f32_bits_of(v) {
                    Some(b) => b,
                    None => d,
                },
                None => d,
            }),
    {
        match self.get(key) {
            Some(v) => match v.as_f32_bits() {
                Some(b) => b,
                None => d,
            },
            None => d,
        }
    }
}

/// What a model file must say, and what this build pins it to.
pub enum Pin {
    Int(usize),
    Float(u32),
}

/// Why a model file's metadata is refused.
pub enum MetaError {
    /// `general.architecture` names another model (the name it gives).
    Architecture(String),
    Missing(String),
    NotInteger(String),
    NotFloat(String),
    /// An integer that differs from the pinned one: the key, what the file says, the pin.
    IntPin(String, u64, usize),
    /// A number that differs from the pinned one, by bit patterns.
    FloatPin(String, u32, u32),
}

pub enum MetaErrorView {
    Architecture(Seq<char>),
    Missing(Seq<char>),
    NotInteger(Seq<char>),
    NotFloat(Seq<char>),
    IntPin(Seq<char>, u64, usize),
    FloatPin(Seq<char>, u32, u32),
}

impl View for MetaError {
    type V = MetaErrorView;

    open spec fn view(&self) -> MetaErrorView {
        match self {
            MetaError::Architecture(s) => MetaErrorView::Architecture(s@),
            MetaError::Missing(k) => MetaErrorView::Missing(k@),
            MetaError::NotInteger(k) => MetaErrorView::NotInteger(k@),
            MetaError::NotFloat(k) => MetaErrorView::NotFloat(k@),
            MetaError::IntPin(k, g, w) => MetaErrorView::IntPin(k@, *g, *w),
            MetaError::FloatPin(k, g, w) => MetaErrorView::FloatPin(k@, *g, *w),
        }
    }
}

/// The hyper-parameter keys a model file must carry, in the order they are checked, with
/// the values this build pins them to.
pub open spec fn pin_list() -> Seq<(Seq<char>, Pin)> {
    seq![
        ("laya.hidden_size"@, Pin::Int(H)),
        ("laya.num_layers"@, Pin::Int(NLAYER)),
        ("laya.num_heads"@, Pin::Int(NH)),
        ("laya.head_dim"@, Pin::Int(HD)),
        ("laya.intermediate_size"@, Pin::Int(INTER)),
        ("laya.vocab_size"@, Pin::Int(NVOCAB)),
        ("laya.attention_scale"@, Pin::Float(SCALE_BITS)),
        ("laya.layer_norm_epsilon"@, Pin::Float(EPS_BITS)),
        ("laya.sliding_window"@, Pin::Int(WINDOW as usize)),
        ("laya.global_layer_every"@, Pin::Int(GLOBAL_EVERY)),
        ("laya.head_layers"@, Pin::Int(HEAD_LAYERS)),
        ("laya.act_input_features"@, Pin::Int(ACT_INPUT)),
        ("laya.question_types"@, Pin::Int(QTYPES)),
        ("laya.max_len"@, Pin::Int(512)),
        ("laya.head_max_len"@, Pin::Int(192)),
        ("laya.max_prefixes"@, Pin::Int(6)),
    ]
}

/// Whether a header holds a per-size temperature table as text.
pub open spec fn has_options_text(kv: Seq<(Seq<char>, ValueView)>) -> bool {
    lookup(kv, "laya.temperature_by_options"@) matches Some(ValueView::Str(_))
}

/// The per-size temperatures a header's table gives: the entries sorted by key where the
/// header holds the table as text, else none.
fn options_of(h: &Header, by_options: Vec<(String, u32)>) -> (r: Vec<(String, u32)>)
    ensures
        pair_views(r@) == (if has_options_text(h@.kv) {
            sorted_by_key(pair_views(by_options@))
        } else {
            Seq::empty()
        }),
{
    match h.get("laya.temperature_by_options") {
        Some(Value::Str(_)) => sort_by_key(by_options),
        _ => {
            assert(pair_views(Seq::<(String, u32)>::empty()) =~= Seq::empty());
            Vec::new()
        },
    }
}

/// What is wrong with one pinned key: missing, of the wrong kind, or another value.
#[verifier::opaque]
pub open spec fn pin_error(kv: Seq<(Seq<char>, ValueView)>, key: Seq<char>, pin: Pin) -> Option<MetaErrorView> {
    match lookup(kv, key) {
        None => Some(MetaErrorView::Missing(key)),
        Some(v) => match pin {
            Pin::Int(want) => match as_u64_spec(v) {
                None => Some(MetaErrorView::NotInteger(key)),
                Some(got) => if got as usize != want {
                    Some(MetaErrorView::IntPin(key, got, want))
                } else {
                    None
                },
            },
            Pin::Float(want) => match f32_bits_of(v) {
                None => Some(MetaErrorView::NotFloat(key)),
                Some(got) => if got != want {
                    Some(MetaErrorView::FloatPin(key, got, want))
                } else {
                    None
                },
            },
        },
    }
}

/// The first pinned key that is wrong.
pub open spec fn first_pin_error(kv: Seq<(Seq<char>, ValueView)>, ps: Seq<(Seq<char>, Pin)>) -> Option<MetaErrorView>
    decreases ps.len(),
{
    if ps.len() == 0 {
        None
    } else {
        match pin_error(kv, ps[0].0, ps[0].1) {
            Some(e) => Some(e),
            None => first_pin_error(kv, ps.subrange(1, ps.len() as int)),
        }
    }
}

/// The model's hyper-parameters as read from its file; the numbers by their `f32` bit
/// patterns.
pub struct ModelMeta {
    pub hidden: usize,
    pub layers: usize,
    pub heads: usize,
    pub head_dim: usize,
    pub inter: usize,
    pub vocab: usize,
    pub scale: u32,
    pub eps: u32,
    pub window: usize,
    pub global_every: usize,
    pub head_layers: usize,
    pub act_input: usize,
    pub question_types: usize,
    pub max_len: usize,
    pub head_max_len: usize,
    pub max_prefixes: usize,
    pub file_type: u32,
    pub temperature: [u32; 3],
    pub temperature_by_options: Vec<(String, u32)>,
}

/// Whether `m` holds the values this build pins.
pub open spec fn pinned(m: ModelMeta) -> bool {
    &&& m.hidden == H && m.layers == NLAYER && m.heads == NH && m.head_dim == HD
    &&& m.inter == INTER && m.vocab == NVOCAB && m.scale == SCALE_BITS && m.eps == EPS_BITS
    &&& m.window == WINDOW as usize && m.global_every == GLOBAL_EVERY && m.head_layers == HEAD_LAYERS
    &&& m.act_input == ACT_INPUT && m.question_types == QTYPES
    &&& m.max_len == 512 && m.head_max_len == 192 && m.max_prefixes == 6
}

/// What is wrong with the metadata of a model file: another architecture, then the first
/// wrong pinned key, then a missing temperature.
pub open spec fn meta_error(kv: Seq<(Seq<char>, ValueView)>) -> Option<MetaErrorView> {
    let arch = architecture_of(kv);
    if arch != "laya"@ {
        Some(MetaErrorView::Architecture(arch))
    } else {
        match first_pin_error(kv, pin_list()) {
            Some(e) => Some(e),
            None => match missing_temperature(kv) {
                Some(k) => Some(MetaErrorView::Missing(k)),
                None => None,
            },
        }
    }
}

/// The architecture a header names, "" when it names none.
#[verifier::opaque]
pub open spec fn architecture_of(kv: Seq<(Seq<char>, ValueView)>) -> Seq<char> {
    match lookup(kv, "general.architecture"@) {
        Some(ValueView::Str(s)) => s,
        _ => Seq::empty(),
    }
}

/// The number under `key`, by bit pattern, if there is one.
#[verifier::opaque]
pub open spec fn float_at(kv: Seq<(Seq<char>, ValueView)>, key: Seq<char>) -> Option<u32> {
    match lookup(kv, key) {
        Some(v) => f32_bits_of(v),
        None => None,
    }
}

/// The first temperature key without a number under it.
pub open spec fn missing_temperature(kv: Seq<(Seq<char>, ValueView)>) -> Option<Seq<char>> {
    if float_at(kv, "laya.temperature.0"@) is None {
        Some("laya.temperature.0"@)
    } else if float_at(kv, "laya.temperature.1"@) is None {
        Some("laya.temperature.1"@)
    } else if float_at(kv, "laya.temperature.2"@) is None {
        Some("laya.temperature.2"@)
    } else {
        None
    }
}

/// What one pinned key of a header says against its pin.
fn check_pin(h: &Header, key: &str, pin: &Pin) -> (r: Option<MetaError>)
    ensures
        match r {
            Some(e) => pin_error(h@.kv, key@, *pin) == Some(e@),
            None => pin_error(h@.kv, key@, *pin) is None,
        },
{
    reveal(pin_error);
    match h.get(key) {
        None => Some(MetaError::Missing(key.to_owned())),
        Some(v) => match pin {
            Pin::Int(want) => match v.as_u64() {
                None => Some(MetaError::NotInteger(key.to_owned())),
                Some(got) => if got as usize != *want {
                    Some(MetaError::IntPin(key.to_owned(), got, *want))
                } else {
                    None
                },
            },
            Pin::Float(want) => match v.as_f32_bits() {
                None => Some(MetaError::NotFloat(key.to_owned())),
                Some(got) => if got != *want {
                    Some(MetaError::FloatPin(key.to_owned(), got, *want))
                } else {
                    None
                },
            },
        },
    }
}

/// The file type a header declares, `FT_MOSTLY_F16` when it declares none.
pub open spec fn file_type_of(kv: Seq<(Seq<char>, ValueView)>) -> u32 {
    (match lookup(kv, "general.file_type"@) {
        Some(v) => match as_u64_spec(v) {
            Some(x) => x,
            None => FT_MOSTLY_F16 as u64,
        },
        None => FT_MOSTLY_F16 as u64,
    }) as u32
}

/// The first pinned key of a header that is wrong.
fn check_pins(h: &Header) -> (r: Option<MetaError>)
    ensures
        match r {
            Some(e) => first_pin_error(h@.kv, pin_list()) == Some(e@),
            None => first_pin_error(h@.kv, pin_list()) is None,
        },
{
    let ghost kv = h@.kv;
        let keys: [&str; 16] = [
            "laya.hidden_size",
            "laya.num_layers",
            "laya.num_heads",
            "laya.head_dim",
            "laya.intermediate_size",
            "laya.vocab_size",
            "laya.attention_scale",
            "laya.layer_norm_epsilon",
            "laya.sliding_window",
            "laya.global_layer_every",
            "laya.head_layers",
            "laya.act_input_features",
            "laya.question_types",
            "laya.max_len",
            "laya.head_max_len",
            "laya.max_prefixes",
        ];
        let pins: [Pin; 16] = [
            Pin::Int(H),
            Pin::Int(NLAYER),
            Pin::Int(NH),
            Pin::Int(HD),
            Pin::Int(INTER),
            Pin::Int(NVOCAB),
            Pin::Float(SCALE_BITS),
            Pin::Float(EPS_BITS),
            Pin::Int(WINDOW as usize),
            Pin::Int(GLOBAL_EVERY),
            Pin::Int(HEAD_LAYERS),
            Pin::Int(ACT_INPUT),
            Pin::Int(QTYPES),
            Pin::Int(512),
            Pin::Int(192),
            Pin::Int(6),
        ];
        let ghost table = pin_list();
        assert(forall|k: int| 0 <= k < 16 ==> #[trigger] keys@[k]@ == table[k].0 && pins@[k] == table[k].1);
        assert(table.subrange(0, 16) == table);
        let mut k: usize = 0;
        while k < 16
            invariant
                k <= 16,
                kv == h@.kv,
                table == pin_list(),
                forall|k: int| 0 <= k < 16 ==> #[trigger] keys@[k]@ == table[k].0 && pins@[k] == table[k].1,
                first_pin_error(kv, table) == first_pin_error(kv, table.subrange(k as int, 16)),
            decreases 16 - k,
        {
            let ghost rest = table.subrange(k as int, 16);
            assert(rest[0] == table[k as int]);
            assert(rest.subrange(1, rest.len() as int) == table.subrange(k + 1, 16));
            match check_pin(h, keys[k], &pins[k]) {
                Some(e) => return Some(e),
                None => {},
            }
            k = k + 1;
        }
    None
}

/// The number under `key`, by bit pattern.
fn read_float(h: &Header, key: &str) -> (r: Option<u32>)
    ensures
        r == float_at(h@.kv, key@),
{
    reveal(float_at);
    match h.get(key) {
        Some(v) => v.as_f32_bits(),
        None => None,
    }
}

/// The three temperatures of a header, by bit pattern; the first one missing is the error.
fn read_temperatures(h: &Header) -> (r: Result<[u32; 3], MetaError>)
    ensures
        match r {
            Ok(t) => {
                &&& missing_temperature(h@.kv) is None
                &&& float_at(h@.kv, "laya.temperature.0"@) == Some(t@[0])
                &&& float_at(h@.kv, "laya.temperature.1"@) == Some(t@[1])
                &&& float_at(h@.kv, "laya.temperature.2"@) == Some(t@[2])
            },
            Err(e) => missing_temperature(h@.kv) matches Some(k) && e@ == MetaErrorView::Missing(k),
        },
{
    let a = match read_float(h, "laya.temperature.0") {
        Some(x) => x,
        None => return Err(MetaError::Missing("laya.temperature.0".to_owned())),
    };
    let b = match read_float(h, "laya.temperature.1") {
        Some(x) => x,
        None => return Err(MetaError::Missing("laya.temperature.1".to_owned())),
    };
    let c = match read_float(h, "laya.temperature.2") {
        Some(x) => x,
        None => return Err(MetaError::Missing("laya.temperature.2".to_owned())),
    };
    Ok([a, b, c])
}

impl ModelMeta {
    /// The pinned hyper-parameters, mostly-f16 weights, and temperatures of 1.
    pub fn defaults() -> (m: ModelMeta)
        ensures
            pinned(m),
            m.file_type == FT_MOSTLY_F16,
            m.temperature@ == seq![0x3f80_0000u32, 0x3f80_0000u32, 0x3f80_0000u32],
            m.temperature_by_options@.len() == 0,
    {
        ModelMeta {
            hidden: H,
            layers: NLAYER,
            heads: NH,
            head_dim: HD,
            inter: INTER,
            vocab: NVOCAB,
            scale: SCALE_BITS,
            eps: EPS_BITS,
            window: WINDOW as usize,
            global_every: GLOBAL_EVERY,
            head_layers: HEAD_LAYERS,
            act_input: ACT_INPUT,
            question_types: QTYPES,
            max_len: 512,
            head_max_len: 192,
            max_prefixes: 6,
            file_type: FT_MOSTLY_F16,
            temperature: [0x3f80_0000, 0x3f80_0000, 0x3f80_0000],
            temperature_by_options: Vec::new(),
        }
    }

    /// The weight type the file type names, if it is one this build handles.
    pub fn dtype(&self) -> (r: Option<DType>)
        ensures
            r == (if self.file_type == FT_ALL_F32 {
                Some(DType::F32)
            } else if self.file_type == FT_MOSTLY_F16 {
                Some(DType::F16)
            } else {
                None
            }),
    {
        if self.file_type == FT_ALL_F32 {
            Some(DType::F32)
        } else if self.file_type == FT_MOSTLY_F16 {
            Some(DType::F16)
        } else {
            None
        }
    }

    /// Reads the hyper-parameters from a model file's metadata and checks them against the
    /// ones this build pins. The per-size temperatures are stored as JSON text under
    /// `laya.temperature_by_options`; `by_options` are that table's entries, each key with its
    /// number narrowed to single precision (see `temperature_entries`), which the model keeps
    /// sorted by key. Without such a text the model has none.
    pub fn from_header(h: &Header, by_options: Vec<(String, u32)>) -> (r: Result<ModelMeta, MetaError>)
        ensures
            match r {
                Ok(m) => {
                    &&& meta_error(h@.kv) is None
                    &&& pinned(m)
                    &&& m.file_type == file_type_of(h@.kv)
                    &&& float_at(h@.kv, "laya.temperature.0"@) == Some(m.temperature@[0])
                    &&& float_at(h@.kv, "laya.temperature.1"@) == Some(m.temperature@[1])
                    &&& float_at(h@.kv, "laya.temperature.2"@) == Some(m.temperature@[2])
                    &&& pair_views(m.temperature_by_options@) == (if has_options_text(h@.kv) {
                        sorted_by_key(pair_views(by_options@))
                    } else {
                        Seq::empty()
                    })
                },
                Err(e) => meta_error(h@.kv) == Some(e@),
            },
    {
        let ghost kv = h@.kv;
        let arch = h.str_or("general.architecture", "");
        assert(arch@ == architecture_of(kv)) by {
            reveal(architecture_of);
            reveal_strlit("");
        }
        if !str_eq(arch.as_str(), "laya") {
            return Err(MetaError::Architecture(arch));
        }
        match check_pins(h) {
            Some(e) => return Err(e),
            None => {},
        }
        let temperature = match read_temperatures(h) {
            Ok(t) => t,
            Err(e) => return Err(e),
        };
        let mut m = ModelMeta::defaults();
        m.file_type = h.u64_or("general.file_type", FT_MOSTLY_F16 as u64) as u32;
        m.temperature = temperature;
        m.temperature_by_options = options_of(h, by_options);
        Ok(m)
    }
}

} // verus!
