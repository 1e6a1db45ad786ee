//! Turning the upstream checkpoint into a model file: the checkpoint's configuration checked
//! against the pinned architecture, the tokenizer's tables, and each tensor in the requested
//! precision. Reading the checkpoint's files and writing the result are the caller's.
use crate::arch::{
    ACT_HIDDEN, ACT_INPUT, EPS_BITS, GLOBAL_EVERY, H, HD, HEAD_INTER, HEAD_LAYERS, INTER, NH, NLAYER, NVOCAB,
    QTYPES, ROPE_FREQ_FULL, ROPE_FREQ_SLIDING, SCALE_BITS, WINDOW, weight_names, weight_names_spec,
};
use crate::gguf::value::{Value, ValueView, lemma_view_values, view_values};
use crate::gguf::writer::{Writer, WriterView, file_bytes, file_fits, key_rules, kv_refusal, tensor_refusal};
use crate::gguf::GgufError;
use crate::tokenizer::{MergeRule, merge_key};
use vstd::utf8::encode_utf8;
use crate::gguf::format::{T_BF16, T_F16, T_F32};
use crate::gguf::tensor_data::{as_f16_bytes, as_f32_bytes, decode_f32, decoded, le16_all, le32_all};
use crate::weights::half::{f2h_spec, narrow_bits, narrow_spec};
use crate::text::str_eq;
use crate::json_text::{json_repr, json_text};
use crate::systemone::Json;
use vstd::prelude::*;

verus! {

/// What the checkpoint's encoder configuration says; the numbers it gives as floats by their
/// `f64` bit patterns. `norm_eps` is the configuration's `norm_eps`, or else its
/// `layer_norm_eps`.
pub struct CheckpointConfig {
    pub hidden_size: Option<u64>,
    pub num_hidden_layers: Option<u64>,
    pub num_attention_heads: Option<u64>,
    pub intermediate_size: Option<u64>,
    pub vocab_size: Option<u64>,
    pub norm_eps: Option<u64>,
    pub local_attention: Option<u64>,
    pub global_attn_every_n_layers: Option<u64>,
    pub has_rope_parameters: bool,
    pub rope_theta_full: Option<u64>,
    pub rope_theta_sliding: Option<u64>,
}

/// Why a checkpoint cannot be converted.
#[derive(Debug)]
pub enum ConvertError {
    /// A configuration entry is missing (named as the configuration names it).
    ConfigMissing(&'static str),
    /// A configuration number differs from the pinned one: the entry, its value, the pin.
    ConfigPin(&'static str, u64, usize),
    /// `local_attention` is not twice the sliding window.
    LocalAttention(u64),
    /// The layer-norm epsilon, as an `f32` bit pattern, is not the pinned one.
    NormEps(u32),
    /// The agent configuration has no temperature list.
    MissingTemperature,
    /// The agent configuration has this many temperatures, not one per question type.
    TemperatureCount(usize),
    /// The tokenizer has this many tokens, and the configuration this vocabulary size.
    VocabSize(usize, usize),
    /// The tokenizer lacks this special token.
    NoToken(&'static str),
    /// The checkpoint lacks this tensor.
    MissingTensor(String),
    /// The checkpoint stores this tensor in a type that cannot be widened.
    TensorType(String, String),
    /// The tensor's shape covers this many numbers, its data holds this many.
    TensorSize(String, usize, usize),
    /// The model file refused an entry.
    Gguf(crate::gguf::GgufError),
}

/// The configuration's checked values: hidden size, layer count, head count,
/// intermediate size, vocabulary size, global-layer period, and the rope thetas as `f32` bit
/// patterns.
pub struct CheckedConfig {
    pub hidden: usize,
    pub layers: usize,
    pub heads: usize,
    pub inter: usize,
    pub vocab: usize,
    pub global_every: usize,
    pub theta_full: u32,
    pub theta_sliding: u32,
}

pub enum ConfigErrorView {
    Missing(Seq<char>),
    Pin(Seq<char>, u64, usize),
    LocalAttention(u64),
    NormEps(u32),
}

/// The first thing wrong with a configuration: a missing entry (in the order hidden size,
/// layer count, head count, intermediate size, vocabulary size, norm epsilon, local
/// attention, global-layer period, rope parameters), then a number that differs from its pin
/// (hidden size, layer count, head count, intermediate size, vocabulary size, global-layer
/// period), then the local attention span, then the epsilon, then a missing rope theta.
pub open spec fn config_error(c: CheckpointConfig) -> Option<ConfigErrorView> {
    if c.hidden_size is None {
        Some(ConfigErrorView::Missing("hidden_size"@))
    } else if c.num_hidden_layers is None {
        Some(ConfigErrorView::Missing("num_hidden_layers"@))
    } else if c.num_attention_heads is None {
        Some(ConfigErrorView::Missing("num_attention_heads"@))
    } else if c.intermediate_size is None {
        Some(ConfigErrorView::Missing("intermediate_size"@))
    } else if c.vocab_size is None {
        Some(ConfigErrorView::Missing("vocab_size"@))
    } else if c.norm_eps is None {
        Some(ConfigErrorView::Missing("norm_eps"@))
    } else if c.local_attention is None {
        Some(ConfigErrorView::Missing("local_attention"@))
    } else if c.global_attn_every_n_layers is None {
        Some(ConfigErrorView::Missing("global_attn_every_n_layers"@))
    } else if !c.has_rope_parameters {
        Some(ConfigErrorView::Missing("rope_parameters"@))
    } else if c.hidden_size->0 as usize != H {
        Some(ConfigErrorView::Pin("hidden_size"@, c.hidden_size->0, H))
    } else if c.num_hidden_layers->0 as usize != NLAYER {
        Some(ConfigErrorView::Pin("num_hidden_layers"@, c.num_hidden_layers->0, NLAYER))
    } else if c.num_attention_heads->0 as usize != NH {
        Some(ConfigErrorView::Pin("num_attention_heads"@, c.num_attention_heads->0, NH))
    } else if c.intermediate_size->0 as usize != INTER {
        Some(ConfigErrorView::Pin("intermediate_size"@, c.intermediate_size->0, INTER))
    } else if c.vocab_size->0 as usize != NVOCAB {
        Some(ConfigErrorView::Pin("vocab_size"@, c.vocab_size->0, NVOCAB))
    } else if c.global_attn_every_n_layers->0 as usize != GLOBAL_EVERY {
        Some(ConfigErrorView::Pin("global_attn_every_n_layers"@, c.global_attn_every_n_layers->0, GLOBAL_EVERY))
    } else if c.local_attention->0 as usize != 2 * (WINDOW as usize) {
        Some(ConfigErrorView::LocalAttention(c.local_attention->0))
    } else if narrow_spec(c.norm_eps->0) != EPS_BITS {
        Some(ConfigErrorView::NormEps(narrow_spec(c.norm_eps->0)))
    } else if c.rope_theta_full is None {
        Some(ConfigErrorView::Missing("rope_parameters.full_attention.rope_theta"@))
    } else if c.rope_theta_sliding is None {
        Some(ConfigErrorView::Missing("rope_parameters.sliding_attention.rope_theta"@))
    } else {
        None
    }
}

impl ConvertError {
    /// The configuration error this is, if it is one.
    pub open spec fn config_view(&self) -> Option<ConfigErrorView> {
        match self {
            ConvertError::ConfigMissing(k) => Some(ConfigErrorView::Missing(k@)),
            ConvertError::ConfigPin(k, g, w) => Some(ConfigErrorView::Pin(k@, *g, *w)),
            ConvertError::LocalAttention(l) => Some(ConfigErrorView::LocalAttention(*l)),
            ConvertError::NormEps(e) => Some(ConfigErrorView::NormEps(*e)),
            _ => None,
        }
    }
}

/// Checks a checkpoint's configuration against the pinned architecture.
pub fn check_config(c: &CheckpointConfig) -> (r: Result<CheckedConfig, ConvertError>)
    ensures
        match r {
            Ok(k) => {
                &&& config_error(*c) is None
                &&& k.hidden == H && k.layers == NLAYER && k.heads == NH && k.inter == INTER
                &&& k.vocab == NVOCAB && k.global_every == GLOBAL_EVERY
                &&& k.theta_full == narrow_spec(c.rope_theta_full->0)
                &&& k.theta_sliding == narrow_spec(c.rope_theta_sliding->0)
            },
            Err(e) => config_error(*c) is Some && e.config_view() == config_error(*c),
        },
{
    let hidden = match c.hidden_size {
        Some(x) => x,
        None => return Err(ConvertError::ConfigMissing("hidden_size")),
    };
    let layers = match c.num_hidden_layers {
        Some(x) => x,
        None => return Err(ConvertError::ConfigMissing("num_hidden_layers")),
    };
    let heads = match c.num_attention_heads {
        Some(x) => x,
        None => return Err(ConvertError::ConfigMissing("num_attention_heads")),
    };
    let inter = match c.intermediate_size {
        Some(x) => x,
        None => return Err(ConvertError::ConfigMissing("intermediate_size")),
    };
    let vocab = match c.vocab_size {
        Some(x) => x,
        None => return Err(ConvertError::ConfigMissing("vocab_size")),
    };
    let eps = match c.norm_eps {
        Some(x) => x,
        None => return Err(ConvertError::ConfigMissing("norm_eps")),
    };
    let local = match c.local_attention {
        Some(x) => x,
        None => return Err(ConvertError::ConfigMissing("local_attention")),
    };
    let global_every = match c.global_attn_every_n_layers {
        Some(x) => x,
        None => return Err(ConvertError::ConfigMissing("global_attn_every_n_layers")),
    };
    if !c.has_rope_parameters {
        return Err(ConvertError::ConfigMissing("rope_parameters"));
    }
    if hidden as usize != H {
        return Err(ConvertError::ConfigPin("hidden_size", hidden, H));
    }
    if layers as usize != NLAYER {
        return Err(ConvertError::ConfigPin("num_hidden_layers", layers, NLAYER));
    }
    if heads as usize != NH {
        return Err(ConvertError::ConfigPin("num_attention_heads", heads, NH));
    }
    if inter as usize != INTER {
        return Err(ConvertError::ConfigPin("intermediate_size", inter, INTER));
    }
    if vocab as usize != NVOCAB {
        return Err(ConvertError::ConfigPin("vocab_size", vocab, NVOCAB));
    }
    if global_every as usize != GLOBAL_EVERY {
        return Err(ConvertError::ConfigPin("global_attn_every_n_layers", global_every, GLOBAL_EVERY));
    }
    if local as usize != 2 * (WINDOW as usize) {
        return Err(ConvertError::LocalAttention(local));
    }
    let eps32 = narrow_bits(eps);
    if eps32 != EPS_BITS {
        return Err(ConvertError::NormEps(eps32));
    }
    let full = match c.rope_theta_full {
        Some(x) => narrow_bits(x),
        None => return Err(ConvertError::ConfigMissing("rope_parameters.full_attention.rope_theta")),
    };
    let sliding = match c.rope_theta_sliding {
        Some(x) => narrow_bits(x),
        None => return Err(ConvertError::ConfigMissing("rope_parameters.sliding_attention.rope_theta")),
    };
    Ok(CheckedConfig {
        hidden: H,
        layers: NLAYER,
        heads: NH,
        inter: INTER,
        vocab: NVOCAB,
        global_every: GLOBAL_EVERY,
        theta_full: full,
        theta_sliding: sliding,
    })
}

/// An added token as the tokenizer file lists it: its content where that is a string, its
/// id where that is a non-negative integer, and whether it is marked special.
pub struct AddedToken {
    pub content: Option<String>,
    pub id: Option<u64>,
    pub special: bool,
}

pub open spec fn content_of(a: AddedToken) -> Seq<char> {
    match a.content {
        Some(c) => c@,
        None => Seq::empty(),
    }
}

/// `t` with `s` at index `i`, padded with empty strings first when `t` is shorter.
pub open spec fn put_at(t: Seq<Seq<char>>, i: int, s: Seq<char>) -> Seq<Seq<char>> {
    if i < t.len() {
        t.update(i, s)
    } else {
        (t + Seq::new((i - t.len()) as nat, |k: int| Seq::<char>::empty())).push(s)
    }
}

/// The largest vocabulary id, 0 when there is none.
pub open spec fn max_id(v: Seq<(String, Option<u64>)>) -> nat
    decreases v.len(),
{
    if v.len() == 0 {
        0
    } else {
        let m = max_id(v.drop_last());
        match v.last().1 {
            Some(i) => if i > m {
                i as nat
            } else {
                m
            },
            None => m,
        }
    }
}

/// Each vocabulary entry with an id written at its id, in order.
pub open spec fn fill_vocab(t: Seq<Seq<char>>, v: Seq<(String, Option<u64>)>) -> Seq<Seq<char>>
    decreases v.len(),
{
    if v.len() == 0 {
        t
    } else {
        let u = fill_vocab(t, v.drop_last());
        match v.last().1 {
            Some(i) => put_at(u, i as int, v.last().0@),
            None => u,
        }
    }
}

/// Each added token with an id written at its id, in order.
pub open spec fn fill_added(t: Seq<Seq<char>>, a: Seq<AddedToken>) -> Seq<Seq<char>>
    decreases a.len(),
{
    if a.len() == 0 {
        t
    } else {
        let u = fill_added(t, a.drop_last());
        match a.last().id {
            Some(i) => put_at(u, i as int, content_of(a.last())),
            None => u,
        }
    }
}

/// The token table a model file carries: one entry per id up to the largest, each the
/// vocabulary's token with that id, overwritten by an added token with that id, and empty
/// where no token has it.
pub open spec fn tokens_spec(v: Seq<(String, Option<u64>)>, a: Seq<AddedToken>) -> Seq<Seq<char>> {
    fill_added(fill_vocab(Seq::new(max_id(v) + 1, |k: int| Seq::<char>::empty()), v), a)
}

pub open spec fn string_views(v: Seq<String>) -> Seq<Seq<char>> {
    v.map_values(|s: String| s@)
}

/// Writes `s` at index `i`, padding with empty strings first.
fn put_string_at(t: &mut Vec<String>, i: usize, s: String)
    requires
        i < usize::MAX,
    ensures
        string_views(final(t)@) == put_at(string_views(old(t)@), i as int, s@),
{
    let ghost before = string_views(t@);
    if i < t.len() {
        t.set(i, s);
        assert(string_views(t@) =~= before.update(i as int, s@));
    } else {
        while t.len() < i
            invariant
                old(t)@.len() <= t@.len() <= i,
                string_views(t@) =~= before + Seq::new((t@.len() - before.len()) as nat, |k: int| Seq::<char>::empty()),
                before == string_views(old(t)@),
            decreases i - t.len(),
        {
            let ghost b2 = string_views(t@);
            t.push(String::new());
            assert(string_views(t@) =~= b2.push(Seq::<char>::empty()));
        }
        let ghost b3 = string_views(t@);
        t.push(s);
        assert(string_views(t@) =~= b3.push(s@));
    }
}

/// The token table a model file carries (see `tokens_spec`).
pub fn build_tokens(vocab: &Vec<(String, Option<u64>)>, added: &Vec<AddedToken>) -> (r: Vec<String>)
    requires
        forall|k: int| 0 <= k < vocab@.len() ==> (#[trigger] vocab@[k]).1 matches Some(i) && i < usize::MAX - 1 || vocab@[k].1 is None,
        forall|k: int| 0 <= k < added@.len() ==> (#[trigger] added@[k]).id matches Some(i) && i < usize::MAX - 1 || added@[k].id is None,
    ensures
        string_views(r@) == tokens_spec(vocab@, added@),
{
    let mut m: u64 = 0;
    let mut k: usize = 0;
    while k < vocab.len()
        invariant
            k <= vocab@.len(),
            m == max_id(vocab@.take(k as int)),
            m < usize::MAX - 1,
            forall|k: int| 0 <= k < vocab@.len() ==> (#[trigger] vocab@[k]).1 matches Some(i) && i < usize::MAX - 1 || vocab@[k].1 is None,
        decreases vocab.len() - k,
    {
        assert(vocab@.take(k + 1).drop_last() == vocab@.take(k as int));
        match vocab[k].1 {
            Some(i) => if i > m {
                m = i;
            },
            None => {},
        }
        k = k + 1;
    }
    assert(vocab@.take(vocab@.len() as int) == vocab@);
    let n = m as usize + 1;
    let mut t: Vec<String> = Vec::new();
    while t.len() < n
        invariant
            t@.len() <= n,
            string_views(t@) =~= Seq::new(t@.len(), |k: int| Seq::<char>::empty()),
        decreases n - t.len(),
    {
        let ghost b = string_views(t@);
        t.push(String::new());
        assert(string_views(t@) =~= b.push(Seq::<char>::empty()));
    }
    let ghost base = string_views(t@);
    assert(base == Seq::new(max_id(vocab@) + 1, |k: int| Seq::<char>::empty()));
    let mut k: usize = 0;
    while k < vocab.len()
        invariant
            k <= vocab@.len(),
            string_views(t@) == fill_vocab(base, vocab@.take(k as int)),
            forall|k: int| 0 <= k < vocab@.len() ==> (#[trigger] vocab@[k]).1 matches Some(i) && i < usize::MAX - 1 || vocab@[k].1 is None,
        decreases vocab.len() - k,
    {
        assert(vocab@.take(k + 1).drop_last() == vocab@.take(k as int));
        match vocab[k].1 {
            Some(i) => put_string_at(&mut t, i as usize, vocab[k].0.clone()),
            None => {},
        }
        k = k + 1;
    }
    let ghost mid = string_views(t@);
    let mut k: usize = 0;
    while k < added.len()
        invariant
            k <= added@.len(),
            string_views(t@) == fill_added(mid, added@.take(k as int)),
            mid == fill_vocab(base, vocab@),
            forall|k: int| 0 <= k < added@.len() ==> (#[trigger] added@[k]).id matches Some(i) && i < usize::MAX - 1 || added@[k].id is None,
        decreases added.len() - k,
    {
        assert(added@.take(k + 1).drop_last() == added@.take(k as int));
        match added[k].id {
            Some(i) => {
                let c = match &added[k].content {
                    Some(c) => c.clone(),
                    None => String::new(),
                };
                put_string_at(&mut t, i as usize, c);
            },
            None => {},
        }
        k = k + 1;
    }
    assert(added@.take(added@.len() as int) == added@);
    t
}

/// The token types: 1 for an ordinary token, 3 for a special added token and 4 for another
/// added token, where the added token's id is below `n`.
pub open spec fn types_spec(a: Seq<AddedToken>, n: nat) -> Seq<i32>
    decreases a.len(),
{
    if a.len() == 0 {
        Seq::new(n, |k: int| 1i32)
    } else {
        let t = types_spec(a.drop_last(), n);
        let id = match a.last().id {
            Some(i) => i,
            None => u64::MAX,
        };
        if (id as usize) < n {
            t.update(id as usize as int, if a.last().special {
                3i32
            } else {
                4i32
            })
        } else {
            t
        }
    }
}

pub fn build_token_types(added: &Vec<AddedToken>, n: usize) -> (r: Vec<i32>)
    ensures
        r@ == types_spec(added@, n as nat),
{
    let mut t: Vec<i32> = Vec::new();
    while t.len() < n
        invariant
            t@.len() <= n,
            t@ =~= Seq::new(t@.len(), |k: int| 1i32),
        decreases n - t.len(),
    {
        t.push(1);
    }
    let mut k: usize = 0;
    while k < added.len()
        invariant
            k <= added@.len(),
            t@ == types_spec(added@.take(k as int), n as nat),
            t@.len() == n,
        decreases added.len() - k,
    {
        assert(added@.take(k + 1).drop_last() == added@.take(k as int));
        let id = match added[k].id {
            Some(i) => i,
            None => u64::MAX,
        };
        if (id as usize) < n {
            t.set(id as usize, if added[k].special {
                3
            } else {
                4
            });
        }
        k = k + 1;
    }
    assert(added@.take(added@.len() as int) == added@);
    t
}

/// The score of a token type, as an `f32` bit pattern: 0 for an ordinary token, -1000 for an
/// added one.
pub open spec fn score_bits(t: i32) -> u32 {
    if t == 1 {
        0
    } else {
        0xc47a_0000
    }
}

/// The id of the first added token whose content is `name`, as a `u32`; none when that
/// token has no id.
pub open spec fn token_id_of(a: Seq<AddedToken>, name: Seq<char>) -> Option<u32>
    decreases a.len(),
{
    if a.len() == 0 {
        None
    } else if a[0].content matches Some(c) && c@ == name {
        match a[0].id {
            Some(i) => Some(i as u32),
            None => None,
        }
    } else {
        token_id_of(a.subrange(1, a.len() as int), name)
    }
}

/// Whether the added token's content is `name`.
pub open spec fn named(t: AddedToken, name: Seq<char>) -> bool {
    t.content matches Some(c) && c@ == name
}

/// The id looked up for a name is that of the first added token with that content, and
/// there is none when no added token has it.
pub proof fn law_token_id_of_first_named(a: Seq<AddedToken>, name: Seq<char>, i: int)
    ensures
        (forall|j: int| 0 <= j < a.len() ==> !#[trigger] named(a[j], name)) ==> token_id_of(a, name) is None,
        0 <= i < a.len() && named(a[i], name) && (forall|j: int| 0 <= j < i ==> !#[trigger] named(a[j], name))
            ==> token_id_of(a, name) == (match a[i].id {
            Some(d) => Some(d as u32),
            None => None,
        }),
    decreases a.len(),
{
    if a.len() > 0 {
        let rest = a.subrange(1, a.len() as int);
        assert forall|j: int| 0 <= j < rest.len() implies rest[j] == a[j + 1] by {}
        law_token_id_of_first_named(rest, name, i - 1);
        if (forall|j: int| 0 <= j < a.len() ==> !#[trigger] named(a[j], name)) {
            assert(!named(a[0], name));
            assert forall|j: int| 0 <= j < rest.len() implies !#[trigger] named(rest[j], name) by {
                assert(!named(a[j + 1], name));
            }
        }
        if 0 < i < a.len() && named(a[i], name) && (forall|j: int| 0 <= j < i ==> !#[trigger] named(a[j], name)) {
            assert(!named(a[0], name));
            assert(named(rest[i - 1], name));
            assert forall|j: int| 0 <= j < i - 1 implies !#[trigger] named(rest[j], name) by {
                assert(!named(a[j + 1], name));
            }
        }
    }
}

pub fn token_id(added: &Vec<AddedToken>, name: &str) -> (r: Option<u32>)
    ensures
        r == token_id_of(added@, name@),
{
    let mut k: usize = 0;
    assert(added@.subrange(0, added@.len() as int) == added@);
    while k < added.len()
        invariant
            k <= added@.len(),
            token_id_of(added@, name@) == token_id_of(added@.subrange(k as int, added@.len() as int), name@),
        decreases added.len() - k,
    {
        let ghost rest = added@.subrange(k as int, added@.len() as int);
        assert(rest[0] == added@[k as int]);
        assert(rest.subrange(1, rest.len() as int) == added@.subrange(k + 1, added@.len() as int));
        match &added[k].content {
            Some(c) => if str_eq(c.as_str(), name) {
                return match added[k].id {
                    Some(i) => Some(i as u32),
                    None => None,
                };
            },
            None => {},
        }
        k = k + 1;
    }
    None
}

/// A checkpoint tensor: its type as the checkpoint names it ("F32", "F16", "BF16"), its
/// shape, outermost dimension first, and its data.
pub struct SourceTensor {
    pub dtype: String,
    pub dims: Vec<usize>,
    pub data: Vec<u8>,
}

/// A tensor as the model file stores it: its data, its dimensions innermost first, its type,
/// and whether its data is the checkpoint's unchanged.
pub struct Converted {
    pub data: Vec<u8>,
    pub dims: Vec<u64>,
    pub ty: u32,
    pub copied: bool,
}

pub open spec fn elem_count(d: Seq<usize>) -> int
    decreases d.len(),
{
    if d.len() == 0 {
        1
    } else {
        elem_count(d.drop_last()) * d.last()
    }
}

/// The GGUF type a checkpoint type name reads as.
pub open spec fn source_type(dtype: Seq<char>) -> Option<u32> {
    if dtype == "F32"@ {
        Some(T_F32)
    } else if dtype == "F16"@ {
        Some(T_F16)
    } else if dtype == "BF16"@ {
        Some(T_BF16)
    } else {
        None
    }
}

/// Whether a tensor is already in the requested precision, so that its data is copied.
pub open spec fn copies(t: SourceTensor, half: bool) -> bool {
    (half && t.dtype@ == "F16"@) || (!half && t.dtype@ == "F32"@)
}

/// The numbers of a tensor that is widened, by `f32` bit pattern.
pub open spec fn source_numbers(t: SourceTensor) -> Seq<u32> {
    decoded(t.data@, source_type(t.dtype@)->0)->0
}

/// A tensor's data in the model file: the checkpoint's when it is copied, else its numbers
/// written in the requested precision.
pub open spec fn converted_data(t: SourceTensor, half: bool) -> Seq<u8> {
    if copies(t, half) {
        t.data@
    } else if half {
        le16_all(source_numbers(t).map_values(|b: u32| f2h_spec(b)))
    } else {
        le32_all(source_numbers(t))
    }
}

/// A tensor's dimensions as the model file stores them: innermost first.
pub open spec fn file_dims(d: Seq<usize>) -> Seq<u64> {
    d.reverse().map_values(|x: usize| x as u64)
}

/// Whether every partial product of a shape, taken from the outermost dimension in, fits a
/// `usize`.
pub open spec fn counts_fit(d: Seq<usize>) -> bool {
    forall|j: int| 0 <= j <= d.len() ==> elem_count(#[trigger] d.take(j)) <= usize::MAX
}

fn product_usize(d: &Vec<usize>) -> (r: usize)
    requires
        counts_fit(d@),
    ensures
        r == elem_count(d@),
{
    let mut p: usize = 1;
    let mut i: usize = 0;
    assert(d@.take(0) == Seq::<usize>::empty());
    while i < d.len()
        invariant
            i <= d@.len(),
            p == elem_count(d@.take(i as int)),
            counts_fit(d@),
        decreases d.len() - i,
    {
        assert(d@.take(i + 1).drop_last() == d@.take(i as int));
        assert(elem_count(d@.take(i + 1)) <= usize::MAX);
        p = p * d[i];
        i = i + 1;
    }
    assert(d@.take(d@.len() as int) == d@);
    p
}

/// A checkpoint tensor as the model file stores it: copied when it is in the requested
/// precision, else widened to single precision and written in the requested one.
pub fn convert_tensor(name: &str, t: &SourceTensor, half: bool) -> (r: Result<Converted, ConvertError>)
    requires
        counts_fit(t.dims@),
    ensures
        match r {
            Ok(c) => {
                &&& copies(*t, half) || (source_type(t.dtype@) is Some && source_numbers(*t).len() == elem_count(t.dims@))
                &&& c.data@ == converted_data(*t, half)
                &&& c.dims@ == file_dims(t.dims@)
                &&& c.ty == (if half {
                    T_F16
                } else {
                    T_F32
                })
                &&& c.copied == copies(*t, half)
            },
            Err(ConvertError::TensorType(n, d)) => !copies(*t, half) && source_type(t.dtype@) is None && n@ == name@ && d@ == t.dtype@,
            Err(ConvertError::TensorSize(n, want, got)) => {
                &&& !copies(*t, half)
                &&& source_type(t.dtype@) is Some
                &&& n@ == name@
                &&& want == elem_count(t.dims@)
                &&& got == source_numbers(*t).len()
                &&& got != want
            },
            Err(_) => false,
        },
{
    let mut dims: Vec<u64> = Vec::new();
    let n = t.dims.len();
    let mut i: usize = 0;
    while i < n
        invariant
            i <= n == t.dims@.len(),
            dims@ == t.dims@.reverse().take(i as int).map_values(|x: usize| x as u64),
        decreases n - i,
    {
        dims.push(t.dims[n - 1 - i] as u64);
        i = i + 1;
        assert(dims@ =~= t.dims@.reverse().take(i as int).map_values(|x: usize| x as u64));
    }
    assert(t.dims@.reverse().take(n as int) == t.dims@.reverse());
    let copy = (half && str_eq(t.dtype.as_str(), "F16")) || (!half && str_eq(t.dtype.as_str(), "F32"));
    let ty = if half {
        T_F16
    } else {
        T_F32
    };
    if copy {
        return Ok(Converted { data: t.data.clone(), dims, ty, copied: true });
    }
    let src = if str_eq(t.dtype.as_str(), "F32") {
        T_F32
    } else if str_eq(t.dtype.as_str(), "F16") {
        T_F16
    } else if str_eq(t.dtype.as_str(), "BF16") {
        T_BF16
    } else {
        return Err(ConvertError::TensorType(name.to_owned(), t.dtype.clone()));
    };
    let bits = match decode_f32(t.data.as_slice(), src) {
        Some(b) => b,
        None => return Err(ConvertError::TensorType(name.to_owned(), t.dtype.clone())),
    };
    let want = product_usize(&t.dims);
    if bits.len() != want {
        return Err(ConvertError::TensorSize(name.to_owned(), want, bits.len()));
    }
    let data = if half {
        as_f16_bytes(bits.as_slice())
    } else {
        as_f32_bytes(bits.as_slice())
    };
    Ok(Converted { data, dims, ty, copied: false })
}

fn push_kv(v: &mut Vec<(String, Value)>, key: &str, val: Value)
    ensures
        kv_views(final(v)@) == kv_views(old(v)@).push((key@, val@)),
{
    let e = (key.to_owned(), val);
    v.push(e);
    assert(kv_views(v@) =~= kv_views(old(v)@).push((key@, e.1@)));
}

pub open spec fn kv_views(v: Seq<(String, Value)>) -> Seq<(Seq<char>, ValueView)> {
    v.map_values(|p: (String, Value)| (p.0@, p.1@))
}

/// Strings as a metadata array.
fn str_array(v: &Vec<String>) -> (r: Value)
    ensures
        r@ == ValueView::Array(string_views(v@).map_values(|s: Seq<char>| ValueView::Str(s))),
{
    let mut a: Vec<Value> = Vec::new();
    let mut i: usize = 0;
    while i < v.len()
        invariant
            i <= v@.len(),
            a@.len() == i,
            forall|j: int| 0 <= j < i ==> #[trigger] view_value_of(a@[j]) == ValueView::Str(v@[j]@),
        decreases v.len() - i,
    {
        a.push(Value::Str(v[i].clone()));
        i = i + 1;
    }
    proof {
        lemma_view_values(a@);
        assert forall|j: int| 0 <= j < a@.len() implies #[trigger] view_values(a@)[j] == string_views(v@).map_values(|s: Seq<char>| ValueView::Str(s))[j] by {
            assert(view_value_of(a@[j]) == ValueView::Str(v@[j]@));
        }
        assert(view_values(a@) =~= string_views(v@).map_values(|s: Seq<char>| ValueView::Str(s)));
    }
    Value::Array(a)
}

pub open spec fn view_value_of(v: Value) -> ValueView {
    v@
}

/// Token types as a metadata array.
fn i32_array(v: &Vec<i32>) -> (r: Value)
    ensures
        r@ == ValueView::Array(v@.map_values(|t: i32| ValueView::I32(t))),
{
    let mut a: Vec<Value> = Vec::new();
    let mut i: usize = 0;
    while i < v.len()
        invariant
            i <= v@.len(),
            a@.len() == i,
            forall|j: int| 0 <= j < i ==> #[trigger] view_value_of(a@[j]) == ValueView::I32(v@[j]),
        decreases v.len() - i,
    {
        a.push(Value::I32(v[i]));
        i = i + 1;
    }
    proof {
        lemma_view_values(a@);
        assert forall|j: int| 0 <= j < a@.len() implies #[trigger] view_values(a@)[j] == v@.map_values(|t: i32| ValueView::I32(t))[j] by {
            assert(view_value_of(a@[j]) == ValueView::I32(v@[j]));
        }
        assert(view_values(a@) =~= v@.map_values(|t: i32| ValueView::I32(t)));
    }
    Value::Array(a)
}

/// The token scores, as `f32` bit patterns, as a metadata array.
fn score_array(v: &Vec<i32>) -> (r: Value)
    ensures
        r@ == ValueView::Array(v@.map_values(|t: i32| ValueView::F32(score_bits(t)))),
{
    let mut a: Vec<Value> = Vec::new();
    let mut i: usize = 0;
    while i < v.len()
        invariant
            i <= v@.len(),
            a@.len() == i,
            forall|j: int| 0 <= j < i ==> #[trigger] view_value_of(a@[j]) == ValueView::F32(score_bits(v@[j])),
        decreases v.len() - i,
    {
        let b: u32 = if v[i] == 1 {
            0
        } else {
            0xc47a_0000
        };
        a.push(Value::F32(b));
        i = i + 1;
    }
    proof {
        lemma_view_values(a@);
        assert forall|j: int| 0 <= j < a@.len() implies #[trigger] view_values(a@)[j] == v@.map_values(|t: i32| ValueView::F32(score_bits(t)))[j] by {
            assert(view_value_of(a@[j]) == ValueView::F32(score_bits(v@[j])));
        }
        assert(view_values(a@) =~= v@.map_values(|t: i32| ValueView::F32(score_bits(t))));
    }
    Value::Array(a)
}

/// The special token ids a model file records: [CLS], [SEP], [MASK], [UNK] and [PAD].
pub struct SpecialIds {
    pub cls: u32,
    pub sep: u32,
    pub mask: u32,
    pub unk: u32,
    pub pad: u32,
}

/// What the agent configuration gives: the sequence limits where it gives them, the
/// temperatures (each by its `f64` bit pattern, none for an entry that is not a number) where
/// it gives a list, and its per-size temperature table (an empty object where it gives none),
/// which the model file stores as compact JSON text.
pub struct AgentConfig {
    pub max_len: Option<u64>,
    pub head_max_len: Option<u64>,
    pub max_prefixes: Option<u64>,
    pub temperature: Option<Vec<Option<u64>>>,
    pub by_options: Json,
}

pub open spec fn or_default(x: Option<u64>, d: u64) -> u64 {
    match x {
        Some(v) => v,
        None => d,
    }
}

/// The general metadata of a converted model file.
pub open spec fn general_meta(half: bool) -> Seq<(Seq<char>, ValueView)> {
    seq![
        ("general.architecture"@, ValueView::Str("laya"@)),
        ("general.name"@, ValueView::Str("Laya"@)),
        ("general.license"@, ValueView::Str("Apache-2.0"@)),
        ("general.repo_url"@, ValueView::Str("https://huggingface.co/convaiinnovations/laya"@)),
        ("general.description"@, ValueView::Str("Non-autoregressive decision engine: ModernBERT-large encoder plus a decision head that scores option markers."@)),
        ("general.file_type"@, ValueView::U32(if half { 1u32 } else { 0u32 })),
        ("general.alignment"@, ValueView::U32(32)),
        ("laya.weight_layout"@, ValueView::Str("ggml-canonical"@)),
    ]
}

/// The architecture metadata of a converted model file.
pub open spec fn laya_meta(c: CheckedConfig, a: AgentConfig, temps: Seq<u32>) -> Seq<(Seq<char>, ValueView)> {
    seq![
        ("laya.hidden_size"@, ValueView::U32(c.hidden as u32)),
        ("laya.num_layers"@, ValueView::U32(c.layers as u32)),
        ("laya.num_heads"@, ValueView::U32(c.heads as u32)),
        ("laya.head_dim"@, ValueView::U32((c.hidden / c.heads) as u32)),
        ("laya.intermediate_size"@, ValueView::U32(c.inter as u32)),
        ("laya.vocab_size"@, ValueView::U32(c.vocab as u32)),
        ("laya.attention_scale"@, ValueView::F32(SCALE_BITS)),
        ("laya.layer_norm_epsilon"@, ValueView::F32(EPS_BITS)),
        ("laya.sliding_window"@, ValueView::U32(WINDOW as u32)),
        ("laya.global_layer_every"@, ValueView::U32(c.global_every as u32)),
        ("laya.head_layers"@, ValueView::U32(HEAD_LAYERS as u32)),
        ("laya.head_intermediate_size"@, ValueView::U32(HEAD_INTER as u32)),
        ("laya.act_hidden_size"@, ValueView::U32(ACT_HIDDEN as u32)),
        ("laya.act_input_features"@, ValueView::U32(ACT_INPUT as u32)),
        ("laya.question_types"@, ValueView::U32(QTYPES as u32)),
        ("laya.rope_theta.full"@, ValueView::F32(c.theta_full)),
        ("laya.rope_theta.sliding"@, ValueView::F32(c.theta_sliding)),
        ("laya.max_len"@, ValueView::U32(or_default(a.max_len, 512) as u32)),
        ("laya.head_max_len"@, ValueView::U32(or_default(a.head_max_len, 192) as u32)),
        ("laya.max_prefixes"@, ValueView::U32(or_default(a.max_prefixes, 6) as u32)),
        ("laya.temperature.0"@, ValueView::F32(temps[0])),
        ("laya.temperature.1"@, ValueView::F32(temps[1])),
        ("laya.temperature.2"@, ValueView::F32(temps[2])),
        ("laya.temperature_by_options"@, ValueView::Str(json_repr(a.by_options))),
    ]
}

/// The tokenizer metadata of a converted model file.
pub open spec fn tokenizer_meta(tokens: Seq<Seq<char>>, merges: Seq<Seq<char>>, types: Seq<i32>, ids: SpecialIds, tok_text: Seq<char>) -> Seq<(Seq<char>, ValueView)> {
    seq![
        ("tokenizer.ggml.model"@, ValueView::Str("gpt2"@)),
        ("tokenizer.ggml.tokens"@, ValueView::Array(tokens.map_values(|s: Seq<char>| ValueView::Str(s)))),
        ("tokenizer.ggml.merges"@, ValueView::Array(merges.map_values(|s: Seq<char>| ValueView::Str(s)))),
        ("tokenizer.ggml.token_type"@, ValueView::Array(types.map_values(|t: i32| ValueView::I32(t)))),
        ("tokenizer.ggml.scores"@, ValueView::Array(types.map_values(|t: i32| ValueView::F32(score_bits(t))))),
        ("tokenizer.ggml.add_space_prefix"@, ValueView::Bool(false)),
        ("tokenizer.ggml.bos_token_id"@, ValueView::U32(ids.cls)),
        ("tokenizer.ggml.eos_token_id"@, ValueView::U32(ids.sep)),
        ("tokenizer.ggml.cls_token_id"@, ValueView::U32(ids.cls)),
        ("tokenizer.ggml.mask_token_id"@, ValueView::U32(ids.mask)),
        ("tokenizer.ggml.unknown_token_id"@, ValueView::U32(ids.unk)),
        ("tokenizer.ggml.padding_token_id"@, ValueView::U32(ids.pad)),
        ("tokenizer.huggingface.json"@, ValueView::Str(tok_text)),
    ]
}

/// The metadata of a converted model file, in the order it is written.
pub open spec fn metadata_spec(
    half: bool,
    c: CheckedConfig,
    a: AgentConfig,
    temps: Seq<u32>,
    tokens: Seq<Seq<char>>,
    merges: Seq<Seq<char>>,
    types: Seq<i32>,
    ids: SpecialIds,
    tok_text: Seq<char>,
) -> Seq<(Seq<char>, ValueView)> {
    general_meta(half) + laya_meta(c, a, temps) + tokenizer_meta(tokens, merges, types, ids, tok_text)
}

/// Appends the general metadata of a converted model file.
fn push_general(v: &mut Vec<(String, Value)>, half: bool)
    ensures
        kv_views(final(v)@) == kv_views(old(v)@) + general_meta(half),
{
    let ghost before = kv_views(v@);
    push_kv(v, "general.architecture", Value::Str("laya".to_owned()));
    push_kv(v, "general.name", Value::Str("Laya".to_owned()));
    push_kv(v, "general.license", Value::Str("Apache-2.0".to_owned()));
    push_kv(v, "general.repo_url", Value::Str("https://huggingface.co/convaiinnovations/laya".to_owned()));
    push_kv(
        v,
        "general.description",
        Value::Str(
            "Non-autoregressive decision engine: ModernBERT-large encoder plus a decision head that scores option markers.".to_owned(),
        ),
    );
    push_kv(v, "general.file_type", Value::U32(if half { 1 } else { 0 }));
    push_kv(v, "general.alignment", Value::U32(32));
    push_kv(v, "laya.weight_layout", Value::Str("ggml-canonical".to_owned()));
    assert(kv_views(v@) =~= before + general_meta(half));
}

/// Appends the architecture metadata of a converted model file.
fn push_laya(v: &mut Vec<(String, Value)>, c: &CheckedConfig, a: &AgentConfig, temps: &Vec<u32>)
    requires
        temps@.len() == 3,
        c.heads > 0,
    ensures
        kv_views(final(v)@) == kv_views(old(v)@) + laya_meta(*c, *a, temps@),
{
    let ghost before = kv_views(v@);
    let ml = match a.max_len {
        Some(x) => x,
        None => 512,
    };
    let hml = match a.head_max_len {
        Some(x) => x,
        None => 192,
    };
    let mp = match a.max_prefixes {
        Some(x) => x,
        None => 6,
    };
    push_kv(v, "laya.hidden_size", Value::U32(c.hidden as u32));
    push_kv(v, "laya.num_layers", Value::U32(c.layers as u32));
    push_kv(v, "laya.num_heads", Value::U32(c.heads as u32));
    push_kv(v, "laya.head_dim", Value::U32((c.hidden / c.heads) as u32));
    push_kv(v, "laya.intermediate_size", Value::U32(c.inter as u32));
    push_kv(v, "laya.vocab_size", Value::U32(c.vocab as u32));
    push_kv(v, "laya.attention_scale", Value::F32(SCALE_BITS));
    push_kv(v, "laya.layer_norm_epsilon", Value::F32(EPS_BITS));
    push_kv(v, "laya.sliding_window", Value::U32(WINDOW as u32));
    push_kv(v, "laya.global_layer_every", Value::U32(c.global_every as u32));
    push_kv(v, "laya.head_layers", Value::U32(HEAD_LAYERS as u32));
    push_kv(v, "laya.head_intermediate_size", Value::U32(HEAD_INTER as u32));
    push_kv(v, "laya.act_hidden_size", Value::U32(ACT_HIDDEN as u32));
    push_kv(v, "laya.act_input_features", Value::U32(ACT_INPUT as u32));
    push_kv(v, "laya.question_types", Value::U32(QTYPES as u32));
    push_kv(v, "laya.rope_theta.full", Value::F32(c.theta_full));
    push_kv(v, "laya.rope_theta.sliding", Value::F32(c.theta_sliding));
    push_kv(v, "laya.max_len", Value::U32(ml as u32));
    push_kv(v, "laya.head_max_len", Value::U32(hml as u32));
    push_kv(v, "laya.max_prefixes", Value::U32(mp as u32));
    push_kv(v, "laya.temperature.0", Value::F32(temps[0]));
    push_kv(v, "laya.temperature.1", Value::F32(temps[1]));
    push_kv(v, "laya.temperature.2", Value::F32(temps[2]));
    let table = json_text(&a.by_options);
    push_kv(v, "laya.temperature_by_options", Value::Str(table));
    assert(kv_views(v@) =~= before + laya_meta(*c, *a, temps@));
}

/// Appends the tokenizer metadata of a converted model file.
fn push_tokenizer(v: &mut Vec<(String, Value)>, tokens: &Vec<String>, merges: &Vec<String>, types: &Vec<i32>, ids: &SpecialIds, tok_text: &String)
    ensures
        kv_views(final(v)@) == kv_views(old(v)@) + tokenizer_meta(string_views(tokens@), string_views(merges@), types@, *ids, tok_text@),
{
    let ghost before = kv_views(v@);
    push_kv(v, "tokenizer.ggml.model", Value::Str("gpt2".to_owned()));
    push_kv(v, "tokenizer.ggml.tokens", str_array(tokens));
    push_kv(v, "tokenizer.ggml.merges", str_array(merges));
    push_kv(v, "tokenizer.ggml.token_type", i32_array(types));
    push_kv(v, "tokenizer.ggml.scores", score_array(types));
    push_kv(v, "tokenizer.ggml.add_space_prefix", Value::Bool(false));
    push_kv(v, "tokenizer.ggml.bos_token_id", Value::U32(ids.cls));
    push_kv(v, "tokenizer.ggml.eos_token_id", Value::U32(ids.sep));
    push_kv(v, "tokenizer.ggml.cls_token_id", Value::U32(ids.cls));
    push_kv(v, "tokenizer.ggml.mask_token_id", Value::U32(ids.mask));
    push_kv(v, "tokenizer.ggml.unknown_token_id", Value::U32(ids.unk));
    push_kv(v, "tokenizer.ggml.padding_token_id", Value::U32(ids.pad));
    push_kv(v, "tokenizer.huggingface.json", Value::Str(tok_text.clone()));
    assert(kv_views(v@) =~= before + tokenizer_meta(string_views(tokens@), string_views(merges@), types@, *ids, tok_text@));
}

/// The metadata of a converted model file (see `metadata_spec`).
fn metadata(
    half: bool,
    c: &CheckedConfig,
    a: &AgentConfig,
    temps: &Vec<u32>,
    tokens: &Vec<String>,
    merges: &Vec<String>,
    types: &Vec<i32>,
    ids: &SpecialIds,
    tok_text: &String,
) -> (r: Vec<(String, Value)>)
    requires
        temps@.len() == 3,
        c.heads > 0,
    ensures
        kv_views(r@) == metadata_spec(half, *c, *a, temps@, string_views(tokens@), string_views(merges@), types@, *ids, tok_text@),
{
    let mut v: Vec<(String, Value)> = Vec::new();
    assert(kv_views(v@) =~= Seq::empty());
    push_general(&mut v, half);
    push_laya(&mut v, c, a, temps);
    push_tokenizer(&mut v, tokens, merges, types, ids, tok_text);
    assert(kv_views(v@) =~= metadata_spec(half, *c, *a, temps@, string_views(tokens@), string_views(merges@), types@, *ids, tok_text@));
    v
}

/// Why one tensor cannot be planned: the checkpoint lacks it, stores it in a type that cannot
/// be widened, or gives data that does not hold the numbers its shape counts.
pub enum TensorFailure {
    Missing,
    Type(Seq<char>),
    Size(usize, usize),
}

/// The first checkpoint tensor with this name.
pub open spec fn source_of(ts: Seq<(String, SourceTensor)>, name: Seq<char>) -> Option<SourceTensor>
    decreases ts.len(),
{
    if ts.len() == 0 {
        None
    } else if ts[0].0@ == name {
        Some(ts[0].1)
    } else {
        source_of(ts.subrange(1, ts.len() as int), name)
    }
}

/// How one model tensor is written: the two rope tables from the given data as F32 vectors,
/// every other tensor converted from the checkpoint's; with whether it was copied.
pub open spec fn tensor_step(
    name: Seq<char>,
    ts: Seq<(String, SourceTensor)>,
    rope_full: Seq<u8>,
    rope_sliding: Seq<u8>,
    half: bool,
) -> Result<(Seq<u64>, u32, Seq<u8>, bool), TensorFailure> {
    if name == ROPE_FREQ_FULL@ {
        Ok((seq![(HD / 2) as u64], T_F32, rope_full, false))
    } else if name == ROPE_FREQ_SLIDING@ {
        Ok((seq![(HD / 2) as u64], T_F32, rope_sliding, false))
    } else {
        match source_of(ts, name) {
            None => Err(TensorFailure::Missing),
            Some(t) => if !copies(t, half) && source_type(t.dtype@) is None {
                Err(TensorFailure::Type(t.dtype@))
            } else if !copies(t, half) && source_numbers(t).len() != elem_count(t.dims@) {
                Err(TensorFailure::Size(elem_count(t.dims@) as usize, source_numbers(t).len() as usize))
            } else {
                Ok((file_dims(t.dims@), if half {
                    T_F16
                } else {
                    T_F32
                }, converted_data(t, half), copies(t, half)))
            },
        }
    }
}

impl ConvertError {
    /// The tensor failure this is, with the tensor's name, if it is one.
    pub open spec fn tensor_view(&self) -> Option<(Seq<char>, TensorFailure)> {
        match self {
            ConvertError::MissingTensor(n) => Some((n@, TensorFailure::Missing)),
            ConvertError::TensorType(n, d) => Some((n@, TensorFailure::Type(d@))),
            ConvertError::TensorSize(n, w, g) => Some((n@, TensorFailure::Size(*w, *g))),
            _ => None,
        }
    }
}

/// Whether every checkpoint tensor's partial element counts fit a `usize`.
pub open spec fn sources_fit(ts: Seq<(String, SourceTensor)>) -> bool {
    forall|k: int| 0 <= k < ts.len() ==> counts_fit((#[trigger] ts[k]).1.dims@)
}

/// The first checkpoint tensor with this name.
fn find_source<'a>(ts: &'a Vec<(String, SourceTensor)>, name: &str) -> (r: Option<&'a SourceTensor>)
    ensures
        match r {
            Some(t) => source_of(ts@, name@) == Some(*t),
            None => source_of(ts@, name@) is None,
        },
        r matches Some(t) ==> exists|k: int| 0 <= k < ts@.len() && ts@[k].1 == *t,
{
    let mut k: usize = 0;
    assert(ts@.subrange(0, ts@.len() as int) == ts@);
    while k < ts.len()
        invariant
            k <= ts@.len(),
            source_of(ts@, name@) == source_of(ts@.subrange(k as int, ts@.len() as int), name@),
        decreases ts.len() - k,
    {
        let ghost rest = ts@.subrange(k as int, ts@.len() as int);
        assert(rest[0] == ts@[k as int]);
        assert(rest.subrange(1, rest.len() as int) == ts@.subrange(k + 1, ts@.len() as int));
        if str_eq(ts[k].0.as_str(), name) {
            return Some(&ts[k].1);
        }
        k = k + 1;
    }
    None
}

/// One model tensor as it is written (see `tensor_step`).
fn plan_tensor(name: &str, ts: &Vec<(String, SourceTensor)>, rope_full: &Vec<u8>, rope_sliding: &Vec<u8>, half: bool) -> (r: Result<Converted, ConvertError>)
    requires
        sources_fit(ts@),
    ensures
        match r {
            Ok(c) => tensor_step(name@, ts@, rope_full@, rope_sliding@, half) == Ok::<_, TensorFailure>((c.dims@, c.ty, c.data@, c.copied)),
            Err(e) => tensor_step(name@, ts@, rope_full@, rope_sliding@, half) is Err && e.tensor_view() == Some(
                (name@, tensor_step(name@, ts@, rope_full@, rope_sliding@, half)->Err_0),
            ),
        },
{
    if str_eq(name, ROPE_FREQ_FULL) || str_eq(name, ROPE_FREQ_SLIDING) {
        let mut dims: Vec<u64> = Vec::new();
        dims.push((HD / 2) as u64);
        let data = if str_eq(name, ROPE_FREQ_FULL) {
            rope_full.clone()
        } else {
            rope_sliding.clone()
        };
        return Ok(Converted { data, dims, ty: T_F32, copied: false });
    }
    match find_source(ts, name) {
        None => Err(ConvertError::MissingTensor(name.to_owned())),
        Some(t) => convert_tensor(name, t, half),
    }
}

/// The tokenizer file's tables: vocabulary (token and id where the id is a non-negative
/// integer), merge rules, added tokens, and the whole file's text.
pub struct TokenizerSource {
    pub vocab: Vec<(String, Option<u64>)>,
    pub merges: Vec<MergeRule>,
    pub added: Vec<AddedToken>,
    pub text: String,
}

/// What a conversion did: the tensors written, the file's size in bytes (0 until `write_model`
/// lays the file out), whether weights were written in half precision,
/// how many tensors were copied unchanged and how many widened, and the tokenizer's token and
/// merge counts.
pub struct Stats {
    pub tensors: usize,
    pub bytes: u64,
    pub half: bool,
    pub copied: usize,
    pub widened: usize,
    pub tokenizer_tokens: usize,
    pub tokenizer_merges: usize,
}

/// The configuration's checked values, as `check_config` gives them.
pub open spec fn checked_of(c: CheckpointConfig) -> CheckedConfig {
    CheckedConfig {
        hidden: H,
        layers: NLAYER,
        heads: NH,
        inter: INTER,
        vocab: NVOCAB,
        global_every: GLOBAL_EVERY,
        theta_full: narrow_spec(c.rope_theta_full->0),
        theta_sliding: narrow_spec(c.rope_theta_sliding->0),
    }
}

/// The agent's temperatures as `f32` bit patterns, 0 for an entry that is not a number.
pub open spec fn agent_temps(a: AgentConfig) -> Option<Seq<u32>> {
    match a.temperature {
        None => None,
        Some(v) => Some(v@.map_values(|x: Option<u64>| match x {
            Some(b) => narrow_spec(b),
            None => 0u32,
        })),
    }
}

pub open spec fn merge_texts(m: Seq<MergeRule>) -> Seq<Seq<char>> {
    m.map_values(|r: MergeRule| merge_key(r))
}

/// The first special token the added tokens lack an id for, in the order [CLS], [SEP],
/// [MASK], [UNK], [PAD].
pub open spec fn missing_special(a: Seq<AddedToken>) -> Option<Seq<char>> {
    if token_id_of(a, "[CLS]"@) is None {
        Some("[CLS]"@)
    } else if token_id_of(a, "[SEP]"@) is None {
        Some("[SEP]"@)
    } else if token_id_of(a, "[MASK]"@) is None {
        Some("[MASK]"@)
    } else if token_id_of(a, "[UNK]"@) is None {
        Some("[UNK]"@)
    } else if token_id_of(a, "[PAD]"@) is None {
        Some("[PAD]"@)
    } else {
        None
    }
}

pub open spec fn ids_of(a: Seq<AddedToken>) -> SpecialIds {
    SpecialIds {
        cls: token_id_of(a, "[CLS]"@)->0,
        sep: token_id_of(a, "[SEP]"@)->0,
        mask: token_id_of(a, "[MASK]"@)->0,
        unk: token_id_of(a, "[UNK]"@)->0,
        pad: token_id_of(a, "[PAD]"@)->0,
    }
}

/// Every model tensor as it is written, in order, or the first one that cannot be.
pub open spec fn tensor_plan(
    names: Seq<Seq<char>>,
    ts: Seq<(String, SourceTensor)>,
    rope_full: Seq<u8>,
    rope_sliding: Seq<u8>,
    half: bool,
) -> Result<Seq<(Seq<char>, Seq<u64>, u32, Seq<u8>)>, (Seq<char>, TensorFailure)>
    decreases names.len(),
{
    if names.len() == 0 {
        Ok(Seq::empty())
    } else {
        match tensor_plan(names.drop_last(), ts, rope_full, rope_sliding, half) {
            Err(e) => Err(e),
            Ok(p) => match tensor_step(names.last(), ts, rope_full, rope_sliding, half) {
                Err(f) => Err((names.last(), f)),
                Ok(x) => Ok(p.push((names.last(), x.0, x.1, x.2))),
            },
        }
    }
}

/// How many of the tensors are copied unchanged.
pub open spec fn copied_count(
    names: Seq<Seq<char>>,
    ts: Seq<(String, SourceTensor)>,
    rope_full: Seq<u8>,
    rope_sliding: Seq<u8>,
    half: bool,
) -> nat
    decreases names.len(),
{
    if names.len() == 0 {
        0
    } else {
        copied_count(names.drop_last(), ts, rope_full, rope_sliding, half) + match tensor_step(
            names.last(),
            ts,
            rope_full,
            rope_sliding,
            half,
        ) {
            Ok(x) => if x.3 {
                1nat
            } else {
                0nat
            },
            Err(_) => 0nat,
        }
    }
}

pub open spec fn plan_views(v: Seq<(String, Converted)>) -> Seq<(Seq<char>, Seq<u64>, u32, Seq<u8>)> {
    v.map_values(|p: (String, Converted)| (p.0@, p.1.dims@, p.1.ty, p.1.data@))
}

proof fn lemma_plan_fails_early(
    names: Seq<Seq<char>>,
    k: int,
    ts: Seq<(String, SourceTensor)>,
    rf: Seq<u8>,
    rs: Seq<u8>,
    half: bool,
)
    requires
        0 <= k <= names.len(),
        tensor_plan(names.take(k), ts, rf, rs, half) is Err,
    ensures
        tensor_plan(names, ts, rf, rs, half) == tensor_plan(names.take(k), ts, rf, rs, half),
    decreases names.len() - k,
{
    if k < names.len() {
        assert(names.take(k + 1).drop_last() == names.take(k));
        lemma_plan_fails_early(names, k + 1, ts, rf, rs, half);
    } else {
        assert(names.take(k) == names);
    }
}

/// The answer owed for a conversion that fails: the first failing check, in the order the
/// configuration, the agent's temperatures, the tokenizer's size, its special tokens, then
/// the tensors; else a refusal by the model file of a metadata key or of a tensor.
pub open spec fn conversion_failure(
    e: ConvertError,
    cfg: CheckpointConfig,
    agent: AgentConfig,
    tok: TokenizerSource,
    ts: Seq<(String, SourceTensor)>,
    rope_full: Seq<u8>,
    rope_sliding: Seq<u8>,
    half: bool,
) -> bool {
    let tokens = tokens_spec(tok.vocab@, tok.added@);
    let plan = tensor_plan(weight_names_spec(), ts, rope_full, rope_sliding, half);
    if config_error(cfg) is Some {
        e.config_view() == config_error(cfg)
    } else if agent_temps(agent) is None {
        e is MissingTemperature
    } else if agent_temps(agent)->0.len() != QTYPES {
        e matches ConvertError::TemperatureCount(n) && n == agent_temps(agent)->0.len()
    } else if tokens.len() != NVOCAB {
        e matches ConvertError::VocabSize(a, b) && a == tokens.len() && b == NVOCAB
    } else if missing_special(tok.added@) is Some {
        e matches ConvertError::NoToken(n) && n@ == missing_special(tok.added@)->0
    } else if plan is Err {
        e.tensor_view() == Some(plan->Err_0)
    } else {
        let md = metadata_spec(
            half,
            checked_of(cfg),
            agent,
            agent_temps(agent)->0,
            tokens,
            merge_texts(tok.merges@),
            types_spec(tok.added@, tokens.len()),
            ids_of(tok.added@),
            tok.text@,
        );
        let tp = plan->Ok_0;
        e matches ConvertError::Gguf(g) && writer_refusal(md, tp) == Some(g)
    }
}

/// The first refusal among a model file's tensors as the writer takes them in order, each
/// against the metadata and the tensors before it.
pub open spec fn tensor_refusals(md: Seq<(Seq<char>, ValueView)>, tp: Seq<(Seq<char>, Seq<u64>, u32, Seq<u8>)>, n: nat) -> Option<GgufError>
    decreases n,
{
    if n == 0 {
        None
    } else {
        match tensor_refusals(md, tp, (n - 1) as nat) {
            Some(e) => Some(e),
            None => tensor_refusal(WriterView { kv: md, tensors: tp.take(n - 1) }, tp[n - 1].0, tp[n - 1].1, tp[n - 1].2, tp[n - 1].3),
        }
    }
}

/// What the writer refuses of a model file's entries, taken in order: a metadata key that
/// breaks the key rules, else the first tensor it refuses.
pub open spec fn writer_refusal(md: Seq<(Seq<char>, ValueView)>, tp: Seq<(Seq<char>, Seq<u64>, u32, Seq<u8>)>) -> Option<GgufError> {
    if exists|i: int| 0 <= i < md.len() && !key_rules(encode_utf8((#[trigger] md[i]).0)) {
        Some(GgufError::IllegalKey)
    } else {
        tensor_refusals(md, tp, tp.len())
    }
}

/// A refusal, once found, stays the first one.
proof fn lemma_refusal_stays(md: Seq<(Seq<char>, ValueView)>, tp: Seq<(Seq<char>, Seq<u64>, u32, Seq<u8>)>, n: nat, m: nat)
    requires
        n <= m,
        tensor_refusals(md, tp, n) is Some,
    ensures
        tensor_refusals(md, tp, m) == tensor_refusals(md, tp, n),
    decreases m - n,
{
    if n < m {
        lemma_refusal_stays(md, tp, n, (m - 1) as nat);
    }
}

/// Whether a conversion passes every check before the tensors: the configuration, the
/// agent's temperatures, the tokenizer's size and its special tokens.
pub open spec fn checks_pass(cfg: CheckpointConfig, agent: AgentConfig, tok: TokenizerSource) -> bool {
    &&& config_error(cfg) is None
    &&& agent_temps(agent) matches Some(t) && t.len() == QTYPES
    &&& tokens_spec(tok.vocab@, tok.added@).len() == NVOCAB
    &&& missing_special(tok.added@) is None
}

/// The metadata a conversion writes, once its checks pass.
pub open spec fn planned_metadata(cfg: CheckpointConfig, agent: AgentConfig, tok: TokenizerSource, half: bool) -> Seq<(Seq<char>, ValueView)> {
    let tokens = tokens_spec(tok.vocab@, tok.added@);
    metadata_spec(
        half,
        checked_of(cfg),
        agent,
        agent_temps(agent)->0,
        tokens,
        merge_texts(tok.merges@),
        types_spec(tok.added@, tokens.len()),
        ids_of(tok.added@),
        tok.text@,
    )
}

/// Whether every id of the tokenizer's tables leaves room for a table reaching it.
pub open spec fn ids_fit(tok: TokenizerSource) -> bool {
    &&& forall|k: int| 0 <= k < tok.vocab@.len() ==> (#[trigger] tok.vocab@[k]).1 matches Some(i) && i < usize::MAX - 1 || tok.vocab@[k].1 is None
    &&& forall|k: int| 0 <= k < tok.added@.len() ==> (#[trigger] tok.added@[k]).id matches Some(i) && i < usize::MAX - 1 || tok.added@[k].id is None
}

/// The merge rules as the model file lists them.
fn merge_strings(m: &Vec<MergeRule>) -> (r: Vec<String>)
    ensures
        string_views(r@) == merge_texts(m@),
{
    let mut r: Vec<String> = Vec::new();
    let mut i: usize = 0;
    while i < m.len()
        invariant
            i <= m@.len(),
            string_views(r@) == merge_texts(m@.take(i as int)),
        decreases m.len() - i,
    {
        let t = match &m[i] {
            MergeRule::Pair(a, b) => {
                let mut k = a.clone();
                k.append(" ");
                k.append(b.as_str());
                proof {
                    reveal_strlit(" ");
                }
                k
            },
            MergeRule::Joined(j) => j.clone(),
        };
        assert(t@ == merge_key(m@[i as int]));
        let ghost before = r@;
        r.push(t);
        proof {
            assert(string_views(r@) =~= string_views(before).push(t@));
            assert(merge_texts(m@.take(i + 1)) =~= merge_texts(m@.take(i as int)).push(merge_key(m@[i as int])));
        }
        i = i + 1;
    }
    assert(m@.take(m@.len() as int) == m@);
    r
}

/// Converts the checkpoint: checks its configuration, builds the model file's metadata from
/// it, the agent configuration and the tokenizer, and every tensor the model needs, in the
/// requested precision. `rope_full` and `rope_sliding` are the two rope frequency tables as
/// F32 data.
pub fn to_gguf(
    cfg: &CheckpointConfig,
    agent: &AgentConfig,
    tok: &TokenizerSource,
    tensors: &Vec<(String, SourceTensor)>,
    rope_full: &Vec<u8>,
    rope_sliding: &Vec<u8>,
    half: bool,
) -> (r: Result<(Writer, Stats), ConvertError>)
    requires
        ids_fit(*tok),
        sources_fit(tensors@),
    ensures
        match r {
            Ok((w, st)) => {
                let tokens = tokens_spec(tok.vocab@, tok.added@);
                let plan = tensor_plan(weight_names_spec(), tensors@, rope_full@, rope_sliding@, half);
                &&& config_error(*cfg) is None
                &&& agent_temps(*agent) matches Some(t) && t.len() == QTYPES
                &&& tokens.len() == NVOCAB
                &&& missing_special(tok.added@) is None
                &&& plan is Ok
                &&& w@.kv == metadata_spec(
                    half,
                    checked_of(*cfg),
                    *agent,
                    agent_temps(*agent)->0,
                    tokens,
                    merge_texts(tok.merges@),
                    types_spec(tok.added@, tokens.len()),
                    ids_of(tok.added@),
                    tok.text@,
                )
                &&& w@.tensors == plan->Ok_0
                &&& st.tensors == weight_names_spec().len()
                &&& st.bytes == 0
                &&& st.half == half
                &&& st.copied == copied_count(weight_names_spec(), tensors@, rope_full@, rope_sliding@, half)
                &&& st.widened == st.tensors - st.copied
                &&& st.tokenizer_tokens == tokens.len()
                &&& st.tokenizer_merges == tok.merges@.len()
            },
            Err(e) => conversion_failure(e, *cfg, *agent, *tok, tensors@, rope_full@, rope_sliding@, half),
        },
{
    let c = check_config(cfg)?;
    let temps: Vec<u32> = match &agent.temperature {
        None => return Err(ConvertError::MissingTemperature),
        Some(v) => {
            let mut t: Vec<u32> = Vec::new();
            let mut i: usize = 0;
            while i < v.len()
                invariant
                    i <= v@.len(),
                    t@ == v@.take(i as int).map_values(|x: Option<u64>| match x {
                        Some(b) => narrow_spec(b),
                        None => 0u32,
                    }),
                decreases v.len() - i,
            {
                let b = match v[i] {
                    Some(x) => narrow_bits(x),
                    None => 0,
                };
                t.push(b);
                i = i + 1;
                assert(t@ =~= v@.take(i as int).map_values(|x: Option<u64>| match x {
                    Some(b) => narrow_spec(b),
                    None => 0u32,
                }));
            }
            assert(v@.take(v@.len() as int) == v@);
            t
        },
    };
    if temps.len() != QTYPES {
        return Err(ConvertError::TemperatureCount(temps.len()));
    }
    let tokens = build_tokens(&tok.vocab, &tok.added);
    let merges = merge_strings(&tok.merges);
    let types = build_token_types(&tok.added, tokens.len());
    if tokens.len() != c.vocab {
        return Err(ConvertError::VocabSize(tokens.len(), c.vocab));
    }
    let cls = match token_id(&tok.added, "[CLS]") {
        Some(x) => x,
        None => return Err(ConvertError::NoToken("[CLS]")),
    };
    let sep = match token_id(&tok.added, "[SEP]") {
        Some(x) => x,
        None => return Err(ConvertError::NoToken("[SEP]")),
    };
    let mask = match token_id(&tok.added, "[MASK]") {
        Some(x) => x,
        None => return Err(ConvertError::NoToken("[MASK]")),
    };
    let unk = match token_id(&tok.added, "[UNK]") {
        Some(x) => x,
        None => return Err(ConvertError::NoToken("[UNK]")),
    };
    let pad = match token_id(&tok.added, "[PAD]") {
        Some(x) => x,
        None => return Err(ConvertError::NoToken("[PAD]")),
    };
    let ids = SpecialIds { cls, sep, mask, unk, pad };
    let kvs = metadata(half, &c, agent, &temps, &tokens, &merges, &types, &ids, &tok.text);
    let ghost md = kv_views(kvs@);
    assert(checks_pass(*cfg, *agent, *tok));
    assert(md == planned_metadata(*cfg, *agent, *tok, half));
    let names = weight_names();
    let ghost wn = weight_names_spec();
    let mut planned: Vec<(String, Converted)> = Vec::new();
    let mut copied: usize = 0;
    let mut k: usize = 0;
    assert(wn.take(0) == Seq::<Seq<char>>::empty());
    assert(plan_views(planned@) =~= Seq::empty());
    while k < names.len()
        invariant
            k <= names@.len(),
            crate::arch::views(names@) == wn,
            wn == weight_names_spec(),
            sources_fit(tensors@),
            tensor_plan(wn.take(k as int), tensors@, rope_full@, rope_sliding@, half) == Ok::<_, (Seq<char>, TensorFailure)>(plan_views(planned@)),
            copied == copied_count(wn.take(k as int), tensors@, rope_full@, rope_sliding@, half),
            copied <= k,
            checks_pass(*cfg, *agent, *tok),
        decreases names.len() - k,
    {
        assert(wn.take(k + 1).drop_last() == wn.take(k as int));
        assert(wn.take(k + 1).last() == names@[k as int]@);
        match plan_tensor(names[k].as_str(), tensors, rope_full, rope_sliding, half) {
            Err(e) => {
                proof {
                    lemma_plan_fails_early(wn, k + 1, tensors@, rope_full@, rope_sliding@, half);
                }
                return Err(e);
            },
            Ok(cv) => {
                if cv.copied {
                    copied = copied + 1;
                }
                let ghost before = plan_views(planned@);
                let e = (names[k].clone(), cv);
                planned.push(e);
                assert(plan_views(planned@) =~= before.push((e.0@, e.1.dims@, e.1.ty, e.1.data@)));
            },
        }
        k = k + 1;
    }
    assert(wn.take(wn.len() as int) == wn);
    let ghost tp = plan_views(planned@);
    let mut w = Writer::new();
    for e in it: kvs.into_iter()
        invariant
            it.seq() == kvs@,
            md == kv_views(kvs@),
            w@.kv == md.take(it.index() as int),
            w@.tensors == Seq::<(Seq<char>, Seq<u64>, u32, Seq<u8>)>::empty(),
            forall|i: int| 0 <= i < it.index() ==> key_rules(encode_utf8((#[trigger] md[i]).0)),
            checks_pass(*cfg, *agent, *tok),
            md == planned_metadata(*cfg, *agent, *tok, half),
            tensor_plan(weight_names_spec(), tensors@, rope_full@, rope_sliding@, half) == Ok::<_, (Seq<char>, TensorFailure)>(tp),
    {
        let ghost i = it.index() as int;
        assert(md[i] == (e.0@, e.1@));
        let ghost wb = w@;
        match w.kv(e.0.as_str(), e.1) {
            Err(g) => {
                assert(!key_rules(encode_utf8(md[i].0)));
                assert(writer_refusal(md, tp) == Some(GgufError::IllegalKey));
                return Err(ConvertError::Gguf(g));
            },
            Ok(()) => {
                assert(w@.kv =~= md.take(i + 1));
            },
        }
    }
    assert(md.take(md.len() as int) == md);
    assert(!(exists|i: int| 0 <= i < md.len() && !key_rules(encode_utf8((#[trigger] md[i]).0))));
    for e in it: planned.into_iter()
        invariant
            it.seq() == planned@,
            tp == plan_views(planned@),
            w@.kv == md,
            w@.tensors == tp.take(it.index() as int),
            tensor_refusals(md, tp, it.index() as nat) is None,
            writer_refusal(md, tp) == tensor_refusals(md, tp, tp.len()),
            checks_pass(*cfg, *agent, *tok),
            md == planned_metadata(*cfg, *agent, *tok, half),
            tensor_plan(weight_names_spec(), tensors@, rope_full@, rope_sliding@, half) == Ok::<_, (Seq<char>, TensorFailure)>(tp),
    {
        let ghost j = it.index() as int;
        assert(tp[j] == (e.0@, e.1.dims@, e.1.ty, e.1.data@));
        match w.tensor(e.0.as_str(), e.1.dims.as_slice(), e.1.ty, e.1.data) {
            Err(g) => {
                assert(tensor_refusals(md, tp, (j + 1) as nat) == Some(g));
                proof {
                    lemma_refusal_stays(md, tp, (j + 1) as nat, tp.len());
                }
                return Err(ConvertError::Gguf(g));
            },
            Ok(()) => {
                assert(w@.tensors =~= tp.take(j + 1));
                assert(tensor_refusals(md, tp, (j + 1) as nat) is None);
            },
        }
    }
    assert(tp.take(tp.len() as int) == tp);
    let stats = Stats {
        tensors: names.len(),
        bytes: 0,
        half,
        copied,
        widened: names.len() - copied,
        tokenizer_tokens: tokens.len(),
        tokenizer_merges: merges.len(),
    };
    Ok((w, stats))
}

/// Lays out a converted model file and completes the conversion's account with the file's
/// size in bytes; refuses as the writer does.
pub fn write_model(w: &Writer, st: Stats) -> (r: Result<(Vec<u8>, Stats), GgufError>)
    ensures
        match kv_refusal(w@.kv) {
            Some(e) => r matches Err(x) && x == e,
            None if !file_fits(w@) => r matches Err(x) && x == GgufError::TooLarge,
            None => r matches Ok((b, s)) && {
                &&& b@ == file_bytes(w@)
                &&& s.bytes == b@.len()
                &&& s.tensors == st.tensors
                &&& s.half == st.half
                &&& s.copied == st.copied
                &&& s.widened == st.widened
                &&& s.tokenizer_tokens == st.tokenizer_tokens
                &&& s.tokenizer_merges == st.tokenizer_merges
            },
        },
{
    match w.write() {
        Ok(b) => {
            let n = b.len() as u64;
            let s = Stats {
                tensors: st.tensors,
                bytes: n,
                half: st.half,
                copied: st.copied,
                widened: st.widened,
                tokenizer_tokens: st.tokenizer_tokens,
                tokenizer_merges: st.tokenizer_merges,
            };
            Ok((b, s))
        },
        Err(e) => Err(e),
    }
}

} // verus!
